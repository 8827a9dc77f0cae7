use vstd::prelude::*;

use crate::diff::LocaleData;
use crate::language::Language;
use crate::manifest::LocaleManifest;
use crate::store::LoadError;
use crate::strmap::{
    has_key, index_of, keys_distinct, keys_of, lemma_index_of, lemma_map_of_push,
    lemma_map_of_remove, lemma_map_of_update, map_of, values_of, with_entry, without_key, Entries,
    StrMap,
};

verus! {

/// Why synchronising the documents stopped.
#[derive(Debug)]
pub enum SyncError {
    /// The manifest has no output path for the language with this code.
    MissingLocalePath { language: String },
    /// The manifest enables the language with this code, but its document does not exist.
    MissingDocument { language: String },
    /// The provider answered with another number of texts than it was sent.
    CountMismatch { language: String, expected: usize, received: usize },
    /// A key to remove is not in the document of the language with this code.
    MissingKey { language: String, key: String },
    /// The provider failed to translate into the language with this code.
    ProviderFailed { language: String },
    /// The source document has changes that were not synchronised yet.
    PendingChanges,
    /// The file at this path exists but does not hold a document.
    Unreadable { path: String, error: LoadError },
}

/// Every key of `keys` is in `doc`.
pub open spec fn all_present(doc: Entries, keys: Seq<Seq<char>>) -> bool {
    forall|j: int| 0 <= j < keys.len() ==> has_key(doc, #[trigger] keys[j])
}

/// `key` is the first key of `keys` that `doc` lacks.
pub open spec fn is_first_missing(doc: Entries, keys: Seq<Seq<char>>, key: Seq<char>) -> bool {
    exists|j: int|
        0 <= j < keys.len() && keys[j] == key && !has_key(doc, key) && all_present(
            doc,
            keys.take(j),
        )
}

/// `doc` after removing each key of `keys` in turn.
pub open spec fn remove_all(doc: Entries, keys: Seq<Seq<char>>) -> Entries
    decreases keys.len(),
{
    if keys.len() == 0 {
        doc
    } else {
        without_key(remove_all(doc, keys.drop_last()), keys.last())
    }
}

/// `doc` after setting each entry of `updates` in turn.
pub open spec fn merge_all(doc: Entries, updates: Entries) -> Entries
    decreases updates.len(),
{
    if updates.len() == 0 {
        doc
    } else {
        with_entry(merge_all(doc, updates.drop_last()), updates.last().0, updates.last().1)
    }
}

/// Dropping a key from the entries drops it from the map.
pub proof fn lemma_without_key(e: Entries, k: Seq<char>)
    requires
        keys_distinct(e),
    ensures
        keys_distinct(without_key(e, k)),
        map_of(without_key(e, k)) == map_of(e).remove(k),
{
    if has_key(e, k) {
        let i = index_of(e, k);
        lemma_map_of_remove(e, i);
    } else {
        assert(map_of(e).remove(k) =~= map_of(e));
    }
}

/// Setting a key in the entries sets it in the map.
pub proof fn lemma_with_entry(e: Entries, k: Seq<char>, v: Seq<char>)
    requires
        keys_distinct(e),
    ensures
        keys_distinct(with_entry(e, k, v)),
        map_of(with_entry(e, k, v)) == map_of(e).insert(k, v),
{
    if has_key(e, k) {
        let i = index_of(e, k);
        lemma_map_of_update(e, i, v);
    } else {
        lemma_map_of_push(e, k, v);
    }
}

/// Removing keys in turn takes all of them out of the map and leaves the rest as it was.
pub proof fn lemma_remove_all(doc: Entries, keys: Seq<Seq<char>>)
    requires
        keys_distinct(doc),
    ensures
        keys_distinct(remove_all(doc, keys)),
        map_of(remove_all(doc, keys)) == map_of(doc).remove_keys(keys.to_set()),
    decreases keys.len(),
{
    if keys.len() == 0 {
        assert(map_of(doc).remove_keys(keys.to_set()) =~= map_of(doc));
    } else {
        let rest = keys.drop_last();
        lemma_remove_all(doc, rest);
        lemma_without_key(remove_all(doc, rest), keys.last());
        assert forall|k: Seq<char>| keys.contains(k) <==> (rest.contains(k) || k == keys.last()) by {
            if keys.contains(k) {
                let j = choose|j: int| 0 <= j < keys.len() && keys[j] == k;
                if j < keys.len() - 1 {
                    assert(rest[j] == k);
                }
            }
            if rest.contains(k) {
                let j = choose|j: int| 0 <= j < rest.len() && rest[j] == k;
                assert(keys[j] == k);
            }
            if k == keys.last() {
                assert(keys[keys.len() - 1] == k);
            }
        }
        assert(map_of(doc).remove_keys(rest.to_set()).remove(keys.last()) =~= map_of(
            doc,
        ).remove_keys(keys.to_set()));
    }
}

/// Setting entries in turn gives the map with their values laid over the old ones.
pub proof fn lemma_merge_all(doc: Entries, updates: Entries)
    requires
        keys_distinct(doc),
        keys_distinct(updates),
    ensures
        keys_distinct(merge_all(doc, updates)),
        map_of(merge_all(doc, updates)) == map_of(doc).union_prefer_right(map_of(updates)),
    decreases updates.len(),
{
    if updates.len() == 0 {
        assert(map_of(updates) =~= Map::<Seq<char>, Seq<char>>::empty());
        assert(map_of(doc).union_prefer_right(map_of(updates)) =~= map_of(doc));
    } else {
        let rest = updates.drop_last();
        let last = updates.last();
        assert(updates =~= rest.push(last));
        assert(keys_distinct(rest));
        assert(!has_key(rest, last.0)) by {
            if has_key(rest, last.0) {
                let j = index_of(rest, last.0);
                assert(updates[j].0 == updates[updates.len() - 1].0);
            }
        }
        lemma_merge_all(doc, rest);
        lemma_with_entry(merge_all(doc, rest), last.0, last.1);
        lemma_map_of_push(rest, last.0, last.1);
        assert(map_of(doc).union_prefer_right(map_of(rest)).insert(last.0, last.1) =~= map_of(
            doc,
        ).union_prefer_right(map_of(updates)));
    }
}

/// The keys of `source` paired, in order, with the texts of `texts`.
pub open spec fn zipped(source: Entries, texts: Seq<Seq<char>>) -> Entries {
    Seq::new(source.len(), |i: int| (source[i].0, texts[i]))
}

/// The view of each string.
pub open spec fn string_views(v: Seq<String>) -> Seq<Seq<char>> {
    v.map_values(|s: String| s@)
}

/// A derived or source document: its data, its language and where it is stored.
#[derive(Debug)]
pub struct LocaleDocument {
    pub data: LocaleData,
    pub language: Language,
    pub path: String,
}

/// The entries to translate, and their texts in the same order; the texts are sent to the
/// provider, and what it answers is paired back with the keys by position.
pub struct TranslationBatch {
    source: LocaleData,
    texts: Vec<String>,
}

impl TranslationBatch {
    /// The entries that the batch translates.
    pub closed spec fn source_view(&self) -> Entries {
        self.source@
    }

    /// Well-formed: the texts are the values of the entries.
    pub closed spec fn wf(&self) -> bool {
        self.source.wf() && string_views(self.texts@) == values_of(self.source@)
    }

    /// A batch that translates the entries of `source`.
    pub fn new(source: LocaleData) -> (r: TranslationBatch)
        requires
            source.wf(),
        ensures
            r.wf(),
            r.source_view() == source@,
    {
        let texts = LocaleDocument::get_raw_text_data(&source);
        TranslationBatch { source, texts }
    }

    /// The texts to send, in the order of the entries.
    pub fn texts(&self) -> (r: &Vec<String>)
        requires
            self.wf(),
        ensures
            string_views(r@) == values_of(self.source_view()),
    {
        &self.texts
    }

    /// The entries that the batch translates.
    pub fn source(&self) -> (r: &LocaleData)
        requires
            self.wf(),
        ensures
            r.wf(),
            r@ == self.source_view(),
    {
        &self.source
    }

    /// The entries that the batch translates, handed back.
    pub fn into_source(self) -> (r: LocaleData)
        requires
            self.wf(),
        ensures
            r.wf(),
            r@ == self.source_view(),
    {
        self.source
    }

    /// The number of texts.
    pub fn len(&self) -> (r: usize)
        requires
            self.wf(),
        ensures
            r == self.source_view().len(),
    {
        self.source.len()
    }

    /// Pairs the provider's answer with the keys: the `i`-th key gets the `i`-th text. An answer
    /// of another length is refused.
    pub fn apply(&self, translated: Vec<String>, language: &Language) -> (r: Result<
        LocaleData,
        SyncError,
    >)
        requires
            self.wf(),
        ensures
            translated@.len() == self.source_view().len() <==> r is Ok,
            r matches Ok(d) ==> d.wf() && d@ == zipped(
                self.source_view(),
                string_views(translated@),
            ),
            r matches Err(e) ==> e matches SyncError::CountMismatch { language: l, expected, received }
                && l@ == language.code@ && expected == self.source_view().len() && received
                == translated@.len(),
    {
        let n = self.source.len();
        if translated.len() != n {
            return Err(
                SyncError::CountMismatch {
                    language: language.code.clone(),
                    expected: n,
                    received: translated.len(),
                },
            );
        }
        let ghost e = self.source@;
        let ghost t = string_views(translated@);
        let mut out = StrMap::new();
        let mut i: usize = 0;
        while i < n
            invariant
                self.wf(),
                e == self.source@,
                t == string_views(translated@),
                n == e.len(),
                n == translated@.len(),
                i <= n,
                out.wf(),
                out@ =~= zipped(e, t).take(i as int),
            decreases n - i,
        {
            let key = self.source.key_at(i);
            proof {
                if has_key(out@, key@) {
                    let j = choose|j: int| 0 <= j < out@.len() && out@[j].0 == key@;
                    assert(e[j].0 == e[i as int].0);
                }
            }
            out.push_new(key.clone(), translated[i].clone());
            i = i + 1;
        }
        Ok(out)
    }
}

/// The keys of `source` keep their pairing with the answer, whatever the texts hold: each key
/// maps to the text at its own position, even where texts repeat.
pub proof fn lemma_batch_fidelity(source: Entries, texts: Seq<Seq<char>>)
    requires
        keys_distinct(source),
        texts.len() == source.len(),
    ensures
        keys_distinct(zipped(source, texts)),
        forall|i: int|
            0 <= i < source.len() ==> map_of(zipped(source, texts)).contains_key(
                #[trigger] source[i].0,
            ) && map_of(zipped(source, texts))[source[i].0] == texts[i],
{
    let z = zipped(source, texts);
    assert(keys_distinct(z));
    assert forall|i: int| 0 <= i < source.len() implies map_of(z).contains_key(
        #[trigger] source[i].0,
    ) && map_of(z)[source[i].0] == texts[i] by {
        lemma_index_of(z, i);
    }
}

impl LocaleDocument {
    /// A new document of `language` holding the whole source translated: the provider's
    /// answer `translated` for the texts of `source`, stored at the path that the manifest
    /// gives the language.
    pub fn translate_full(
        manifest: &LocaleManifest,
        source: &TranslationBatch,
        language: Language,
        translated: Vec<String>,
    ) -> (r: Result<LocaleDocument, SyncError>)
        requires
            manifest.wf(),
            source.wf(),
        ensures
            !map_of(manifest.locale_paths@).contains_key(language.code@) ==> (r matches Err(e)
                && e matches SyncError::MissingLocalePath { language: c } && c@ == language.code@),
            map_of(manifest.locale_paths@).contains_key(language.code@) ==> (r is Ok <==> translated@.len()
                == source.source_view().len()),
            map_of(manifest.locale_paths@).contains_key(language.code@) ==> (r matches Err(e) ==> (
            e matches SyncError::CountMismatch { language: c, expected, received } && c@
                == language.code@ && expected == source.source_view().len() && received
                == translated@.len())),
            r matches Ok(d) ==> d.data.wf() && d.language == language && d.path@ == map_of(
                manifest.locale_paths@,
            )[language.code@] && d.data@ == zipped(source.source_view(), string_views(translated@)),
    {
        let path = match manifest.locale_path(&language.code) {
            Ok(p) => p,
            Err(e) => {
                return Err(e);
            },
        };
        match source.apply(translated, &language) {
            Ok(data) => Ok(LocaleDocument { data, language, path }),
            Err(e) => Err(e),
        }
    }

    /// The texts of `data`, in the order of its entries.
    pub fn get_raw_text_data(data: &LocaleData) -> (r: Vec<String>)
        ensures
            string_views(r@) == values_of(data@),
    {
        data.values()
    }

    /// Removes the entries with the keys of `to_remove`. Where one of those keys is not in
    /// the document, nothing is removed and the first such key is reported.
    pub fn remove_dead_entries(&mut self, to_remove: &LocaleData) -> (r: Result<(), SyncError>)
        requires
            old(self).data.wf(),
            to_remove.wf(),
        ensures
            final(self).data.wf(),
            final(self).language == old(self).language,
            final(self).path == old(self).path,
            r is Ok <==> all_present(old(self).data@, keys_of(to_remove@)),
            r is Ok ==> final(self).data@ == remove_all(old(self).data@, keys_of(to_remove@)),
            r matches Err(e) ==> *final(self) == *old(self) && (e matches SyncError::MissingKey {
                language,
                key,
            } && language@ == old(self).language.code@ && is_first_missing(
                old(self).data@,
                keys_of(to_remove@),
                key@,
            )),
    {
        let ghost keys = keys_of(to_remove@);
        let n = to_remove.len();
        let mut i: usize = 0;
        while i < n
            invariant
                self.data.wf(),
                to_remove.wf(),
                keys == keys_of(to_remove@),
                n == keys.len(),
                i <= n,
                *self == *old(self),
                all_present(self.data@, keys.take(i as int)),
            decreases n - i,
        {
            let key = to_remove.key_at(i);
            if !self.data.contains_key(key) {
                assert(keys[i as int] == key@);
                assert(is_first_missing(self.data@, keys, key@));
                assert(!all_present(self.data@, keys));
                return Err(
                    SyncError::MissingKey { language: self.language.code.clone(), key: key.clone() },
                );
            }
            assert(keys.take(i + 1) =~= keys.take(i as int).push(key@));
            i = i + 1;
        }
        assert(keys.take(n as int) =~= keys);
        let ghost start = self.data@;
        let mut i: usize = 0;
        while i < n
            invariant
                self.data.wf(),
                to_remove.wf(),
                keys == keys_of(to_remove@),
                n == keys.len(),
                i <= n,
                self.language == old(self).language,
                self.path == old(self).path,
                self.data@ == remove_all(start, keys.take(i as int)),
            decreases n - i,
        {
            let key = to_remove.key_at(i);
            assert(keys.take(i + 1).drop_last() =~= keys.take(i as int));
            self.data.remove(key);
            i = i + 1;
        }
        Ok(())
    }

    /// Sets each entry of `to_update` in the document: existing keys keep their place and
    /// take the new value, new keys are appended.
    pub fn update_entries(&mut self, to_update: LocaleData)
        requires
            old(self).data.wf(),
        ensures
            final(self).data.wf(),
            final(self).language == old(self).language,
            final(self).path == old(self).path,
            final(self).data@ == merge_all(old(self).data@, to_update@),
    {
        let ghost start = self.data@;
        let n = to_update.len();
        let mut i: usize = 0;
        while i < n
            invariant
                self.data.wf(),
                n == to_update@.len(),
                i <= n,
                self.language == old(self).language,
                self.path == old(self).path,
                self.data@ == merge_all(start, to_update@.take(i as int)),
            decreases n - i,
        {
            assert(to_update@.take(i + 1).drop_last() =~= to_update@.take(i as int));
            self.data.insert(to_update.key_at(i).clone(), to_update.value_at(i).clone());
            i = i + 1;
        }
        assert(to_update@.take(n as int) =~= to_update@);
    }

    /// Brings the document up to date: removes the keys of `removed`, then sets the entries
    /// of `translated`. Where a key to remove is missing, the document is left as it was.
    pub fn update_translations(&mut self, removed: &LocaleData, translated: LocaleData) -> (r:
        Result<(), SyncError>)
        requires
            old(self).data.wf(),
            removed.wf(),
            translated.wf(),
        ensures
            final(self).data.wf(),
            final(self).language == old(self).language,
            final(self).path == old(self).path,
            r is Ok <==> all_present(old(self).data@, keys_of(removed@)),
            r is Ok ==> final(self).data@ == merge_all(
                remove_all(old(self).data@, keys_of(removed@)),
                translated@,
            ),
            r is Ok ==> map_of(final(self).data@) == map_of(old(self).data@).remove_keys(
                keys_of(removed@).to_set(),
            ).union_prefer_right(map_of(translated@)),
            r matches Err(e) ==> *final(self) == *old(self) && (e matches SyncError::MissingKey {
                language,
                key,
            } && language@ == old(self).language.code@ && is_first_missing(
                old(self).data@,
                keys_of(removed@),
                key@,
            )),
    {
        match self.remove_dead_entries(removed) {
            Ok(()) => {},
            Err(e) => {
                return Err(e);
            },
        }
        proof {
            lemma_remove_all(old(self).data@, keys_of(removed@));
            lemma_merge_all(remove_all(old(self).data@, keys_of(removed@)), translated@);
        }
        self.update_entries(translated);
        Ok(())
    }
}

} // verus!
