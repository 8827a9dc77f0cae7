use vstd::prelude::*;

use crate::document::{merge_all, remove_all, string_views, LocaleDocument, SyncError};
use crate::language::{code_pairs, languages_missing_from, missing_from, Language};
use crate::strmap::{collected, keys_distinct, lemma_collected_distinct, map_of, StrMap};

verus! {

/// The codes of the languages, in order.
pub open spec fn codes_of(langs: Seq<Language>) -> Seq<Seq<char>> {
    langs.map_values(|l: Language| l.code@)
}

/// The names of the languages, in order.
pub open spec fn names_of(langs: Seq<Language>) -> Seq<Seq<char>> {
    langs.map_values(|l: Language| l.name@)
}

/// `stored` is the stored form of `m`: the same paths, and the languages collected into a map
/// from code to name.
pub open spec fn stores(m: LocaleManifest, stored: LocaleManifestExternal) -> bool {
    &&& stored.source_locale_path == m.source_locale_path
    &&& stored.locale_paths == m.locale_paths
    &&& stored.language_names.wf()
    &&& stored.language_names@ == collected(code_pairs(m.languages@, names_of(m.languages@)))
}

/// `m` is read from `stored`: the same paths, and a language for each entry of the names, in
/// order.
pub open spec fn reads(stored: LocaleManifestExternal, m: LocaleManifest) -> bool {
    &&& m.source_locale_path == stored.source_locale_path
    &&& m.locale_paths == stored.locale_paths
    &&& m.languages@.len() == stored.language_names@.len()
    &&& forall|i: int|
        0 <= i < m.languages@.len() ==> (#[trigger] m.languages@[i]).code@
            == stored.language_names@[i].0 && m.languages@[i].name@ == stored.language_names@[i].1
}

/// A project's configuration: the source document's path, the path of each enabled
/// language's document by code, and the enabled languages.
pub struct LocaleManifest {
    pub source_locale_path: String,
    pub locale_paths: StrMap,
    pub languages: Vec<Language>,
}

/// The manifest as it is stored: the enabled languages kept as a map from code to name.
pub struct LocaleManifestExternal {
    pub source_locale_path: String,
    pub locale_paths: StrMap,
    pub language_names: StrMap,
}

impl LocaleManifest {
    /// Well-formed: the maps hold each code once.
    pub open spec fn wf(&self) -> bool {
        self.locale_paths.wf()
    }

    /// A new project on the source document at `source_locale_path`, with no language yet.
    pub fn new(source_locale_path: String) -> (r: LocaleManifest)
        ensures
            r.wf(),
            r.source_locale_path == source_locale_path,
            r.locale_paths@.len() == 0,
            r.languages@.len() == 0,
    {
        LocaleManifest {
            source_locale_path,
            locale_paths: StrMap::new(),
            languages: Vec::new(),
        }
    }

    /// The path of the document of the language with code `code`.
    pub fn locale_path(&self, code: &String) -> (r: Result<String, SyncError>)
        requires
            self.wf(),
        ensures
            r is Ok <==> map_of(self.locale_paths@).contains_key(code@),
            r matches Ok(p) ==> p@ == map_of(self.locale_paths@)[code@],
            r matches Err(e) ==> (e matches SyncError::MissingLocalePath { language }
                && language@ == code@),
    {
        match self.locale_paths.get(code) {
            Some(p) => Ok(p.clone()),
            None => Err(SyncError::MissingLocalePath { language: code.clone() }),
        }
    }

    /// The manifest read from its stored form: each entry of the language names becomes
    /// a language, in order.
    pub fn from_external(value: LocaleManifestExternal) -> (r: LocaleManifest)
        ensures
            reads(value, r),
    {
        let LocaleManifestExternal { source_locale_path, locale_paths, language_names } = value;
        let mut languages: Vec<Language> = Vec::new();
        let n = language_names.len();
        let mut i: usize = 0;
        while i < n
            invariant
                n == language_names@.len(),
                i <= n,
                languages@.len() == i,
                forall|j: int|
                    0 <= j < i ==> (#[trigger] languages@[j]).code@ == language_names@[j].0
                        && languages@[j].name@ == language_names@[j].1,
            decreases n - i,
        {
            languages.push(
                Language {
                    code: language_names.key_at(i).clone(),
                    name: language_names.value_at(i).clone(),
                },
            );
            i = i + 1;
        }
        LocaleManifest { source_locale_path, locale_paths, languages }
    }

    /// Applies a change of the enabled languages: the removed ones lose their path and
    /// leave the list (their documents stay where they are); the added ones, with the
    /// path of `added_paths` at the same position, join at the end.
    pub fn apply_language_change(
        &mut self,
        removed: &Vec<Language>,
        added: &Vec<Language>,
        added_paths: Vec<String>,
    )
        requires
            old(self).wf(),
            added_paths@.len() == added@.len(),
        ensures
            final(self).wf(),
            final(self).source_locale_path == old(self).source_locale_path,
            final(self).locale_paths@ == merge_all(
                remove_all(old(self).locale_paths@, codes_of(removed@)),
                code_pairs(added@, string_views(added_paths@)),
            ),
            final(self).languages@ == old(self).languages@.filter(missing_from(removed@))
                + added@,
    {
        let ghost start = self.locale_paths@;
        let ghost codes = codes_of(removed@);
        let n = removed.len();
        let mut i: usize = 0;
        while i < n
            invariant
                self.locale_paths.wf(),
                n == removed@.len(),
                codes == codes_of(removed@),
                i <= n,
                self.source_locale_path == old(self).source_locale_path,
                self.languages == old(self).languages,
                self.locale_paths@ == remove_all(start, codes.take(i as int)),
            decreases n - i,
        {
            assert(codes.take(i + 1).drop_last() =~= codes.take(i as int));
            self.locale_paths.remove(&removed[i].code);
            i = i + 1;
        }
        assert(codes.take(n as int) =~= codes);
        let ghost pruned = self.locale_paths@;
        let ghost pairs = code_pairs(added@, string_views(added_paths@));
        let m = added.len();
        let mut i: usize = 0;
        while i < m
            invariant
                self.locale_paths.wf(),
                m == added@.len(),
                m == added_paths@.len(),
                pairs == code_pairs(added@, string_views(added_paths@)),
                i <= m,
                self.source_locale_path == old(self).source_locale_path,
                self.languages == old(self).languages,
                self.locale_paths@ == merge_all(pruned, pairs.take(i as int)),
            decreases m - i,
        {
            assert(pairs.take(i + 1).drop_last() =~= pairs.take(i as int));
            self.locale_paths.insert(added[i].code.clone(), added_paths[i].clone());
            i = i + 1;
        }
        assert(pairs.take(m as int) =~= pairs);
        let mut languages = languages_missing_from(&self.languages, removed);
        let ghost kept = languages@;
        let mut i: usize = 0;
        while i < m
            invariant
                m == added@.len(),
                i <= m,
                languages@ == kept + added@.take(i as int),
            decreases m - i,
        {
            assert(added@.take(i + 1) =~= added@.take(i as int).push(added@[i as int]));
            languages.push(added[i].clone());
            i = i + 1;
        }
        assert(added@.take(m as int) =~= added@);
        self.languages = languages;
    }
}

/// What a finished run keeps: the manifest, and the source document that becomes the snapshot.
pub struct AppData {
    pub manifest: LocaleManifest,
    pub source_locale: LocaleDocument,
}

impl AppData {
    pub fn new(manifest: LocaleManifest, source_locale: LocaleDocument) -> (r: AppData)
        ensures
            r.manifest == manifest,
            r.source_locale == source_locale,
    {
        AppData { manifest, source_locale }
    }
}

impl LocaleManifestExternal {
    /// The stored form of a manifest: the languages collected into a map from code to name,
    /// in which a repeated code keeps its first place and its last name.
    pub fn from_manifest(value: LocaleManifest) -> (r: LocaleManifestExternal)
        ensures
            stores(value, r),
    {
        let LocaleManifest { source_locale_path, locale_paths, languages } = value;
        let ghost pairs_view = code_pairs(languages@, names_of(languages@));
        let mut pairs: Vec<(String, String)> = Vec::new();
        let n = languages.len();
        let mut i: usize = 0;
        while i < n
            invariant
                n == languages@.len(),
                pairs_view == code_pairs(languages@, names_of(languages@)),
                i <= n,
                pairs@.len() == i,
                pairs@.map_values(|p: (String, String)| (p.0@, p.1@)) =~= pairs_view.take(
                    i as int,
                ),
            decreases n - i,
        {
            let ghost before = pairs@;
            pairs.push((languages[i].code.clone(), languages[i].name.clone()));
            proof {
                let f = |p: (String, String)| (p.0@, p.1@);
                assert(pairs@.map_values(f) =~= before.map_values(f).push(f(pairs@[i as int])));
                assert(pairs_view.take(i + 1) =~= pairs_view.take(i as int).push(
                    pairs_view[i as int],
                ));
            }
            i = i + 1;
        }
        assert(pairs_view.take(n as int) =~= pairs_view);
        LocaleManifestExternal {
            source_locale_path,
            locale_paths,
            language_names: StrMap::from_pairs(pairs),
        }
    }
}

/// A manifest survives its stored form: reading back the stored form of a manifest whose
/// languages have distinct codes gives the same paths and the same languages, in order.
pub proof fn lemma_manifest_round_trip(
    m: LocaleManifest,
    stored: LocaleManifestExternal,
    back: LocaleManifest,
)
    requires
        forall|i: int, j: int|
            0 <= i < m.languages@.len() && 0 <= j < m.languages@.len() && i != j
                ==> m.languages@[i].code@ != m.languages@[j].code@,
        stores(m, stored),
        reads(stored, back),
    ensures
        back.source_locale_path == m.source_locale_path,
        back.locale_paths == m.locale_paths,
        back.languages@.len() == m.languages@.len(),
        forall|i: int|
            0 <= i < m.languages@.len() ==> (#[trigger] back.languages@[i]).code@
                == m.languages@[i].code@ && back.languages@[i].name@ == m.languages@[i].name@,
{
    let pairs = code_pairs(m.languages@, names_of(m.languages@));
    assert(keys_distinct(pairs));
    lemma_collected_distinct(pairs);
}

} // verus!
