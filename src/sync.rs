use vstd::prelude::*;

use crate::diff::{
    changed_or_added_of, diff_is_empty, lemma_diff_self_empty, removed_of, LocaleData,
    LocaleDataDiff,
};
use crate::document::{
    all_present, is_first_missing, lemma_merge_all, lemma_remove_all, merge_all, remove_all,
    string_views, zipped, LocaleDocument, SyncError, TranslationBatch,
};
use crate::language::{language_diff_matches, Language, LanguageDiff};
use crate::manifest::LocaleManifest;
use crate::strmap::{keys_distinct, keys_of, map_of, values_of, Entries};

verus! {

/// Every document's data is well-formed.
pub open spec fn docs_wf(docs: Seq<LocaleDocument>) -> bool {
    forall|j: int| 0 <= j < docs.len() ==> (#[trigger] docs[j]).data.wf()
}

/// `doc` brought up to date: the keys of `removed` taken out, then `changes` set.
pub open spec fn synced(doc: Entries, removed: Entries, changes: Entries) -> Entries {
    merge_all(remove_all(doc, keys_of(removed)), changes)
}

/// `out` is `done` followed by `doc` holding the data `data`.
pub open spec fn appended(
    done: Seq<LocaleDocument>,
    doc: LocaleDocument,
    data: Entries,
    out: Seq<LocaleDocument>,
) -> bool {
    &&& out.len() == done.len() + 1
    &&& out.drop_last() == done
    &&& out.last().language == doc.language
    &&& out.last().path == doc.path
    &&& out.last().data@ == data
}

/// `e` reports that `key` is the first key of `removed` missing from `doc`.
pub open spec fn reports_missing(e: SyncError, doc: LocaleDocument, removed: Entries) -> bool {
    e matches SyncError::MissingKey { language, key } && language@ == doc.language.code@
        && is_first_missing(doc.data@, keys_of(removed), key@)
}

/// What a completed update leaves to write: the documents, then the snapshot.
pub struct SyncOutcome {
    /// The derived documents, brought up to date, to be written first.
    pub documents: Vec<LocaleDocument>,
    /// The new snapshot of the source document, to be written after all documents.
    pub snapshot: LocaleData,
}

/// What the update asks for next.
pub enum CycleStep {
    /// The source did not change: nothing is translated and nothing is written.
    Idle,
    /// Translate the cycle's texts into its target language, then resume it with the answer.
    Translate(UpdateCycle),
    /// Write the documents, then the snapshot.
    Commit(SyncOutcome),
    /// The update stops; nothing is written.
    Fail(SyncError),
}

/// The result of pruning every document of `docs` and keeping `snapshot`: a commit where
/// every document holds every key of `removed`, else the report of the first document that
/// does not.
pub open spec fn pruned_outcome(
    r: CycleStep,
    docs: Seq<LocaleDocument>,
    removed: Entries,
    snapshot: Entries,
) -> bool {
    match r {
        CycleStep::Commit(o) => {
            &&& forall|j: int|
                0 <= j < docs.len() ==> all_present((#[trigger] docs[j]).data@, keys_of(removed))
            &&& o.snapshot.wf()
            &&& o.snapshot@ == snapshot
            &&& o.documents@.len() == docs.len()
            &&& forall|j: int|
                0 <= j < docs.len() ==> (#[trigger] o.documents@[j]).language == docs[j].language
                    && o.documents@[j].path == docs[j].path && o.documents@[j].data@ == remove_all(
                    docs[j].data@,
                    keys_of(removed),
                )
        },
        CycleStep::Fail(e) => exists|j: int|
            0 <= j < docs.len() && !all_present(docs[j].data@, keys_of(removed)) && (forall|q: int|
                0 <= q < j ==> all_present((#[trigger] docs[q]).data@, keys_of(removed)))
                && reports_missing(e, docs[j], removed),
        _ => false,
    }
}

/// An update in progress: the derived documents are brought up to date one language at a
/// time, and the snapshot is only handed out once all of them are.
pub struct UpdateCycle {
    removed: LocaleData,
    batch: TranslationBatch,
    pending: Vec<LocaleDocument>,
    done: Vec<LocaleDocument>,
    snapshot: LocaleData,
}

impl UpdateCycle {
    /// The entries whose keys every document loses.
    pub closed spec fn removed_view(&self) -> Entries {
        self.removed@
    }

    /// The changed or added entries of the source, translated once per language.
    pub closed spec fn batch_view(&self) -> Entries {
        self.batch.source_view()
    }

    /// The documents still waiting for their translation, the next one first.
    pub closed spec fn pending_view(&self) -> Seq<LocaleDocument> {
        self.pending@
    }

    /// The documents already brought up to date.
    pub closed spec fn done_view(&self) -> Seq<LocaleDocument> {
        self.done@
    }

    /// The source document that becomes the snapshot.
    pub closed spec fn snapshot_view(&self) -> Entries {
        self.snapshot@
    }

    /// Well-formed: a language is waiting and there is something to translate.
    pub closed spec fn wf(&self) -> bool {
        &&& self.removed.wf()
        &&& self.batch.wf()
        &&& self.snapshot.wf()
        &&& docs_wf(self.pending@)
        &&& docs_wf(self.done@)
        &&& self.pending@.len() > 0
        &&& self.batch.source_view().len() > 0
    }

    /// The language to translate into next.
    pub fn target(&self) -> (r: &Language)
        requires
            self.wf(),
        ensures
            *r == self.pending_view()[0].language,
    {
        &self.pending[0].language
    }

    /// The texts to translate, the same for every language.
    pub fn texts(&self) -> (r: &Vec<String>)
        requires
            self.wf(),
        ensures
            string_views(r@) == values_of(self.batch_view()),
    {
        self.batch.texts()
    }

    /// Starts an update of `documents` from the snapshot `history` to the source `current`.
    /// Without a difference it is idle. With changed or added entries and a document to update,
    /// it asks for their translation. Otherwise it prunes the removed keys from every
    /// document at once.
    pub fn start(history: &LocaleData, current: LocaleData, documents: Vec<LocaleDocument>) -> (r:
        CycleStep)
        requires
            history.wf(),
            current.wf(),
            docs_wf(documents@),
        ensures
            r is Idle <==> diff_is_empty(history@, current@),
            !diff_is_empty(history@, current@) && changed_or_added_of(history@, current@).len() > 0
                && documents@.len() > 0 ==> (r matches CycleStep::Translate(c) && c.wf()
                && c.removed_view() == removed_of(history@, current@) && c.batch_view()
                == changed_or_added_of(history@, current@) && c.pending_view() == documents@
                && c.done_view() == Seq::<LocaleDocument>::empty() && c.snapshot_view()
                == current@),
            !diff_is_empty(history@, current@) && (changed_or_added_of(history@, current@).len()
                == 0 || documents@.len() == 0) ==> pruned_outcome(
                r,
                documents@,
                removed_of(history@, current@),
                current@,
            ),
    {
        let diff = match LocaleDataDiff::diff(history, &current) {
            None => {
                return CycleStep::Idle;
            },
            Some(d) => d,
        };
        let LocaleDataDiff { changed_or_added, removed } = diff;
        if changed_or_added.is_empty() || documents.len() == 0 {
            return prune_documents(documents, &removed, current);
        }
        let batch = TranslationBatch::new(changed_or_added);
        CycleStep::Translate(
            UpdateCycle { removed, batch, pending: documents, done: Vec::new(), snapshot: current },
        )
    }

    /// Hands the provider's answer for the target language to the cycle: `None` where the
    /// provider failed. The target document is then brought up to date; after the last one
    /// the cycle commits.
    pub fn resume(self, reply: Option<Vec<String>>) -> (r: CycleStep)
        requires
            self.wf(),
        ensures
            reply is None ==> (r matches CycleStep::Fail(e) && e matches SyncError::ProviderFailed {
                language,
            } && language@ == self.pending_view()[0].language.code@),
            reply matches Some(t) ==> (t@.len() != self.batch_view().len() ==> (r matches CycleStep::Fail(
                e,
            ) && e matches SyncError::CountMismatch { language, expected, received }
                && language@ == self.pending_view()[0].language.code@ && expected
                == self.batch_view().len() && received == t@.len())),
            reply matches Some(t) ==> (t@.len() == self.batch_view().len() && !all_present(
                self.pending_view()[0].data@,
                keys_of(self.removed_view()),
            ) ==> (r matches CycleStep::Fail(e) && reports_missing(
                e,
                self.pending_view()[0],
                self.removed_view(),
            ))),
            reply matches Some(t) ==> (t@.len() == self.batch_view().len() && all_present(
                self.pending_view()[0].data@,
                keys_of(self.removed_view()),
            ) && self.pending_view().len() == 1 ==> (r matches CycleStep::Commit(o)
                && o.snapshot.wf() && o.snapshot@ == self.snapshot_view() && docs_wf(
                o.documents@,
            ) && appended(
                self.done_view(),
                self.pending_view()[0],
                synced(
                    self.pending_view()[0].data@,
                    self.removed_view(),
                    zipped(self.batch_view(), string_views(t@)),
                ),
                o.documents@,
            ))),
            reply matches Some(t) ==> (t@.len() == self.batch_view().len() && all_present(
                self.pending_view()[0].data@,
                keys_of(self.removed_view()),
            ) && self.pending_view().len() > 1 ==> (r matches CycleStep::Translate(c) && c.wf()
                && c.removed_view() == self.removed_view() && c.batch_view() == self.batch_view()
                && c.snapshot_view() == self.snapshot_view() && c.pending_view()
                == self.pending_view().drop_first() && appended(
                self.done_view(),
                self.pending_view()[0],
                synced(
                    self.pending_view()[0].data@,
                    self.removed_view(),
                    zipped(self.batch_view(), string_views(t@)),
                ),
                c.done_view(),
            ))),
    {
        let UpdateCycle { removed, batch, mut pending, mut done, snapshot } = self;
        let ghost first = pending@[0];
        let ghost done0 = done@;
        let mut doc = pending.remove(0);
        let translated = match reply {
            None => {
                return CycleStep::Fail(
                    SyncError::ProviderFailed { language: doc.language.code.clone() },
                );
            },
            Some(t) => match batch.apply(t, &doc.language) {
                Ok(d) => d,
                Err(e) => {
                    return CycleStep::Fail(e);
                },
            },
        };
        match doc.update_translations(&removed, translated) {
            Ok(()) => {},
            Err(e) => {
                return CycleStep::Fail(e);
            },
        }
        done.push(doc);
        proof {
            assert(done@.drop_last() =~= done0);
            assert(docs_wf(pending@)) by {
                assert forall|j: int| 0 <= j < pending@.len() implies (#[trigger] pending@[j]).data.wf() by {
                    assert(pending@[j] == self.pending_view()[j + 1]);
                }
            }
        }
        if pending.len() == 0 {
            CycleStep::Commit(SyncOutcome { documents: done, snapshot })
        } else {
            CycleStep::Translate(UpdateCycle { removed, batch, pending, done, snapshot })
        }
    }
}

/// Removes the keys of `removed` from every document, in order, stopping at the first
/// document that lacks one of them.
#[verifier::loop_isolation(false)]
fn prune_documents(documents: Vec<LocaleDocument>, removed: &LocaleData, snapshot: LocaleData) -> (r:
    CycleStep)
    requires
        removed.wf(),
        snapshot.wf(),
        docs_wf(documents@),
    ensures
        pruned_outcome(r, documents@, removed@, snapshot@),
{
    let ghost docs = documents@;
    let n = documents.len();
    let mut rest = documents;
    let mut out: Vec<LocaleDocument> = Vec::new();
    while rest.len() > 0
        invariant
            removed.wf(),
            snapshot.wf(),
            docs_wf(docs),
            n == docs.len(),
            out@.len() + rest@.len() == n,
            rest@ == docs.skip(out@.len() as int),
            forall|j: int|
                0 <= j < out@.len() ==> all_present((#[trigger] docs[j]).data@, keys_of(removed@)),
            forall|j: int|
                0 <= j < out@.len() ==> (#[trigger] out@[j]).language == docs[j].language
                    && out@[j].path == docs[j].path && out@[j].data@ == remove_all(
                    docs[j].data@,
                    keys_of(removed@),
                ),
        decreases rest@.len(),
    {
        let ghost i = out@.len() as int;
        let mut doc = rest.remove(0);
        assert(doc == docs[i]);
        match doc.remove_dead_entries(removed) {
            Ok(()) => {},
            Err(e) => {
                assert(reports_missing(e, docs[i], removed@));
                assert(!all_present(docs[i].data@, keys_of(removed@)));
                assert(0 <= i < docs.len() && !all_present(docs[i].data@, keys_of(removed@)) && (
                forall|q: int| 0 <= q < i ==> all_present((#[trigger] docs[q]).data@, keys_of(removed@)))
                    && reports_missing(e, docs[i], removed@));
                return CycleStep::Fail(e);
            },
        }
        out.push(doc);
        assert(rest@ =~= docs.skip(out@.len() as int));
    }
    CycleStep::Commit(SyncOutcome { documents: out, snapshot })
}

/// The view of each answer: `None` where the provider failed.
pub open spec fn reply_views(replies: Seq<Option<Vec<String>>>) -> Seq<Option<Seq<Seq<char>>>> {
    replies.map_values(
        |o: Option<Vec<String>>|
            match o {
                Some(v) => Some(string_views(v@)),
                None => None,
            },
    )
}

/// The answer for `doc` lets it be updated: the provider answered, with one text per entry of
/// `batch`, and `doc` holds every key of `removed`.
pub open spec fn reply_ok(
    doc: LocaleDocument,
    reply: Option<Seq<Seq<char>>>,
    removed: Entries,
    batch: Entries,
) -> bool {
    &&& reply is Some
    &&& reply.unwrap().len() == batch.len()
    &&& all_present(doc.data@, keys_of(removed))
}

/// `e` is the failure that the answer `reply` for `doc` causes.
pub open spec fn fails_with(
    e: SyncError,
    doc: LocaleDocument,
    reply: Option<Seq<Seq<char>>>,
    removed: Entries,
    batch: Entries,
) -> bool {
    match reply {
        None => e matches SyncError::ProviderFailed { language } && language@
            == doc.language.code@,
        Some(t) => if t.len() != batch.len() {
            e matches SyncError::CountMismatch { language, expected, received } && language@
                == doc.language.code@ && expected == batch.len() && received == t.len()
        } else {
            reports_missing(e, doc, removed)
        },
    }
}

/// The result of translating every document of `docs` with the answers `replies`: a commit of
/// every document brought up to date and of `snapshot`, where every answer serves; else the
/// failure of the first document whose answer does not.
pub open spec fn translated_outcome(
    r: CycleStep,
    docs: Seq<LocaleDocument>,
    replies: Seq<Option<Seq<Seq<char>>>>,
    removed: Entries,
    batch: Entries,
    snapshot: Entries,
) -> bool {
    match r {
        CycleStep::Commit(o) => {
            &&& forall|j: int|
                0 <= j < docs.len() ==> reply_ok(#[trigger] docs[j], replies[j], removed, batch)
            &&& o.snapshot.wf()
            &&& o.snapshot@ == snapshot
            &&& o.documents@.len() == docs.len()
            &&& forall|j: int|
                0 <= j < docs.len() ==> (#[trigger] o.documents@[j]).language == docs[j].language
                    && o.documents@[j].path == docs[j].path && o.documents@[j].data@ == synced(
                    docs[j].data@,
                    removed,
                    zipped(batch, replies[j].unwrap()),
                )
        },
        CycleStep::Fail(e) => exists|j: int|
            0 <= j < docs.len() && !reply_ok(docs[j], replies[j], removed, batch) && (forall|q: int|
                0 <= q < j ==> reply_ok(#[trigger] docs[q], replies[q], removed, batch))
                && fails_with(e, docs[j], replies[j], removed, batch),
        _ => false,
    }
}

/// The documents done so far are the first ones of `docs`, each brought up to date with its
/// answer, and every one of those answers served.
pub open spec fn done_matches(
    done: Seq<LocaleDocument>,
    docs: Seq<LocaleDocument>,
    replies: Seq<Option<Seq<Seq<char>>>>,
    removed: Entries,
    batch: Entries,
) -> bool {
    &&& done.len() <= docs.len()
    &&& forall|j: int|
        0 <= j < done.len() ==> reply_ok(#[trigger] docs[j], replies[j], removed, batch)
    &&& forall|j: int|
        0 <= j < done.len() ==> (#[trigger] done[j]).language == docs[j].language && done[j].path
            == docs[j].path && done[j].data@ == synced(
            docs[j].data@,
            removed,
            zipped(batch, replies[j].unwrap()),
        )
}

/// Runs a whole update with the provider's answers given up front: `replies[i]` answers the
/// request for `documents[i]`, `None` where the provider failed. Nothing is committed unless
/// every document was brought up to date; a failure stops the run at the first document that
/// cannot be.
#[verifier::loop_isolation(false)]
pub fn run_update(
    history: &LocaleData,
    current: LocaleData,
    documents: Vec<LocaleDocument>,
    replies: Vec<Option<Vec<String>>>,
) -> (r: CycleStep)
    requires
        history.wf(),
        current.wf(),
        docs_wf(documents@),
        replies@.len() == documents@.len(),
    ensures
        r is Idle <==> diff_is_empty(history@, current@),
        !diff_is_empty(history@, current@) && (changed_or_added_of(history@, current@).len() == 0
            || documents@.len() == 0) ==> pruned_outcome(
            r,
            documents@,
            removed_of(history@, current@),
            current@,
        ),
        !diff_is_empty(history@, current@) && changed_or_added_of(history@, current@).len() > 0
            && documents@.len() > 0 ==> translated_outcome(
            r,
            documents@,
            reply_views(replies@),
            removed_of(history@, current@),
            changed_or_added_of(history@, current@),
            current@,
        ),
{
    let ghost docs = documents@;
    let ghost answers = reply_views(replies@);
    let ghost removed = removed_of(history@, current@);
    let ghost batch = changed_or_added_of(history@, current@);
    let ghost snapshot = current@;
    let ghost translating = !diff_is_empty(history@, current@) && batch.len() > 0 && docs.len()
        > 0;
    let mut step = UpdateCycle::start(history, current, documents);
    let asks = match &step {
        CycleStep::Translate(_) => true,
        _ => false,
    };
    if !asks {
        return step;
    }
    assert(translating);
    let mut rest = replies;
    loop
        invariant
            answers == reply_views(replies@),
            docs.len() == replies@.len(),
            batch.len() > 0,
            match step {
                CycleStep::Translate(c) => {
                    &&& c.wf()
                    &&& c.removed_view() == removed
                    &&& c.batch_view() == batch
                    &&& c.snapshot_view() == snapshot
                    &&& c.pending_view() == docs.skip(c.done_view().len() as int)
                    &&& done_matches(c.done_view(), docs, answers, removed, batch)
                    &&& rest@ == replies@.skip(c.done_view().len() as int)
                },
                _ => translated_outcome(step, docs, answers, removed, batch, snapshot),
            },
        decreases rest@.len(),
    {
        match step {
            CycleStep::Translate(c) => {
                let ghost i = c.done_view().len() as int;
                let ghost doc = docs[i];
                assert(c.pending_view()[0] == doc);
                let reply = rest.remove(0);
                assert(reply == replies@[i]);
                assert(answers[i] == match reply {
                    Some(v) => Some(string_views(v@)),
                    None => None,
                });
                step = c.resume(reply);
                proof {
                    assert(rest@ =~= replies@.skip(i + 1));
                    match &step {
                        CycleStep::Translate(c2) => {
                            assert(c2.pending_view() =~= docs.skip(i + 1));
                            assert(reply_ok(doc, answers[i], removed, batch));
                            assert(c2.done_view().len() == i + 1);
                            assert forall|j: int|
                                0 <= j < c2.done_view().len() implies reply_ok(
                                #[trigger] docs[j],
                                answers[j],
                                removed,
                                batch,
                            ) by {
                                if j < i {
                                    assert(c2.done_view()[j] == c.done_view()[j]);
                                }
                            }
                            assert forall|j: int| 0 <= j < c2.done_view().len() implies (
                            #[trigger] c2.done_view()[j]).language == docs[j].language
                                && c2.done_view()[j].path == docs[j].path
                                && c2.done_view()[j].data@ == synced(
                                docs[j].data@,
                                removed,
                                zipped(batch, answers[j].unwrap()),
                            ) by {
                                if j < i {
                                    assert(c2.done_view().drop_last() == c.done_view());
                                    assert(c2.done_view()[j] == c2.done_view().drop_last()[j]);
                                }
                            }
                        },
                        CycleStep::Commit(o) => {
                            assert(reply_ok(doc, answers[i], removed, batch));
                            assert(docs.len() == i + 1) by {
                                assert(c.pending_view().len() == 1);
                            }
                            assert forall|j: int| 0 <= j < docs.len() implies reply_ok(
                                #[trigger] docs[j],
                                answers[j],
                                removed,
                                batch,
                            ) by {}
                            assert forall|j: int| 0 <= j < docs.len() implies (
                            #[trigger] o.documents@[j]).language == docs[j].language
                                && o.documents@[j].path == docs[j].path
                                && o.documents@[j].data@ == synced(
                                docs[j].data@,
                                removed,
                                zipped(batch, answers[j].unwrap()),
                            ) by {
                                if j < i {
                                    assert(o.documents@[j] == o.documents@.drop_last()[j]);
                                }
                            }
                        },
                        CycleStep::Fail(e) => {
                            assert(!reply_ok(doc, answers[i], removed, batch));
                            assert(fails_with(*e, doc, answers[i], removed, batch));
                            assert(0 <= i < docs.len() && !reply_ok(
                                docs[i],
                                answers[i],
                                removed,
                                batch,
                            ) && (forall|q: int|
                                0 <= q < i ==> reply_ok(#[trigger] docs[q], answers[q], removed, batch))
                                && fails_with(*e, docs[i], answers[i], removed, batch));
                        },
                        _ => {},
                    }
                }
            },
            _ => {
                return step;
            },
        }
    }
}

/// The answer for a full translation into `language` serves: the manifest gives the language a
/// path, and the provider answered with one text per entry of `batch`.
pub open spec fn full_reply_ok(
    manifest: LocaleManifest,
    language: Language,
    reply: Option<Seq<Seq<char>>>,
    batch: Entries,
) -> bool {
    &&& map_of(manifest.locale_paths@).contains_key(language.code@)
    &&& reply is Some
    &&& reply.unwrap().len() == batch.len()
}

/// `e` is the failure of a full translation into `language` with the answer `reply`: a missing
/// path first, then a failed provider, then an answer of another length.
pub open spec fn full_fails_with(
    e: SyncError,
    manifest: LocaleManifest,
    language: Language,
    reply: Option<Seq<Seq<char>>>,
    batch: Entries,
) -> bool {
    if !map_of(manifest.locale_paths@).contains_key(language.code@) {
        e matches SyncError::MissingLocalePath { language: c } && c@ == language.code@
    } else {
        match reply {
            None => e matches SyncError::ProviderFailed { language: c } && c@ == language.code@,
            Some(t) => e matches SyncError::CountMismatch { language: c, expected, received } && c@
                == language.code@ && expected == batch.len() && received == t.len(),
        }
    }
}

/// `d` is the new document of `language`: at the path that the manifest gives it, holding the
/// keys of `batch` paired with the texts of `reply`.
pub open spec fn full_document(
    d: LocaleDocument,
    manifest: LocaleManifest,
    language: Language,
    reply: Option<Seq<Seq<char>>>,
    batch: Entries,
) -> bool {
    &&& d.language == language
    &&& d.data.wf()
    &&& d.path@ == map_of(manifest.locale_paths@)[language.code@]
    &&& d.data@ == zipped(batch, reply.unwrap())
}

/// Translates the whole source into every language of `languages`, with the provider's answers
/// given up front: `replies[i]` answers for `languages[i]`, `None` where the provider failed.
/// Where every answer serves, the new documents are handed out to be written first, and the
/// source as the snapshot to be written after them; otherwise the first failure is reported
/// and nothing is handed out.
pub fn full_translate_all(
    manifest: &LocaleManifest,
    source: TranslationBatch,
    languages: &Vec<Language>,
    replies: Vec<Option<Vec<String>>>,
) -> (r: Result<SyncOutcome, SyncError>)
    requires
        manifest.wf(),
        source.wf(),
        replies@.len() == languages@.len(),
    ensures
        r is Ok <==> forall|j: int|
            0 <= j < languages@.len() ==> full_reply_ok(
                *manifest,
                #[trigger] languages@[j],
                reply_views(replies@)[j],
                source.source_view(),
            ),
        r matches Ok(o) ==> {
            &&& o.snapshot.wf()
            &&& o.snapshot@ == source.source_view()
            &&& o.documents@.len() == languages@.len()
            &&& forall|j: int|
                0 <= j < languages@.len() ==> full_document(
                    #[trigger] o.documents@[j],
                    *manifest,
                    languages@[j],
                    reply_views(replies@)[j],
                    source.source_view(),
                )
        },
        r matches Err(e) ==> exists|j: int|
            0 <= j < languages@.len() && !full_reply_ok(
                *manifest,
                languages@[j],
                reply_views(replies@)[j],
                source.source_view(),
            ) && (forall|q: int|
                0 <= q < j ==> full_reply_ok(
                    *manifest,
                    #[trigger] languages@[q],
                    reply_views(replies@)[q],
                    source.source_view(),
                )) && full_fails_with(
                e,
                *manifest,
                languages@[j],
                reply_views(replies@)[j],
                source.source_view(),
            ),
{
    let ghost answers = reply_views(replies@);
    let ghost batch = source.source_view();
    let n = languages.len();
    let mut rest = replies;
    let mut documents: Vec<LocaleDocument> = Vec::new();
    let mut i: usize = 0;
    while i < n
        invariant
            manifest.wf(),
            source.wf(),
            batch == source.source_view(),
            n == languages@.len(),
            n == replies@.len(),
            answers == reply_views(replies@),
            i <= n,
            rest@ == replies@.skip(i as int),
            documents@.len() == i,
            forall|j: int|
                0 <= j < i ==> full_reply_ok(*manifest, #[trigger] languages@[j], answers[j], batch),
            forall|j: int|
                0 <= j < i ==> full_document(
                    #[trigger] documents@[j],
                    *manifest,
                    languages@[j],
                    answers[j],
                    batch,
                ),
        decreases n - i,
    {
        let language = &languages[i];
        let reply = rest.remove(0);
        assert(reply == replies@[i as int]);
        assert(rest@ =~= replies@.skip(i + 1));
        match manifest.locale_path(&language.code) {
            Ok(_) => {},
            Err(e) => {
                assert(full_fails_with(e, *manifest, languages@[i as int], answers[i as int], batch));
                return Err(e);
            },
        }
        assert(answers[i as int] == match reply {
            Some(v) => Some(string_views(v@)),
            None => None,
        });
        let translated = match reply {
            Some(t) => t,
            None => {
                let e = SyncError::ProviderFailed { language: language.code.clone() };
                assert(full_fails_with(e, *manifest, languages@[i as int], answers[i as int], batch));
                return Err(e);
            },
        };
        let ghost before = documents@;
        match LocaleDocument::translate_full(manifest, &source, language.clone(), translated) {
            Ok(d) => {
                documents.push(d);
                assert forall|j: int| 0 <= j < i implies documents@[j] == before[j] by {}
            },
            Err(e) => {
                assert(full_fails_with(e, *manifest, languages@[i as int], answers[i as int], batch));
                return Err(e);
            },
        }
        i = i + 1;
    }
    Ok(SyncOutcome { documents, snapshot: source.into_source() })
}

/// A provider failure advances nothing, and a retry reproduces the full end state: a run in
/// which the answer for some document is a failure ends in a failure, which hands out no
/// snapshot; a run of the same update in which every answer serves commits every document
/// brought up to date, and the source as the snapshot.
pub proof fn lemma_failure_then_retry(
    failed: CycleStep,
    retried: CycleStep,
    docs: Seq<LocaleDocument>,
    failing_replies: Seq<Option<Seq<Seq<char>>>>,
    replies: Seq<Option<Seq<Seq<char>>>>,
    removed: Entries,
    batch: Entries,
    snapshot: Entries,
    k: int,
)
    requires
        0 <= k < docs.len(),
        failing_replies[k] is None,
        translated_outcome(failed, docs, failing_replies, removed, batch, snapshot),
        translated_outcome(retried, docs, replies, removed, batch, snapshot),
        forall|j: int| 0 <= j < docs.len() ==> reply_ok(#[trigger] docs[j], replies[j], removed, batch),
    ensures
        failed is Fail,
        retried matches CycleStep::Commit(o) && o.snapshot@ == snapshot && o.documents@.len()
            == docs.len() && forall|j: int|
            0 <= j < docs.len() ==> (#[trigger] o.documents@[j]).data@ == synced(
                docs[j].data@,
                removed,
                zipped(batch, replies[j].unwrap()),
            ),
{
    assert(!reply_ok(docs[k], failing_replies[k], removed, batch));
    if retried is Fail {
        let e = retried->Fail_0;
        let j = choose|j: int|
            0 <= j < docs.len() && !reply_ok(docs[j], replies[j], removed, batch) && (forall|q: int|
                0 <= q < j ==> reply_ok(#[trigger] docs[q], replies[q], removed, batch))
                && fails_with(e, docs[j], replies[j], removed, batch);
        assert(reply_ok(docs[j], replies[j], removed, batch));
    }
}

/// Plans a change of the enabled languages to `selected`. While the source `current` differs
/// from the snapshot `history`, the change is refused, so that a new language cannot miss
/// content that the others are about to receive; otherwise the languages added and removed
/// are returned.
pub fn plan_language_change(
    history: &LocaleData,
    current: &LocaleData,
    enabled: &Vec<Language>,
    selected: &Vec<Language>,
) -> (r: Result<Option<LanguageDiff>, SyncError>)
    requires
        history.wf(),
        current.wf(),
    ensures
        r is Err <==> !diff_is_empty(history@, current@),
        r matches Err(e) ==> e is PendingChanges,
        r matches Ok(d) ==> language_diff_matches(d, enabled@, selected@),
{
    match LocaleDataDiff::diff(history, current) {
        Some(_) => Err(SyncError::PendingChanges),
        None => Ok(LanguageDiff::diff(enabled, selected)),
    }
}

/// What an update does to a document, read as maps: the keys of `removed` are gone, the
/// entries of `changes` are set, and every other key keeps the value it had.
pub proof fn lemma_synced_map(doc: Entries, removed: Entries, changes: Entries)
    requires
        keys_distinct(doc),
        keys_distinct(changes),
    ensures
        keys_distinct(synced(doc, removed, changes)),
        map_of(synced(doc, removed, changes)) == map_of(doc).remove_keys(
            keys_of(removed).to_set(),
        ).union_prefer_right(map_of(changes)),
{
    lemma_remove_all(doc, keys_of(removed));
    lemma_merge_all(remove_all(doc, keys_of(removed)), changes);
}

/// Re-running an update on an unchanged source: a run that commits keeps as its snapshot the
/// source it read, so a second run from that snapshot to the same source finds no difference,
/// and is idle: it neither translates nor writes.
pub proof fn lemma_resync_is_idle(
    first: CycleStep,
    docs: Seq<LocaleDocument>,
    replies: Seq<Option<Seq<Seq<char>>>>,
    removed: Entries,
    batch: Entries,
    current: Entries,
)
    requires
        first is Commit,
        translated_outcome(first, docs, replies, removed, batch, current) || pruned_outcome(
            first,
            docs,
            removed,
            current,
        ),
    ensures
        first->Commit_0.snapshot@ == current,
        diff_is_empty(first->Commit_0.snapshot@, current),
{
    lemma_diff_self_empty(current);
}

} // verus!
