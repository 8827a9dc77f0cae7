use vstd::prelude::*;

use crate::diff::LocaleData;
use crate::document::{LocaleDocument, SyncError};
use crate::language::Language;
use crate::manifest::LocaleManifest;
use crate::strmap::{collected, map_of, Entries, StrMap};

verus! {

/// The members of the JSON object that `text` holds, as serde_json reads them: each key, and
/// its text where the value is a JSON string (`None` for any other value); `None` where
/// `text` is not a JSON object.
pub uninterp spec fn json_object_members(text: Seq<char>) -> Option<
    Seq<(Seq<char>, Option<Seq<char>>)>,
>;

/// The pretty-printed JSON object that serde_json writes for these string entries.
pub uninterp spec fn json_text_of(entries: Seq<(Seq<char>, Seq<char>)>) -> Seq<char>;

/// The view of each member.
pub open spec fn member_views(m: Seq<(String, Option<String>)>) -> Seq<
    (Seq<char>, Option<Seq<char>>),
> {
    m.map_values(
        |p: (String, Option<String>)|
            (
                p.0@,
                match p.1 {
                    Some(s) => Some(s@),
                    None => None,
                },
            ),
    )
}

/// Relies on `serde_json::from_str` into a `serde_json::Map<String, Value>`: the text is read
/// as one JSON object, whose map holds each key once; string values are handed out as text.
#[verifier::external_body]
fn parse_json_object(text: &str) -> (r: Option<Vec<(String, Option<String>)>>)
    ensures
        r is None <==> json_object_members(text@) is None,
        r matches Some(m) ==> json_object_members(text@) == Some(member_views(m@)),
        r matches Some(m) ==> forall|i: int, j: int|
            0 <= i < m@.len() && 0 <= j < m@.len() && i != j ==> m@[i].0@ != m@[j].0@,
{
    let map = serde_json::from_str::<serde_json::Map<String, serde_json::Value>>(text).ok()?;
    Some(
        map.into_iter().map(|(k, v)| match v {
            serde_json::Value::String(s) => (k, Some(s)),
            serde_json::Value::Null => (k, None),
            serde_json::Value::Bool(_) => (k, None),
            serde_json::Value::Number(_) => (k, None),
            serde_json::Value::Array(_) => (k, None),
            serde_json::Value::Object(_) => (k, None),
        }).collect(),
    )
}

/// Relies on `serde_json::to_string_pretty` on a `serde_json::Map` of string values, which
/// fails only for a failing `Serialize` impl or a map with keys that are not strings: neither
/// occurs for such a map, so the error arm is never taken.
#[verifier::external_body]
fn print_json_object(entries: &Vec<(String, String)>) -> (r: String)
    ensures
        r@ == json_text_of(entries@.map_values(|p: (String, String)| (p.0@, p.1@))),
{
    let map: serde_json::Map<String, serde_json::Value> = entries.iter().map(
        |(k, v)| (k.clone(), serde_json::Value::String(v.clone())),
    ).collect();
    match serde_json::to_string_pretty(&map) {
        Ok(text) => text,
        Err(_) => String::new(),
    }
}

/// Why a document could not be read.
#[derive(Debug)]
pub enum LoadError {
    /// The text is not a JSON object.
    Malformed,
    /// The value under this key is not a string.
    NonString { key: String },
}

/// Every member holds a string.
pub open spec fn all_strings(m: Seq<(Seq<char>, Option<Seq<char>>)>) -> bool {
    forall|j: int| 0 <= j < m.len() ==> (#[trigger] m[j]).1 is Some
}

/// The members as entries, each with its text.
pub open spec fn member_entries(m: Seq<(Seq<char>, Option<Seq<char>>)>) -> Entries {
    m.map_values(|p: (Seq<char>, Option<Seq<char>>)| (p.0, p.1.unwrap()))
}

/// What reading members gives: the first key whose value is not a string is refused, else the
/// entries, set in turn.
pub open spec fn members_result_matches(
    m: Seq<(Seq<char>, Option<Seq<char>>)>,
    r: Result<LocaleData, LoadError>,
) -> bool {
    match r {
        Ok(d) => all_strings(m) && d.wf() && d@ == collected(member_entries(m)),
        Err(LoadError::NonString { key }) => exists|j: int|
            0 <= j < m.len() && m[j].0 == key@ && m[j].1 is None && all_strings(m.take(j)),
        Err(LoadError::Malformed) => false,
    }
}

/// What reading `text` gives: a refusal where it is not a JSON object, else what its members
/// give.
pub open spec fn parse_result_matches(text: Seq<char>, r: Result<LocaleData, LoadError>) -> bool {
    match json_object_members(text) {
        None => r matches Err(LoadError::Malformed),
        Some(m) => members_result_matches(m, r),
    }
}

/// `text` holds a document: a JSON object whose values are all strings.
pub open spec fn holds_document(text: Seq<char>) -> bool {
    json_object_members(text) matches Some(m) && all_strings(m)
}

/// The view of a file's contents, `None` where there is no file.
pub open spec fn contents_view(contents: Option<&str>) -> Option<Seq<char>> {
    match contents {
        Some(t) => Some(t@),
        None => None,
    }
}

/// `r` is what loading the file at `path` gives from its `contents`: nothing where there is no
/// file, else the document that the text reads as, stored at `path`, or the refusal that
/// reading the text gives, naming `path`.
pub open spec fn loaded(
    r: Result<Option<LocaleDocument>, SyncError>,
    path: Seq<char>,
    contents: Option<Seq<char>>,
) -> bool {
    match contents {
        None => r matches Ok(None),
        Some(t) => match r {
            Ok(Some(d)) => d.path@ == path && d.data.wf() && parse_result_matches(
                t,
                Ok::<LocaleData, LoadError>(d.data),
            ),
            Err(SyncError::Unreadable { path: p, error }) => p@ == path && parse_result_matches(
                t,
                Err::<LocaleData, LoadError>(error),
            ),
            _ => false,
        },
    }
}

/// A text that holds a document is read without a refusal.
pub proof fn lemma_document_reads(text: Seq<char>, error: LoadError)
    requires
        holds_document(text),
    ensures
        !parse_result_matches(text, Err::<LocaleData, LoadError>(error)),
{
    let m = json_object_members(text)->Some_0;
    if parse_result_matches(text, Err::<LocaleData, LoadError>(error)) {
        let j = choose|j: int|
            0 <= j < m.len() && m[j].0 == error->NonString_key@ && m[j].1 is None && all_strings(
                m.take(j),
            );
        assert(m[j].1 is Some);
    }
}

/// The document that the members of a JSON object give: refused at the first member whose
/// value is not a string.
pub fn from_members(members: Vec<(String, Option<String>)>) -> (r: Result<LocaleData, LoadError>)
    ensures
        members_result_matches(member_views(members@), r),
{
    let ghost m = member_views(members@);
    let n = members.len();
    let mut pairs: Vec<(String, String)> = Vec::new();
    let mut i: usize = 0;
    while i < n
        invariant
            n == members@.len(),
            m == member_views(members@),
            i <= n,
            all_strings(m.take(i as int)),
            pairs@.len() == i,
            pairs@.map_values(|p: (String, String)| (p.0@, p.1@)) =~= member_entries(
                m.take(i as int),
            ),
        decreases n - i,
    {
        match &members[i].1 {
            None => {
                assert(m[i as int].0 == members@[i as int].0@ && m[i as int].1 is None);
                return Err(LoadError::NonString { key: members[i].0.clone() });
            },
            Some(v) => {
                let ghost before = pairs@;
                pairs.push((members[i].0.clone(), v.clone()));
                proof {
                    let f = |p: (String, String)| (p.0@, p.1@);
                    assert(pairs@.map_values(f) =~= before.map_values(f).push(
                        f(pairs@[i as int]),
                    ));
                    assert(m.take(i + 1) =~= m.take(i as int).push(m[i as int]));
                }
            },
        }
        i = i + 1;
    }
    assert(m.take(n as int) =~= m);
    Ok(StrMap::from_pairs(pairs))
}

/// Reads a document from JSON text: a JSON object whose values are all strings.
pub fn parse_locale_data(text: &str) -> (r: Result<LocaleData, LoadError>)
    ensures
        parse_result_matches(text@, r),
{
    match parse_json_object(text) {
        None => Err(LoadError::Malformed),
        Some(members) => from_members(members),
    }
}

/// Writes a document as pretty-printed JSON text.
pub fn format_locale_data(data: &LocaleData) -> (r: String)
    ensures
        r@ == json_text_of(data@),
{
    print_json_object(data.pairs())
}

/// A document of `language` stored at `path`, from what its file holds: `None` where there
/// is no file, and a refusal naming the file where the text is not a document.
pub fn document_from_contents(language: Language, path: String, contents: Option<&str>) -> (r:
    Result<Option<LocaleDocument>, SyncError>)
    ensures
        loaded(r, path@, contents_view(contents)),
        r matches Ok(Some(d)) ==> d.language == language && d.path == path,
        contents matches Some(t) && holds_document(t@) ==> r matches Ok(Some(_)),
{
    match contents {
        None => Ok(None),
        Some(text) => match parse_locale_data(text) {
            Ok(data) => Ok(Some(LocaleDocument { data, language, path })),
            Err(error) => {
                proof {
                    if holds_document(text@) {
                        lemma_document_reads(text@, error);
                    }
                }
                Err(SyncError::Unreadable { path, error })
            },
        },
    }
}

/// `d` is the document of `language`: at the path that the manifest gives it, holding what its
/// file's `contents` read as.
pub open spec fn document_read(
    d: LocaleDocument,
    manifest: LocaleManifest,
    language: Language,
    contents: Option<String>,
) -> bool {
    &&& d.language == language
    &&& d.data.wf()
    &&& map_of(manifest.locale_paths@).contains_key(language.code@)
    &&& d.path@ == map_of(manifest.locale_paths@)[language.code@]
    &&& contents matches Some(t) && parse_result_matches(t@, Ok::<LocaleData, LoadError>(d.data))
}

/// The manifest gives `language` a path, and its file's `contents` hold a document.
pub open spec fn readable(manifest: LocaleManifest, language: Language, contents: Option<String>) -> bool {
    &&& map_of(manifest.locale_paths@).contains_key(language.code@)
    &&& contents matches Some(t) && holds_document(t@)
}

/// The derived documents of every enabled language.
pub struct LocaleDocuments {
    pub documents: Vec<LocaleDocument>,
}

impl LocaleDocuments {
    /// The document of each language of the manifest, in order, from what its file holds
    /// (`contents[i]` for `manifest.languages[i]`). Once set up, every enabled language has a
    /// document: a missing file is refused, as is a language without a path.
    pub fn get_existing(manifest: &LocaleManifest, contents: Vec<Option<String>>) -> (r: Result<
        LocaleDocuments,
        SyncError,
    >)
        requires
            manifest.wf(),
            contents@.len() == manifest.languages@.len(),
        ensures
            r matches Ok(d) ==> d.documents@.len() == manifest.languages@.len() && forall|i: int|
                0 <= i < d.documents@.len() ==> document_read(
                    #[trigger] d.documents@[i],
                    *manifest,
                    manifest.languages@[i],
                    contents@[i],
                ),
            (exists|i: int| 0 <= i < contents@.len() && (#[trigger] contents@[i]) is None) ==> r is Err,
            (forall|i: int|
                0 <= i < contents@.len() ==> readable(*manifest, #[trigger] manifest.languages@[i], contents@[i]))
                ==> r is Ok,
            r matches Err(e) ==> (e is MissingLocalePath || e is MissingDocument || e is Unreadable),
    {
        let n = manifest.languages.len();
        let mut documents: Vec<LocaleDocument> = Vec::new();
        let mut i: usize = 0;
        while i < n
            invariant
                manifest.wf(),
                n == manifest.languages@.len(),
                n == contents@.len(),
                i <= n,
                documents@.len() == i,
                forall|j: int|
                    0 <= j < i ==> document_read(
                        #[trigger] documents@[j],
                        *manifest,
                        manifest.languages@[j],
                        contents@[j],
                    ),
            decreases n - i,
        {
            let language = manifest.languages[i].clone();
            let text: Option<&str> = match &contents[i] {
                Some(t) => Some(t.as_str()),
                None => None,
            };
            match LocaleDocument::from_language(manifest, language, text) {
                Ok(Some(d)) => documents.push(d),
                Ok(None) => {
                    return Err(
                        SyncError::MissingDocument { language: manifest.languages[i].code.clone() },
                    );
                },
                Err(e) => {
                    return Err(e);
                },
            }
            i = i + 1;
        }
        assert forall|j: int| 0 <= j < n implies (#[trigger] contents@[j]) is Some by {
            assert(document_read(documents@[j], *manifest, manifest.languages@[j], contents@[j]));
        }
        Ok(LocaleDocuments { documents })
    }
}

impl LocaleDocument {
    /// The snapshot of the source document, kept at `history_path`, from what that file holds.
    pub fn source_history(history_path: String, contents: Option<&str>) -> (r: Result<
        Option<LocaleDocument>,
        SyncError,
    >)
        ensures
            loaded(r, history_path@, contents_view(contents)),
            r matches Ok(Some(d)) ==> d.language.code@ == "EN"@ && d.path == history_path,
            contents matches Some(t) && holds_document(t@) ==> r matches Ok(Some(_)),
    {
        document_from_contents(Language::english(), history_path, contents)
    }

    /// The source document named by the manifest, from what its file holds.
    pub fn source(manifest: &LocaleManifest, contents: Option<&str>) -> (r: Result<
        Option<LocaleDocument>,
        SyncError,
    >)
        ensures
            loaded(r, manifest.source_locale_path@, contents_view(contents)),
            r matches Ok(Some(d)) ==> d.language.code@ == "EN"@ && d.path
                == manifest.source_locale_path,
            contents matches Some(t) && holds_document(t@) ==> r matches Ok(Some(_)),
    {
        document_from_contents(Language::english(), manifest.source_locale_path.clone(), contents)
    }

    /// The document of `language`, at the path that the manifest gives it, from what that
    /// file holds; refused where the manifest has no path for the language.
    pub fn from_language(manifest: &LocaleManifest, language: Language, contents: Option<&str>) -> (r:
        Result<Option<LocaleDocument>, SyncError>)
        requires
            manifest.wf(),
        ensures
            !map_of(manifest.locale_paths@).contains_key(language.code@) ==> (
            r matches Err(e) && e matches SyncError::MissingLocalePath { language: c } && c@
                == language.code@),
            map_of(manifest.locale_paths@).contains_key(language.code@) ==> loaded(
                r,
                map_of(manifest.locale_paths@)[language.code@],
                contents_view(contents),
            ),
            map_of(manifest.locale_paths@).contains_key(language.code@) && (contents matches Some(
                t,
            ) && holds_document(t@)) ==> r matches Ok(Some(_)),
            r matches Ok(Some(d)) ==> d.language == language,
    {
        let path = match manifest.locale_path(&language.code) {
            Ok(p) => p,
            Err(e) => {
                return Err(e);
            },
        };
        document_from_contents(language, path, contents)
    }
}

} // verus!
