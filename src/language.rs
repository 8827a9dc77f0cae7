use vstd::prelude::*;
use vstd::string::*;

use crate::strmap::{collected, Entries, StrMap};

verus! {

/// A language: a code such as `DE`, and a display name. Two languages are the same language
/// when their codes agree; the name is only shown to people.
#[derive(Debug)]
pub struct Language {
    pub code: String,
    pub name: String,
}

impl Clone for Language {
    fn clone(&self) -> (r: Language)
        ensures
            r == *self,
    {
        Language { code: self.code.clone(), name: self.name.clone() }
    }
}

impl PartialEq for Language {
    fn eq(&self, other: &Language) -> (r: bool)
        ensures
            r == (self.code@ == other.code@),
    {
        self.code == other.code
    }
}

impl vstd::std_specs::cmp::PartialEqSpecImpl for Language {
    open spec fn obeys_eq_spec() -> bool {
        true
    }

    open spec fn eq_spec(&self, other: &Language) -> bool {
        self.code@ == other.code@
    }
}

/// Some language of `langs` has the code `code`.
pub open spec fn code_in(langs: Seq<Language>, code: Seq<char>) -> bool {
    exists|j: int| 0 <= j < langs.len() && langs[j].code@ == code
}

/// A language whose code no language of `other` has.
pub open spec fn missing_from(other: Seq<Language>) -> spec_fn(Language) -> bool {
    |l: Language| !code_in(other, l.code@)
}

/// `d` is the language diff from `original` to `current`: `None` where no code was added or
/// removed, else the languages with a new code, and those whose code is gone, each in order.
pub open spec fn language_diff_matches(
    d: Option<LanguageDiff>,
    original: Seq<Language>,
    current: Seq<Language>,
) -> bool {
    match d {
        None => current.filter(missing_from(original)).len() == 0 && original.filter(
            missing_from(current),
        ).len() == 0,
        Some(d) => {
            &&& d.added@ == current.filter(missing_from(original))
            &&& d.removed@ == original.filter(missing_from(current))
            &&& (d.added@.len() > 0 || d.removed@.len() > 0)
        },
    }
}

/// The pairs of code and `second` value of each language, in order.
pub open spec fn code_pairs(langs: Seq<Language>, second: Seq<Seq<char>>) -> Entries {
    Seq::new(langs.len(), |i: int| (langs[i].code@, second[i]))
}

impl Language {
    pub fn new(code: &str, name: &str) -> (r: Language)
        ensures
            r.code@ == code@,
            r.name@ == name@,
    {
        Language { code: code.to_string(), name: name.to_string() }
    }

    /// The source language: code `EN`, named `English`.
    pub fn english() -> (r: Language)
        ensures
            r.code@ == "EN"@,
            r.name@ == "English"@,
    {
        Language::new("EN", "English")
    }

    /// The language as shown to people: its code, then its name in parentheses.
    pub fn to_string(&self) -> (r: String)
        ensures
            r@ == self.code@ + " ("@ + self.name@ + ")"@,
    {
        let mut s = self.code.clone();
        s.append(" (");
        s.append(self.name.as_str());
        s.append(")");
        s
    }
}

/// How the set of enabled languages changed.
#[derive(Debug)]
pub struct LanguageDiff {
    /// Languages selected now whose code was not enabled before.
    pub added: Vec<Language>,
    /// Languages enabled before whose code is no longer selected.
    pub removed: Vec<Language>,
}

/// The languages of `from` whose code `other` lacks, in the order of `from`.
pub(crate) fn languages_missing_from(from: &Vec<Language>, other: &Vec<Language>) -> (r: Vec<Language>)
    ensures
        r@ == from@.filter(missing_from(other@)),
{
    let ghost pred = missing_from(other@);
    let mut out: Vec<Language> = Vec::new();
    let n = from.len();
    let mut i: usize = 0;
    proof {
        reveal(Seq::filter);
        assert(from@.take(0) =~= Seq::<Language>::empty());
    }
    while i < n
        invariant
            n == from@.len(),
            i <= n,
            pred == missing_from(other@),
            out@ == from@.take(i as int).filter(pred),
        decreases n - i,
    {
        let m = other.len();
        let mut j: usize = 0;
        let mut found = false;
        while j < m
            invariant
                m == other@.len(),
                i < n,
                n == from@.len(),
                j <= m,
                found == (exists|q: int| 0 <= q < j && other@[q].code@ == from@[i as int].code@),
            decreases m - j,
        {
            if other[j].code == from[i].code {
                found = true;
            }
            j = j + 1;
        }
        proof {
            from@.lemma_take_succ_push(i as int);
            from@.take(i as int).lemma_filter_push(from@[i as int], pred);
        }
        if !found {
            out.push(from[i].clone());
        }
        i = i + 1;
    }
    proof {
        assert(from@.take(n as int) =~= from@);
    }
    out
}

impl LanguageDiff {
    /// The languages added and removed going from `original` to `current`, compared by code,
    /// or `None` where the two agree.
    pub fn diff(original: &Vec<Language>, current: &Vec<Language>) -> (r: Option<LanguageDiff>)
        ensures
            language_diff_matches(r, original@, current@),
    {
        let added = languages_missing_from(current, original);
        let removed = languages_missing_from(original, current);
        if added.len() == 0 && removed.len() == 0 {
            return None;
        }
        Some(LanguageDiff { added, removed })
    }
}

/// A setting of a project that can be changed after setup.
#[derive(Debug)]
pub enum ProjectSetting {
    EditSourcePath,
    EditLangugages,
}

impl ProjectSetting {
    /// The setting as shown in a list.
    pub fn to_string(&self) -> (r: String)
        ensures
            self is EditSourcePath ==> r@ == "source locale path"@,
            self is EditLangugages ==> r@ == "enabled languages"@,
    {
        match self {
            ProjectSetting::EditSourcePath => "source locale path".to_string(),
            ProjectSetting::EditLangugages => "enabled languages".to_string(),
        }
    }

    /// The setting at position `index` of the list that offers them.
    pub fn from_index(index: usize) -> (r: Option<ProjectSetting>)
        ensures
            index == 0 ==> r matches Some(ProjectSetting::EditSourcePath),
            index == 1 ==> r matches Some(ProjectSetting::EditLangugages),
            index > 1 ==> r is None,
    {
        if index == 0 {
            Some(ProjectSetting::EditSourcePath)
        } else if index == 1 {
            Some(ProjectSetting::EditLangugages)
        } else {
            None
        }
    }
}

/// The output path of each target language, keyed by its code; `output_paths[i]` belongs to
/// `target_languages[i]`, and of two languages with one code the later one's path stays.
pub fn select_output_locale_all(target_languages: &Vec<Language>, output_paths: Vec<String>) -> (r:
    StrMap)
    requires
        output_paths@.len() == target_languages@.len(),
    ensures
        r.wf(),
        r@ == collected(
            code_pairs(target_languages@, output_paths@.map_values(|s: String| s@)),
        ),
{
    let ghost paths = output_paths@.map_values(|s: String| s@);
    let mut pairs: Vec<(String, String)> = Vec::new();
    let n = target_languages.len();
    let mut i: usize = 0;
    while i < n
        invariant
            n == target_languages@.len(),
            n == output_paths@.len(),
            paths == output_paths@.map_values(|s: String| s@),
            i <= n,
            pairs@.len() == i,
            pairs@.map_values(|p: (String, String)| (p.0@, p.1@)) =~= code_pairs(
                target_languages@,
                paths,
            ).take(i as int),
        decreases n - i,
    {
        let ghost before = pairs@;
        pairs.push((target_languages[i].code.clone(), output_paths[i].clone()));
        proof {
            let f = |p: (String, String)| (p.0@, p.1@);
            assert(pairs@.map_values(f) =~= before.map_values(f).push(f(pairs@[i as int])));
            assert(code_pairs(target_languages@, paths).take(i + 1) =~= code_pairs(
                target_languages@,
                paths,
            ).take(i as int).push(code_pairs(target_languages@, paths)[i as int]));
        }
        i = i + 1;
    }
    proof {
        assert(code_pairs(target_languages@, paths).take(n as int) =~= code_pairs(
            target_languages@,
            paths,
        ));
    }
    StrMap::from_pairs(pairs)
}

/// The languages among the first `k` of `available` whose position is in `selected`, in order.
pub open spec fn picked(available: Seq<Language>, selected: Seq<usize>, k: int) -> Seq<Language>
    decreases k,
{
    if k <= 0 {
        Seq::empty()
    } else if selected.contains((k - 1) as usize) {
        picked(available, selected, k - 1).push(available[k - 1])
    } else {
        picked(available, selected, k - 1)
    }
}

/// The languages of `available` whose position is among `selected_indices`, in the order of
/// `available`.
pub fn selected_languages(available: &Vec<Language>, selected_indices: &Vec<usize>) -> (r: Vec<
    Language,
>)
    ensures
        r@ == picked(available@, selected_indices@, available@.len() as int),
{
    let n = available.len();
    let mut out: Vec<Language> = Vec::new();
    let mut i: usize = 0;
    while i < n
        invariant
            n == available@.len(),
            i <= n,
            out@ == picked(available@, selected_indices@, i as int),
        decreases n - i,
    {
        let m = selected_indices.len();
        let mut j: usize = 0;
        let mut found = false;
        while j < m
            invariant
                m == selected_indices@.len(),
                j <= m,
                found == (exists|q: int| 0 <= q < j && selected_indices@[q] == i),
            decreases m - j,
        {
            if selected_indices[j] == i {
                found = true;
            }
            j = j + 1;
        }
        proof {
            if found {
                let q = choose|q: int| 0 <= q < m && selected_indices@[q] == i;
                assert(selected_indices@.contains(i));
            } else {
                assert(!selected_indices@.contains(i));
            }
        }
        if found {
            out.push(available[i].clone());
        }
        i = i + 1;
    }
    out
}

/// For each language of `available`, whether a language with its code is in `enabled`.
pub fn preselection(available: &Vec<Language>, enabled: &Vec<Language>) -> (r: Vec<bool>)
    ensures
        r@.len() == available@.len(),
        forall|i: int| 0 <= i < available@.len() ==> r@[i] == code_in(enabled@, #[trigger] available@[i].code@),
{
    let n = available.len();
    let mut out: Vec<bool> = Vec::new();
    let mut i: usize = 0;
    while i < n
        invariant
            n == available@.len(),
            i <= n,
            out@.len() == i,
            forall|q: int| 0 <= q < i ==> out@[q] == code_in(enabled@, #[trigger] available@[q].code@),
        decreases n - i,
    {
        let m = enabled.len();
        let mut j: usize = 0;
        let mut found = false;
        while j < m
            invariant
                m == enabled@.len(),
                i < n,
                n == available@.len(),
                j <= m,
                found == (exists|q: int| 0 <= q < j && enabled@[q].code@ == available@[i as int].code@),
            decreases m - j,
        {
            if enabled[j] == available[i] {
                found = true;
            }
            j = j + 1;
        }
        out.push(found);
        i = i + 1;
    }
    out
}

/// The lower-case form of a text, as Rust's `str::to_lowercase` gives it.
pub uninterp spec fn lowercase_of(s: Seq<char>) -> Seq<char>;

/// Relies on `str::to_lowercase`: the result depends on the characters alone.
#[verifier::external_body]
fn lowercase(s: &str) -> (r: String)
    ensures
        r@ == lowercase_of(s@),
{
    s.to_lowercase()
}

/// The path offered for the document of `language`: a file named after its code in lower
/// case, with the extension `.json`, in the directory `lang_dir`.
pub fn default_output_path(lang_dir: &str, language: &Language) -> (r: String)
    ensures
        r@ == lang_dir@ + "/"@ + lowercase_of(language.code@) + ".json"@,
{
    let mut path = lang_dir.to_string();
    path.append("/");
    let code = lowercase(language.code.as_str());
    path.append(code.as_str());
    path.append(".json");
    path
}

/// Whether two texts hold the same characters.
pub fn text_equals(a: &str, b: &str) -> (r: bool)
    ensures
        r == (a@ == b@),
{
    let n = a.unicode_len();
    if n != b.unicode_len() {
        return false;
    }
    let mut i: usize = 0;
    while i < n
        invariant
            n == a@.len(),
            n == b@.len(),
            i <= n,
            forall|j: int| 0 <= j < i ==> a@[j] == b@[j],
        decreases n - i,
    {
        if a.get_char(i) != b.get_char(i) {
            return false;
        }
        i = i + 1;
    }
    assert(a@ =~= b@);
    true
}

/// Whether `path` ends in `.json`.
pub fn has_json_extension(path: &str) -> (r: bool)
    ensures
        r == (path@.len() >= 5 && path@.subrange(path@.len() - 5, path@.len() as int)
            == ".json"@),
{
    let suffix = ".json";
    proof {
        reveal_strlit(".json");
    }
    let n = path.unicode_len();
    if n < 5 {
        return false;
    }
    let mut i: usize = 0;
    while i < 5
        invariant
            n == path@.len(),
            n >= 5,
            suffix@ == ".json"@,
            suffix@.len() == 5,
            i <= 5,
            forall|j: int| 0 <= j < i ==> path@[n - 5 + j] == suffix@[j],
        decreases 5 - i,
    {
        if path.get_char(n - 5 + i) != suffix.get_char(i) {
            assert(path@.subrange(n - 5, n as int)[i as int] != ".json"@[i as int]);
            return false;
        }
        i = i + 1;
    }
    assert(path@.subrange(n - 5, n as int) =~= ".json"@);
    true
}

} // verus!
