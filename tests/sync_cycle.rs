use ltranslate::{
    plan_language_change, CycleStep, Language, LocaleData, LocaleDataDiff, LocaleDocument,
    StrMap, SyncError, SyncOutcome, UpdateCycle,
};

fn data(pairs: &[(&str, &str)]) -> LocaleData {
    let mut m = StrMap::new();
    for (k, v) in pairs {
        m.insert(k.to_string(), v.to_string());
    }
    m
}

fn entries(m: &LocaleData) -> Vec<(String, String)> {
    m.pairs().clone()
}

fn pairs(list: &[(&str, &str)]) -> Vec<(String, String)> {
    list.iter().map(|(k, v)| (k.to_string(), v.to_string())).collect()
}

fn document(code: &str, pairs: &[(&str, &str)]) -> LocaleDocument {
    LocaleDocument {
        data: data(pairs),
        language: Language::new(code, code),
        path: format!("lang/{}.json", code.to_lowercase()),
    }
}

/// A stand-in provider: marks each text with the target code.
fn translate(texts: &[String], code: &str) -> Vec<String> {
    texts.iter().map(|t| format!("[{}] {}", code, t)).collect()
}

/// Runs a cycle to its end, answering every request with `answer`.
fn run(
    mut step: CycleStep,
    mut answer: impl FnMut(&str, &[String]) -> Option<Vec<String>>,
    requests: &mut Vec<(String, Vec<String>)>,
) -> CycleStep {
    loop {
        match step {
            CycleStep::Translate(cycle) => {
                let code = cycle.target().code.clone();
                let texts = cycle.texts().clone();
                requests.push((code.clone(), texts.clone()));
                let reply = answer(&code, &texts);
                step = cycle.resume(reply);
            }
            other => return other,
        }
    }
}

fn committed(step: CycleStep) -> SyncOutcome {
    match step {
        CycleStep::Commit(o) => o,
        _ => panic!("expected a commit"),
    }
}

#[test]
fn diff_of_equal_documents_is_none() {
    let a = data(&[("greeting", "Hello"), ("farewell", "Bye")]);
    let b = data(&[("greeting", "Hello"), ("farewell", "Bye")]);
    assert!(LocaleDataDiff::diff(&a, &b).is_none());
    assert!(LocaleDataDiff::diff(&a, &a).is_none());
    assert!(LocaleDataDiff::diff(&StrMap::new(), &StrMap::new()).is_none());
}

#[test]
fn diff_classifies_changed_added_and_removed() {
    let a = data(&[("a", "1"), ("b", "2"), ("c", "3")]);
    let b = data(&[("b", "2"), ("a", "10"), ("d", "4")]);
    let d = LocaleDataDiff::diff(&a, &b).unwrap();
    assert_eq!(entries(&d.changed_or_added), pairs(&[("a", "10"), ("d", "4")]));
    assert_eq!(entries(&d.removed), pairs(&[("c", "3")]));
}

#[test]
fn diff_with_same_entries_in_other_order_is_none() {
    let a = data(&[("a", "1"), ("b", "2")]);
    let b = data(&[("b", "2"), ("a", "1")]);
    assert!(LocaleDataDiff::diff(&a, &b).is_none());
}

#[test]
fn equal_value_is_no_change() {
    let a = data(&[("k", "same")]);
    let b = data(&[("k", "same"), ("n", "new")]);
    let d = LocaleDataDiff::diff(&a, &b).unwrap();
    assert_eq!(entries(&d.changed_or_added), pairs(&[("n", "new")]));
    assert!(d.removed.is_empty());
}

#[test]
fn changed_greeting_translates_only_that_key() {
    let history = data(&[("greeting", "Hello"), ("farewell", "Bye")]);
    let current = data(&[("greeting", "Hi there"), ("farewell", "Bye")]);
    let de = document("DE", &[("greeting", "Hallo"), ("farewell", "Tschüss")]);

    let d = LocaleDataDiff::diff(&history, &current).unwrap();
    assert_eq!(entries(&d.changed_or_added), pairs(&[("greeting", "Hi there")]));
    assert!(d.removed.is_empty());

    let mut requests = Vec::new();
    let step = UpdateCycle::start(&history, current, vec![de]);
    let outcome = committed(run(step, |c, t| Some(translate(t, c)), &mut requests));
    assert_eq!(requests, vec![("DE".to_string(), vec!["Hi there".to_string()])]);
    assert_eq!(outcome.documents.len(), 1);
    assert_eq!(
        entries(&outcome.documents[0].data),
        pairs(&[("greeting", "[DE] Hi there"), ("farewell", "Tschüss")])
    );
    assert_eq!(
        entries(&outcome.snapshot),
        pairs(&[("greeting", "Hi there"), ("farewell", "Bye")])
    );
}

#[test]
fn dropped_key_is_removed_without_translation() {
    let history = data(&[("greeting", "Hello"), ("farewell", "Bye")]);
    let current = data(&[("greeting", "Hello")]);
    let d = LocaleDataDiff::diff(&history, &current).unwrap();
    assert!(d.changed_or_added.is_empty());
    assert_eq!(entries(&d.removed), pairs(&[("farewell", "Bye")]));

    let docs = vec![
        document("DE", &[("greeting", "Hallo"), ("farewell", "Tschüss")]),
        document("FR", &[("greeting", "Bonjour"), ("farewell", "Salut")]),
    ];
    let mut requests = Vec::new();
    let step = UpdateCycle::start(&history, current, docs);
    let outcome = committed(run(step, |c, t| Some(translate(t, c)), &mut requests));
    assert!(requests.is_empty());
    assert_eq!(entries(&outcome.documents[0].data), pairs(&[("greeting", "Hallo")]));
    assert_eq!(entries(&outcome.documents[1].data), pairs(&[("greeting", "Bonjour")]));
    assert_eq!(entries(&outcome.snapshot), pairs(&[("greeting", "Hello")]));
}

#[test]
fn second_run_without_source_change_is_idle() {
    let history = data(&[("a", "one")]);
    let current = data(&[("a", "one"), ("b", "two")]);
    let mut requests = Vec::new();
    let step = UpdateCycle::start(&history, current, vec![document("DE", &[("a", "eins")])]);
    let outcome = committed(run(step, |c, t| Some(translate(t, c)), &mut requests));
    assert_eq!(requests.len(), 1);

    let current_again = data(&[("a", "one"), ("b", "two")]);
    let step = UpdateCycle::start(&outcome.snapshot, current_again, outcome.documents);
    assert!(matches!(step, CycleStep::Idle));
}

#[test]
fn provider_failure_commits_nothing_and_retry_completes() {
    let history = data(&[("a", "one"), ("gone", "x")]);
    let docs = || {
        vec![
            document("DE", &[("a", "eins"), ("gone", "x-de")]),
            document("FR", &[("a", "un"), ("gone", "x-fr")]),
            document("ES", &[("a", "uno"), ("gone", "x-es")]),
        ]
    };
    let current = || data(&[("a", "ONE"), ("b", "two")]);

    let mut requests = Vec::new();
    let step = UpdateCycle::start(&history, current(), docs());
    let failed = run(
        step,
        |c, t| if c == "FR" { None } else { Some(translate(t, c)) },
        &mut requests,
    );
    assert_eq!(requests.len(), 2);
    match failed {
        CycleStep::Fail(SyncError::ProviderFailed { language }) => assert_eq!(language, "FR"),
        _ => panic!("expected a provider failure"),
    }

    let mut requests = Vec::new();
    let step = UpdateCycle::start(&history, current(), docs());
    let outcome = committed(run(step, |c, t| Some(translate(t, c)), &mut requests));
    assert_eq!(requests.len(), 3);
    let expected = [("DE", "[DE] ONE", "[DE] two"), ("FR", "[FR] ONE", "[FR] two"), ("ES", "[ES] ONE", "[ES] two")];
    for (doc, (code, a, b)) in outcome.documents.iter().zip(expected.iter()) {
        assert_eq!(doc.language.code, *code);
        assert_eq!(entries(&doc.data), pairs(&[("a", a), ("b", b)]));
    }
    assert_eq!(entries(&outcome.snapshot), pairs(&[("a", "ONE"), ("b", "two")]));
}

#[test]
fn answer_of_wrong_length_is_refused() {
    let history = data(&[("a", "one")]);
    let current = data(&[("a", "uno"), ("b", "dos")]);
    let step = UpdateCycle::start(&history, current, vec![document("DE", &[("a", "eins")])]);
    let mut requests = Vec::new();
    match run(step, |_, _| Some(vec!["only one".to_string()]), &mut requests) {
        CycleStep::Fail(SyncError::CountMismatch { language, expected, received }) => {
            assert_eq!(language, "DE");
            assert_eq!(expected, 2);
            assert_eq!(received, 1);
        }
        _ => panic!("expected a count mismatch"),
    }
}

#[test]
fn document_missing_a_removed_key_is_refused() {
    let history = data(&[("a", "one"), ("b", "two")]);
    let current = data(&[("a", "one")]);
    let docs = vec![document("DE", &[("a", "eins"), ("b", "zwei")]), document("FR", &[("a", "un")])];
    match UpdateCycle::start(&history, current, docs) {
        CycleStep::Fail(SyncError::MissingKey { language, key }) => {
            assert_eq!(language, "FR");
            assert_eq!(key, "b");
        }
        _ => panic!("expected a missing key"),
    }
}

#[test]
fn missing_key_during_translation_is_refused() {
    let history = data(&[("a", "one"), ("b", "two")]);
    let current = data(&[("a", "uno")]);
    let docs = vec![document("DE", &[("a", "eins")])];
    let mut requests = Vec::new();
    let step = UpdateCycle::start(&history, current, docs);
    match run(step, |c, t| Some(translate(t, c)), &mut requests) {
        CycleStep::Fail(SyncError::MissingKey { language, key }) => {
            assert_eq!(language, "DE");
            assert_eq!(key, "b");
        }
        _ => panic!("expected a missing key"),
    }
}

#[test]
fn duplicate_values_keep_their_keys() {
    let history = StrMap::new();
    let current = data(&[("yes", "OK"), ("confirm", "OK"), ("no", "Cancel")]);
    let mut requests = Vec::new();
    let step = UpdateCycle::start(&history, current, vec![document("DE", &[])]);
    let outcome = committed(run(
        step,
        |_, t| Some(t.iter().enumerate().map(|(i, s)| format!("{}#{}", s, i)).collect()),
        &mut requests,
    ));
    assert_eq!(requests[0].1, vec!["OK".to_string(), "OK".to_string(), "Cancel".to_string()]);
    assert_eq!(
        entries(&outcome.documents[0].data),
        pairs(&[("yes", "OK#0"), ("confirm", "OK#1"), ("no", "Cancel#2")])
    );
}

#[test]
fn no_languages_still_advances_snapshot() {
    let history = data(&[("a", "one")]);
    let current = data(&[("a", "two")]);
    let outcome = committed(UpdateCycle::start(&history, current, Vec::new()));
    assert!(outcome.documents.is_empty());
    assert_eq!(entries(&outcome.snapshot), pairs(&[("a", "two")]));
}

#[test]
fn language_change_refused_while_source_has_changes() {
    let history = data(&[("a", "one")]);
    let current = data(&[("a", "two")]);
    let enabled = vec![Language::new("DE", "German")];
    let selected = vec![Language::new("DE", "German"), Language::new("FR", "French")];
    assert!(matches!(
        plan_language_change(&history, &current, &enabled, &selected),
        Err(SyncError::PendingChanges)
    ));
}

#[test]
fn language_change_allowed_when_source_is_synced() {
    let history = data(&[("a", "one")]);
    let current = data(&[("a", "one")]);
    let enabled = vec![Language::new("DE", "German"), Language::new("ES", "Spanish")];
    let selected = vec![Language::new("DE", "Deutsch"), Language::new("FR", "French")];
    let d = plan_language_change(&history, &current, &enabled, &selected)
        .unwrap()
        .unwrap();
    let added: Vec<String> = d.added.iter().map(|l| l.code.clone()).collect();
    let removed: Vec<String> = d.removed.iter().map(|l| l.code.clone()).collect();
    assert_eq!(added, vec!["FR".to_string()]);
    assert_eq!(removed, vec!["ES".to_string()]);
    assert!(plan_language_change(&history, &current, &enabled, &enabled.clone())
        .unwrap()
        .is_none());
}

#[test]
fn run_with_failing_second_language_then_retry() {
    let history = data(&[("greeting", "Hello"), ("farewell", "Bye")]);
    let current = || data(&[("greeting", "Hi there"), ("farewell", "Bye")]);
    let docs = || {
        vec![
            document("DE", &[("greeting", "Hallo"), ("farewell", "Tschüss")]),
            document("FR", &[("greeting", "Bonjour"), ("farewell", "Salut")]),
            document("ES", &[("greeting", "Hola"), ("farewell", "Adiós")]),
        ]
    };
    let answer = |code: &str| Some(vec![format!("[{}] Hi there", code)]);

    let failed = ltranslate::run_update(&history, current(), docs(), vec![answer("DE"), None, answer("ES")]);
    match failed {
        CycleStep::Fail(SyncError::ProviderFailed { language }) => assert_eq!(language, "FR"),
        _ => panic!("expected a provider failure"),
    }

    let outcome = committed(ltranslate::run_update(
        &history,
        current(),
        docs(),
        vec![answer("DE"), answer("FR"), answer("ES")],
    ));
    let farewells = ["Tschüss", "Salut", "Adiós"];
    for ((doc, code), farewell) in outcome.documents.iter().zip(["DE", "FR", "ES"]).zip(farewells) {
        assert_eq!(doc.language.code, code);
        assert_eq!(
            entries(&doc.data),
            pairs(&[("greeting", &format!("[{}] Hi there", code)), ("farewell", farewell)])
        );
    }
    assert_eq!(entries(&outcome.snapshot), pairs(&[("greeting", "Hi there"), ("farewell", "Bye")]));
}

#[test]
fn run_without_changes_is_idle() {
    let history = data(&[("a", "one")]);
    let step = ltranslate::run_update(&history, data(&[("a", "one")]), vec![document("DE", &[("a", "eins")])], vec![None]);
    assert!(matches!(step, CycleStep::Idle));
}
