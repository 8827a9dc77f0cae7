use ltranslate::{
    default_output_path, format_locale_data, from_members, has_json_extension, parse_locale_data,
    select_output_locale_all, DeepLContext, Language, LanguageDiff, LoadError, LocaleData,
    LocaleDocument, LocaleManifest, LocaleManifestExternal, ProjectSetting, StrMap, SyncError,
    TranslationBatch,
};

fn data(pairs: &[(&str, &str)]) -> LocaleData {
    let mut m = StrMap::new();
    for (k, v) in pairs {
        m.insert(k.to_string(), v.to_string());
    }
    m
}

fn pairs(list: &[(&str, &str)]) -> Vec<(String, String)> {
    list.iter().map(|(k, v)| (k.to_string(), v.to_string())).collect()
}

fn codes(langs: &[Language]) -> Vec<String> {
    langs.iter().map(|l| l.code.clone()).collect()
}

#[test]
fn parse_reads_string_object() {
    let d = parse_locale_data(r#"{"greeting": "Hello", "farewell": "Bye"}"#).unwrap();
    assert_eq!(d.len(), 2);
    assert_eq!(d.get(&"greeting".to_string()).unwrap(), "Hello");
    assert_eq!(d.get(&"farewell".to_string()).unwrap(), "Bye");
}

#[test]
fn parse_refuses_non_object() {
    assert!(matches!(parse_locale_data("[1, 2]"), Err(LoadError::Malformed)));
    assert!(matches!(parse_locale_data("{\"a\": "), Err(LoadError::Malformed)));
    assert!(matches!(parse_locale_data(""), Err(LoadError::Malformed)));
}

#[test]
fn parse_refuses_non_string_value() {
    match parse_locale_data(r#"{"ok": "fine", "count": 3}"#) {
        Err(LoadError::NonString { key }) => assert_eq!(key, "count"),
        other => panic!("unexpected {:?}", other),
    }
}

#[test]
fn parse_of_empty_object_is_empty() {
    assert!(parse_locale_data("{}").unwrap().is_empty());
}

#[test]
fn from_members_reports_first_non_string() {
    let members = vec![
        ("a".to_string(), Some("x".to_string())),
        ("b".to_string(), None),
        ("c".to_string(), None),
    ];
    match from_members(members) {
        Err(LoadError::NonString { key }) => assert_eq!(key, "b"),
        other => panic!("unexpected {:?}", other),
    }
    let members = vec![
        ("a".to_string(), Some("x".to_string())),
        ("a".to_string(), Some("y".to_string())),
    ];
    assert_eq!(from_members(members).unwrap().pairs().clone(), pairs(&[("a", "y")]));
}

#[test]
fn format_then_parse_gives_same_entries() {
    let d = data(&[("b", "two"), ("a", "one \"quoted\"")]);
    let text = format_locale_data(&d);
    assert!(text.contains("\"a\": \"one \\\"quoted\\\"\""));
    let back = parse_locale_data(&text).unwrap();
    assert_eq!(back.get(&"a".to_string()).unwrap(), "one \"quoted\"");
    assert_eq!(back.get(&"b".to_string()).unwrap(), "two");
    assert_eq!(back.len(), 2);
}

#[test]
fn source_document_is_english() {
    let manifest = LocaleManifest::new("lang/en.json".to_string());
    let doc = LocaleDocument::source(&manifest, Some(r#"{"k": "v"}"#)).unwrap().unwrap();
    assert_eq!(doc.language.code, "EN");
    assert_eq!(doc.path, "lang/en.json");
    assert!(LocaleDocument::source(&manifest, None).unwrap().is_none());
    match LocaleDocument::source(&manifest, Some("{")) {
        Err(SyncError::Unreadable { path, error: LoadError::Malformed }) => assert_eq!(path, "lang/en.json"),
        other => panic!("unexpected {:?}", other),
    }
}

#[test]
fn history_document_reads_snapshot() {
    let doc = LocaleDocument::source_history("h.json".to_string(), Some(r#"{"a": "b"}"#)).unwrap().unwrap();
    assert_eq!(doc.path, "h.json");
    assert_eq!(doc.data.pairs().clone(), pairs(&[("a", "b")]));
    assert!(LocaleDocument::source_history("h.json".to_string(), None).unwrap().is_none());
}

#[test]
fn document_of_language_needs_a_path() {
    let mut manifest = LocaleManifest::new("en.json".to_string());
    let de = Language::new("DE", "German");
    match LocaleDocument::from_language(&manifest, de.clone(), Some("{}")) {
        Err(SyncError::MissingLocalePath { language }) => assert_eq!(language, "DE"),
        other => panic!("unexpected {:?}", other),
    }
    manifest.apply_language_change(&vec![], &vec![de.clone()], vec!["de.json".to_string()]);
    let doc = LocaleDocument::from_language(&manifest, de.clone(), Some(r#"{"a": "b"}"#)).unwrap().unwrap();
    assert_eq!(doc.path, "de.json");
    assert!(LocaleDocument::from_language(&manifest, de, None).unwrap().is_none());
}

#[test]
fn translate_full_pairs_answer_with_keys() {
    let mut manifest = LocaleManifest::new("en.json".to_string());
    let de = Language::new("DE", "German");
    let fr = Language::new("FR", "French");
    manifest.apply_language_change(&vec![], &vec![de.clone()], vec!["de.json".to_string()]);
    let batch = TranslationBatch::new(data(&[("a", "one"), ("b", "two")]));
    assert_eq!(batch.texts().clone(), vec!["one".to_string(), "two".to_string()]);
    let doc = LocaleDocument::translate_full(&manifest, &batch, de.clone(), vec!["eins".to_string(), "zwei".to_string()]).unwrap();
    assert_eq!(doc.path, "de.json");
    assert_eq!(doc.data.pairs().clone(), pairs(&[("a", "eins"), ("b", "zwei")]));
    assert!(matches!(
        LocaleDocument::translate_full(&manifest, &batch, de, vec!["eins".to_string()]),
        Err(SyncError::CountMismatch { expected: 2, received: 1, .. })
    ));
    assert!(matches!(
        LocaleDocument::translate_full(&manifest, &batch, fr, vec![]),
        Err(SyncError::MissingLocalePath { .. })
    ));
}

#[test]
fn raw_text_data_keeps_order() {
    let d = data(&[("z", "last"), ("a", "first"), ("m", "first")]);
    assert_eq!(
        LocaleDocument::get_raw_text_data(&d),
        vec!["last".to_string(), "first".to_string(), "first".to_string()]
    );
}

#[test]
fn update_translations_prunes_then_merges() {
    let mut doc = LocaleDocument {
        data: data(&[("a", "1"), ("b", "2"), ("c", "3")]),
        language: Language::new("DE", "German"),
        path: "de.json".to_string(),
    };
    doc.update_translations(&data(&[("b", "x")]), data(&[("c", "30"), ("d", "4")])).unwrap();
    assert_eq!(doc.data.pairs().clone(), pairs(&[("a", "1"), ("c", "30"), ("d", "4")]));
    match doc.update_translations(&data(&[("a", "x"), ("zz", "y")]), data(&[])) {
        Err(SyncError::MissingKey { language, key }) => {
            assert_eq!(language, "DE");
            assert_eq!(key, "zz");
        }
        other => panic!("unexpected {:?}", other),
    }
    assert_eq!(doc.data.pairs().clone(), pairs(&[("a", "1"), ("c", "30"), ("d", "4")]));
}

#[test]
fn language_label_and_equality() {
    let de = Language::new("DE", "German");
    assert_eq!(de.to_string(), "DE (German)");
    assert!(de == Language::new("DE", "Deutsch"));
    assert!(de != Language::new("FR", "German"));
    let en = Language::english();
    assert_eq!(en.code, "EN");
    assert_eq!(en.name, "English");
}

#[test]
fn language_diff_by_code() {
    let original = vec![Language::new("DE", "German"), Language::new("ES", "Spanish")];
    let current = vec![Language::new("FR", "French"), Language::new("DE", "Deutsch")];
    let d = LanguageDiff::diff(&original, &current).unwrap();
    assert_eq!(codes(&d.added), vec!["FR".to_string()]);
    assert_eq!(codes(&d.removed), vec!["ES".to_string()]);
    assert!(LanguageDiff::diff(&original, &original.clone()).is_none());
    let d = LanguageDiff::diff(&vec![], &original).unwrap();
    assert_eq!(codes(&d.added), vec!["DE".to_string(), "ES".to_string()]);
    assert!(d.removed.is_empty());
}

#[test]
fn project_settings_by_index() {
    assert!(matches!(ProjectSetting::from_index(0), Some(ProjectSetting::EditSourcePath)));
    assert!(matches!(ProjectSetting::from_index(1), Some(ProjectSetting::EditLangugages)));
    assert!(ProjectSetting::from_index(2).is_none());
    assert_eq!(ProjectSetting::EditSourcePath.to_string(), "source locale path");
    assert_eq!(ProjectSetting::EditLangugages.to_string(), "enabled languages");
}

#[test]
fn output_paths_keyed_by_code() {
    let langs = vec![Language::new("DE", "German"), Language::new("FR", "French"), Language::new("DE", "Deutsch")];
    let m = select_output_locale_all(&langs, vec!["a.json".to_string(), "b.json".to_string(), "c.json".to_string()]);
    assert_eq!(m.pairs().clone(), pairs(&[("DE", "c.json"), ("FR", "b.json")]));
}

#[test]
fn default_path_uses_lower_case_code() {
    assert_eq!(default_output_path("./lang", &Language::new("PT-BR", "Portuguese")), "./lang/pt-br.json");
    assert_eq!(default_output_path("x", &Language::new("de", "German")), "x/de.json");
}

#[test]
fn json_extension_check() {
    assert!(has_json_extension("lang/de.json"));
    assert!(has_json_extension(".json"));
    assert!(!has_json_extension("json"));
    assert!(!has_json_extension("de.jsn"));
    assert!(!has_json_extension("de.json.bak"));
}

#[test]
fn manifest_round_trip_through_stored_form() {
    let mut manifest = LocaleManifest::new("lang/en.json".to_string());
    manifest.apply_language_change(
        &vec![],
        &vec![Language::new("FR", "French"), Language::new("DE", "German")],
        vec!["lang/fr.json".to_string(), "lang/de.json".to_string()],
    );
    let stored = LocaleManifestExternal::from_manifest(manifest);
    assert_eq!(stored.source_locale_path, "lang/en.json");
    assert_eq!(stored.language_names.pairs().clone(), pairs(&[("FR", "French"), ("DE", "German")]));
    let back = LocaleManifest::from_external(stored);
    assert_eq!(codes(&back.languages), vec!["FR".to_string(), "DE".to_string()]);
    assert_eq!(back.languages[1].name, "German");
    assert_eq!(back.locale_path(&"DE".to_string()).unwrap(), "lang/de.json");
}

#[test]
fn removing_a_language_keeps_others() {
    let mut manifest = LocaleManifest::new("en.json".to_string());
    let de = Language::new("DE", "German");
    let fr = Language::new("FR", "French");
    manifest.apply_language_change(&vec![], &vec![de.clone(), fr.clone()], vec!["de.json".to_string(), "fr.json".to_string()]);
    manifest.apply_language_change(&vec![de.clone()], &vec![], vec![]);
    assert_eq!(codes(&manifest.languages), vec!["FR".to_string()]);
    assert_eq!(manifest.locale_paths.pairs().clone(), pairs(&[("FR", "fr.json")]));
    assert!(matches!(manifest.locale_path(&"DE".to_string()), Err(SyncError::MissingLocalePath { .. })));
}

#[test]
fn target_language_lookup() {
    let context = DeepLContext {
        api_connection: deepl_api::DeepL::new("unused".to_string()),
        translation_options: deepl_api::TranslationOptions {
            split_sentences: None,
            preserve_formatting: Some(true),
            formality: None,
            glossary_id: None,
        },
        available_target_langs: vec![
            Language::new("DE", "German"),
            Language::new("FR", "French"),
            Language::new("DE", "German again"),
        ],
    };
    assert_eq!(context.get_target_language_if_available("DE").unwrap().name, "German");
    assert_eq!(context.get_target_language_if_available("FR").unwrap().name, "French");
    assert!(context.get_target_language_if_available("de").is_none());
    assert!(context.get_target_language_if_available("").is_none());
}

#[test]
fn map_insert_remove_keep_order() {
    let mut m = StrMap::new();
    assert!(m.insert("b".to_string(), "1".to_string()).is_none());
    assert!(m.insert("a".to_string(), "2".to_string()).is_none());
    assert_eq!(m.insert("b".to_string(), "3".to_string()).unwrap(), "1");
    assert_eq!(m.pairs().clone(), pairs(&[("b", "3"), ("a", "2")]));
    assert_eq!(m.keys(), vec!["b".to_string(), "a".to_string()]);
    assert_eq!(m.values(), vec!["3".to_string(), "2".to_string()]);
    assert!(m.contains_key(&"a".to_string()));
    assert_eq!(m.remove(&"b".to_string()).unwrap(), "3");
    assert!(m.remove(&"b".to_string()).is_none());
    assert!(!m.contains_key(&"b".to_string()));
    assert_eq!(m.pairs().clone(), pairs(&[("a", "2")]));
    let n = StrMap::from_pairs(pairs(&[("a", "2")]));
    assert!(m.same_entries(&n));
}

#[test]
fn existing_documents_are_read_per_language() {
    let mut manifest = LocaleManifest::new("en.json".to_string());
    manifest.apply_language_change(
        &vec![],
        &vec![Language::new("DE", "German"), Language::new("FR", "French")],
        vec!["de.json".to_string(), "fr.json".to_string()],
    );
    let docs = ltranslate::LocaleDocuments::get_existing(
        &manifest,
        vec![Some(r#"{"a": "eins"}"#.to_string()), Some(r#"{"a": "un"}"#.to_string())],
    )
    .unwrap();
    assert_eq!(docs.documents.len(), 2);
    assert_eq!(docs.documents[1].path, "fr.json");
    assert_eq!(docs.documents[1].data.pairs().clone(), pairs(&[("a", "un")]));
    match ltranslate::LocaleDocuments::get_existing(&manifest, vec![Some("{}".to_string()), None]) {
        Err(SyncError::MissingDocument { language }) => assert_eq!(language, "FR"),
        other => panic!("unexpected {:?}", other.map(|d| d.documents.len())),
    }
    match ltranslate::LocaleDocuments::get_existing(&manifest, vec![Some("{\"a\": 1}".to_string()), None]) {
        Err(SyncError::Unreadable { path, error: LoadError::NonString { key } }) => {
            assert_eq!(path, "de.json");
            assert_eq!(key, "a");
        }
        other => panic!("unexpected {:?}", other.map(|d| d.documents.len())),
    }
}

#[test]
fn app_data_keeps_its_parts() {
    let manifest = LocaleManifest::new("en.json".to_string());
    let source = LocaleDocument::source(&manifest, Some(r#"{"k": "v"}"#)).unwrap().unwrap();
    let app = ltranslate::AppData::new(manifest, source);
    assert_eq!(app.manifest.source_locale_path, "en.json");
    assert_eq!(app.source_locale.data.pairs().clone(), pairs(&[("k", "v")]));
}

#[test]
fn selection_by_index_and_preselection_by_code() {
    let available = vec![
        Language::new("DE", "German"),
        Language::new("FR", "French"),
        Language::new("ES", "Spanish"),
    ];
    let picked = ltranslate::selected_languages(&available, &vec![2, 0, 7]);
    assert_eq!(codes(&picked), vec!["DE".to_string(), "ES".to_string()]);
    assert!(ltranslate::selected_languages(&available, &vec![]).is_empty());
    let enabled = vec![Language::new("ES", "Español")];
    assert_eq!(ltranslate::preselection(&available, &enabled), vec![false, false, true]);
}

#[test]
fn full_translation_of_every_language() {
    let mut manifest = LocaleManifest::new("en.json".to_string());
    let de = Language::new("DE", "German");
    let fr = Language::new("FR", "French");
    manifest.apply_language_change(&vec![], &vec![de.clone(), fr.clone()], vec!["de.json".to_string(), "fr.json".to_string()]);
    let source = || TranslationBatch::new(data(&[("a", "one"), ("b", "two")]));
    let langs = vec![de.clone(), fr.clone()];
    let outcome = ltranslate::full_translate_all(
        &manifest,
        source(),
        &langs,
        vec![
            Some(vec!["eins".to_string(), "zwei".to_string()]),
            Some(vec!["un".to_string(), "deux".to_string()]),
        ],
    )
    .unwrap();
    assert_eq!(outcome.documents[0].path, "de.json");
    assert_eq!(outcome.documents[1].data.pairs().clone(), pairs(&[("a", "un"), ("b", "deux")]));
    assert_eq!(outcome.snapshot.pairs().clone(), pairs(&[("a", "one"), ("b", "two")]));
    match ltranslate::full_translate_all(&manifest, source(), &langs, vec![Some(vec!["eins".to_string(), "zwei".to_string()]), None]) {
        Err(SyncError::ProviderFailed { language }) => assert_eq!(language, "FR"),
        other => panic!("unexpected {:?}", other.map(|o| o.documents.len())),
    }
    let es = Language::new("ES", "Spanish");
    match ltranslate::full_translate_all(&manifest, source(), &vec![es, de], vec![None, None]) {
        Err(SyncError::MissingLocalePath { language }) => assert_eq!(language, "ES"),
        other => panic!("unexpected {:?}", other.map(|o| o.documents.len())),
    }
}

#[test]
fn loaded_document_holds_what_the_file_holds() {
    let mut manifest = LocaleManifest::new("en.json".to_string());
    let de = Language::new("DE", "German");
    manifest.apply_language_change(&vec![], &vec![de.clone()], vec!["de.json".to_string()]);
    let doc = LocaleDocument::from_language(&manifest, de.clone(), Some(r#"{"x": "y", "a": "b"}"#))
        .unwrap()
        .unwrap();
    assert_eq!(doc.data.get(&"x".to_string()).unwrap(), "y");
    assert_eq!(doc.data.get(&"a".to_string()).unwrap(), "b");
    assert_eq!(doc.data.len(), 2);
    match LocaleDocument::from_language(&manifest, de, Some("not json")) {
        Err(SyncError::Unreadable { path, error: LoadError::Malformed }) => assert_eq!(path, "de.json"),
        other => panic!("unexpected {:?}", other),
    }
}
