use renforge::ingest::{
    engine_supplement, ingest_message, ingest_meta, is_garbage_text, languages_from_output, plan_ingest, LEGACY_WARNING,
};
use renforge::migrate::{plan_migration, NewRow, OldRow};
use renforge::models::{ExtractedData, ExtractedString};

fn es(block_type: &str, id: &str, who: Option<&str>, what: &str, alts: &[&str]) -> ExtractedString {
    ExtractedString {
        block_type: block_type.to_string(),
        id: id.to_string(),
        file: "s.rpy".to_string(),
        line: 7,
        who: who.map(|s| s.to_string()),
        what: what.to_string(),
        prefix: None,
        source: None,
        alt_texts: alts.iter().map(|s| s.to_string()).collect(),
    }
}

#[test]
fn garbage_filter_cases() {
    assert!(is_garbage_text("   "));
    assert!(is_garbage_text("[name]"));
    assert!(is_garbage_text(" [config.name!t] "));
    assert!(!is_garbage_text("[a b]"));
    assert!(is_garbage_text("7"));
    assert!(is_garbage_text("."));
    assert!(is_garbage_text("S"));
    assert!(is_garbage_text("H"));
    assert!(!is_garbage_text("a"));
    assert!(!is_garbage_text("Я"));
    assert!(is_garbage_text("42"));
    assert!(!is_garbage_text("42a"));
    assert!(!is_garbage_text("Hello"));
}

#[test]
fn plan_ingest_ids_filter_and_characters() {
    let strings = vec![
        es("dialogue", "x", Some("e"), "Hello", &[]),
        es("dialogue", "x", Some("e"), "Bye", &["Bye!", "So long"]),
        es("dialogue", "x_1", None, "Again", &[]),
        es("dialogue", "g1", None, "  ", &[]),
        es("dialogue", "g2", None, "[name]", &[]),
        es("dialogue", "g3", None, "7", &[]),
        es("dialogue", "g4", None, "42", &[]),
        es("dialogue", "g5", None, "S", &[]),
        es("dialogue", "y", None, "a", &[]),
        es("python", "z", Some("[DEFINE: eileen]"), " Eileen ", &[]),
        es("python", "w", Some("[DEFINE: ]"), "Nobody", &[]),
    ];
    let plan = plan_ingest(&strings);
    let ids: Vec<&str> = plan.rows.iter().map(|r| r.id.as_str()).collect();
    assert_eq!(ids, vec!["x", "x_1", "x_1_1", "y", "z", "w"]);
    assert_eq!(plan.skipped_garbage, 5);
    assert_eq!(plan.rows[1].original, "Bye");
    assert_eq!(plan.rows[1].alt_json, Some("[\"Bye!\",\"So long\"]".to_string()));
    assert_eq!(plan.rows[0].alt_json, None);
    assert_eq!(plan.rows[4].original, " Eileen ");
    assert_eq!(plan.characters.len(), 1);
    assert_eq!(plan.characters[0].code, "eileen");
    assert_eq!(plan.characters[0].name, "Eileen");
    assert_eq!(plan.characters[0].file, "s.rpy");
    assert_eq!(plan.characters[0].line, 7);
}

#[test]
fn plan_ingest_ids_are_unique() {
    let strings: Vec<ExtractedString> = vec![
        es("dialogue", "a", None, "one", &[]),
        es("dialogue", "a_1", None, "two", &[]),
        es("dialogue", "a", None, "three", &[]),
        es("dialogue", "a", None, "four", &[]),
        es("dialogue", "a_2", None, "five", &[]),
    ];
    let plan = plan_ingest(&strings);
    let ids: Vec<&str> = plan.rows.iter().map(|r| r.id.as_str()).collect();
    assert_eq!(ids, vec!["a", "a_1", "a_2", "a_3", "a_2_1"]);
}

#[test]
fn ingest_message_formats() {
    assert_eq!(ingest_message(5, 2, false), "Извлечено строк: 5 (отфильтровано мусора: 2)");
    assert_eq!(ingest_message(0, 0, true), format!("Извлечено строк: 0 (отфильтровано мусора: 0){}", LEGACY_WARNING));
}

#[test]
fn engine_supplement_rows() {
    let e = engine_supplement();
    assert_eq!(e.len(), 11);
    assert_eq!(e[0], ("engine_sup_0000".to_string(), "Are you sure you want to quit?".to_string()));
    assert_eq!(e[10], ("engine_sup_0010".to_string(), "Next".to_string()));
    assert_eq!(e[1].1, "Are you sure you want to return to the main menu?\nThis will lose unsaved progress.");
}

#[test]
fn alternative_wordings_stored_as_json() {
    let strings = vec![es("dialogue", "q", None, "Quote", &["say \"hi\"", "back\\slash"])];
    let plan = plan_ingest(&strings);
    assert_eq!(plan.rows[0].alt_json, Some("[\"say \\\"hi\\\"\",\"back\\\\slash\"]".to_string()));
}

#[test]
fn ingest_meta_entries() {
    let d = ExtractedData {
        project_name: "p".to_string(),
        is_legacy_format: Some(true),
        available_languages: Some(vec!["english".to_string(), "french".to_string()]),
        source_language: Some("english".to_string()),
        game_name: Some("Game".to_string()),
        game_version: Some("  ".to_string()),
        engine_version: Some("7.4".to_string()),
        strings: Vec::new(),
    };
    let m = ingest_meta(&d);
    let expected: Vec<(String, String)> = vec![
        ("available_languages", "[\"english\",\"french\"]"),
        ("source_language", "english"),
        ("is_legacy", "true"),
        ("game_name", "Game"),
        ("engine_version", "7.4"),
    ]
    .into_iter()
    .map(|(a, b)| (a.to_string(), b.to_string()))
    .collect();
    assert_eq!(m, expected);
    let bare = ExtractedData {
        project_name: "p".to_string(),
        is_legacy_format: None,
        available_languages: None,
        source_language: Some("english".to_string()),
        game_name: None,
        game_version: None,
        engine_version: None,
        strings: Vec::new(),
    };
    assert_eq!(ingest_meta(&bare), vec![("is_legacy".to_string(), "false".to_string())]);
}

#[test]
fn languages_from_extractor_output() {
    let out = "scanning...\n  RENFORGE_LANGS: [\"english\", \"french\"]  \r\nRENFORGE_LANGS: [\"x\"]\n";
    assert_eq!(languages_from_output(out), vec!["english".to_string(), "french".to_string()]);
    assert!(languages_from_output("RENFORGE_LANGS: oops\nRENFORGE_LANGS: [\"y\"]").is_empty());
    assert!(languages_from_output("nothing here\n").is_empty());
    assert!(languages_from_output("").is_empty());
}

fn old_row(id: &str, file: &str, original: &str, translation: &str) -> OldRow {
    OldRow { id: id.to_string(), file: file.to_string(), original: original.to_string(), translation: translation.to_string() }
}

fn new_row(id: &str, file: &str, original: &str) -> NewRow {
    NewRow { id: id.to_string(), file: file.to_string(), original: original.to_string() }
}

#[test]
fn plan_migration_report_and_updates() {
    let olds = vec![
        old_row("1", "s.rpy", "Hello world", "Привет мир"),
        old_row("2", "s.rpy", "Untranslated line", ""),
        old_row("3", "s.rpy", "The quick brown fox", "Быстрая лиса"),
        old_row("9", "t.rpy", "Gone", "Ушло"),
    ];
    let news = vec![
        new_row("1", "s.rpy", "Hello world"),
        new_row("2", "s.rpy", "Untranslated line"),
        new_row("4", "s.rpy", "The quick brown fox!"),
        new_row("5", "s.rpy", "Untranslated line."),
        new_row("6", "s.rpy", "Completely different text here"),
    ];
    let (report, updates) = plan_migration(&olds, &news);
    assert_eq!(report.carried_exact, 1);
    assert_eq!(report.carried_fuzzy, 1);
    assert_eq!(report.new_strings, 1);
    assert_eq!(report.still_untranslated, 2);
    assert_eq!(report.old_unused, 1);
    assert_eq!(updates.len(), 2);
    assert_eq!((updates[0].id.as_str(), updates[0].translation.as_str(), updates[0].status.as_str()), ("1", "Привет мир", "translated"));
    assert_eq!(updates[0].prev_original, None);
    assert_eq!((updates[1].id.as_str(), updates[1].translation.as_str(), updates[1].status.as_str()), ("4", "Быстрая лиса", "outdated"));
    assert_eq!(updates[1].prev_original, Some("The quick brown fox".to_string()));
}

#[test]
fn plan_migration_fuzzy_candidate_used_once() {
    let olds = vec![old_row("1", "s.rpy", "Welcome home, friend", "Добро пожаловать домой, друг")];
    let news = vec![new_row("a", "s.rpy", "Welcome home, friend!"), new_row("b", "s.rpy", "Welcome home, friend?"), new_row("c", "x.rpy", "Welcome home, friend")];
    let (report, updates) = plan_migration(&olds, &news);
    assert_eq!(report.carried_fuzzy, 1);
    assert_eq!(report.still_untranslated, 1);
    assert_eq!(report.new_strings, 1);
    assert_eq!(report.old_unused, 0);
    assert_eq!(updates.len(), 1);
    assert_eq!(updates[0].id, "a");
}

#[test]
fn plan_migration_accounts_for_every_new_row() {
    let olds = vec![old_row("1", "s.rpy", "One", "Один"), old_row("2", "s.rpy", "Two", "")];
    let news = vec![new_row("1", "s.rpy", "One"), new_row("2", "s.rpy", "Two"), new_row("3", "s.rpy", "Three"), new_row("4", "q.rpy", "Four")];
    let (r, _) = plan_migration(&olds, &news);
    assert_eq!(r.carried_exact + r.carried_fuzzy + r.new_strings + r.still_untranslated, 4);
}
