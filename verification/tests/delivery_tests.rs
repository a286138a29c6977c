use renforge::delivery::{
    build_runtime_rpy, escape_py_double, extract_interps, indent_block, plan_delivery,
    load_delivery_hooks, split_hooks, weave_hooks, DeliveryRecord, NO_TRANSLATIONS,
};
use renforge::export::is_renforge_workfile;
use renforge::models::DeliveryHook;

#[test]
fn test_extract_interps() {
    assert_eq!(extract_interps("Привет, [name]!"), vec!["[name]".to_string()]);
    assert_eq!(extract_interps("[a] и [b]"), vec!["[a]".to_string(), "[b]".to_string()]);
    assert!(extract_interps("без переменных").is_empty());
    assert!(extract_interps("{b}жирный{/b}").is_empty());
}

#[test]
fn test_extract_interps_detects_foreign_var() {
    let orig = extract_interps("Hello [mc]");
    let trans = extract_interps("Привет [ПЕР]");
    let has_foreign = trans.iter().any(|t| !orig.contains(t));
    assert!(has_foreign);
}

#[test]
fn test_is_renforge_workfile() {
    assert!(is_renforge_workfile(".renforge"));
    assert!(is_renforge_workfile(".renforge/english-russian.db"));
    assert!(is_renforge_workfile("renforge.db"));
    assert!(is_renforge_workfile("renforge.db-wal"));
    assert!(is_renforge_workfile("renforge_ast.json"));
    assert!(!is_renforge_workfile("game/script.rpyc"));
    assert!(!is_renforge_workfile("game/renforge_translations.rpy"));
    assert!(!is_renforge_workfile("renpy/common/00gui.rpy"));
}

#[test]
fn test_escape_py_double() {
    assert_eq!(escape_py_double("a\"b"), "a\\\"b");
    assert_eq!(escape_py_double("c\\d"), "c\\\\d");
    assert_eq!(escape_py_double("e\nf"), "e\\nf");
    assert_eq!(escape_py_double("g\u{2028}h"), "g\\u2028h");
    assert_eq!(escape_py_double("i\u{2029}j"), "i\\u2029j");
}

#[test]
fn workfiles_cover_backups_and_probes() {
    assert!(is_renforge_workfile("game\\.renforge\\x.db"));
    assert!(is_renforge_workfile("game/archive.rpa.renforge-disabled"));
    assert!(is_renforge_workfile("game/.renforge_write_test.tmp"));
    assert!(is_renforge_workfile("renforge_native.json"));
    assert!(!is_renforge_workfile("game/renforge_font_0.ttf"));
}

#[test]
fn escape_py_double_all_specials_single_line() {
    let out = escape_py_double("t\tr\r\\\"x\ny");
    assert_eq!(out, "t\\tr\\r\\\\\\\"x\\ny");
    assert!(!out.contains('\n'));
    assert!(!out.contains('\r'));
    assert!(!out.contains('\u{2028}'));
}

#[test]
fn extract_interps_unclosed_and_nested() {
    assert_eq!(extract_interps("[a [b] c]"), vec!["[b]".to_string()]);
    assert!(extract_interps("open [ only").is_empty());
    assert!(extract_interps("] stray").is_empty());
}

#[test]
fn indent_block_pads_lines_and_blanks_empty_ones() {
    assert_eq!(indent_block("a\r\n\n  b\n", 4), "    a\n\n      b\n");
    assert_eq!(indent_block("   \nx", 2), "\n  x");
    assert_eq!(indent_block("", 8), "");
}

fn hook(name: &str, phase: &str, enabled: bool, code: &str, scope: Option<&str>) -> DeliveryHook {
    DeliveryHook {
        name: name.to_string(),
        phase: phase.to_string(),
        enabled,
        code: code.to_string(),
        scope: scope.map(|s| s.to_string()),
    }
}

#[test]
fn weave_hooks_wraps_enabled_hooks_of_phase() {
    let hooks = vec![
        hook("fix\nmenu", "init", true, "x = 1\n\tif x:\n\t\tpass", None),
        hook("off", "init", false, "y = 2", None),
        hook("early one", "early", true, "z = 3", None),
        hook("blank", "init", true, "   ", None),
    ];
    let mut out = String::from("HEAD\n");
    weave_hooks(&mut out, &hooks, "init");
    assert_eq!(
        out,
        "HEAD\n    # --- RenForge user hook: fix menu ---\n    try:\n        x = 1\n            if x:\n                pass\n    except Exception:\n        pass\n"
    );
    let mut early = String::new();
    weave_hooks(&mut early, &hooks, "early");
    assert_eq!(early, "    # --- RenForge user hook: early one ---\n    try:\n        z = 3\n    except Exception:\n        pass\n");
}

fn record(block_type: &str, original: &str, translation: &str, channel: Option<&str>, alts: Option<&str>, status: &str) -> DeliveryRecord {
    DeliveryRecord {
        block_type: block_type.to_string(),
        original: original.to_string(),
        translation: translation.to_string(),
        channel: channel.map(|s| s.to_string()),
        alt_texts: alts.map(|s| s.to_string()),
        status: status.to_string(),
    }
}

fn sample_records() -> Vec<DeliveryRecord> {
    vec![
        record("dialogue", "Hello [mc]", "Привет [mc]", None, None, "translated"),
        record("ui", "Start", "Старт", None, None, "outdated"),
        record("dialogue", "Bye [a]", "Пока [b]", None, None, "translated"),
        record("dialogue", "Same", "Same", None, None, "translated"),
        record("dialogue", "Hello [mc]", "Другое", None, None, "translated"),
        record("menu", "Go", "Иди", Some(" both "), None, "translated"),
        record("dialogue", "Yes", "Да", None, Some("[\"Yeah\",\"\",\"Yes\"]"), "translated"),
        record("dialogue", "", "Пусто", None, None, "translated"),
    ]
}

fn pairs(v: &[(&str, &str)]) -> Vec<(String, String)> {
    v.iter().map(|(a, b)| (a.to_string(), b.to_string())).collect()
}

#[test]
fn plan_delivery_routes_dedups_and_guards() {
    let m = plan_delivery(&sample_records());
    assert_eq!(
        m.say,
        pairs(&[("Hello [mc]", "Привет [mc]"), ("Go", "Иди"), ("Yes", "Да"), ("Yeah", "Да")])
    );
    assert_eq!(m.ui, pairs(&[("Start", "Старт"), ("Go", "Иди")]));
    assert_eq!(m.review, vec!["Start".to_string()]);
    assert_eq!(m.skipped_bad, 1);
}

#[test]
fn plan_delivery_explicit_channels() {
    let recs = vec![
        record("dialogue", "A", "А", Some("ui"), None, "translated"),
        record("python", "B", "Б", Some("say"), None, "translated"),
        record("screen", "C", "В", Some("unknown"), None, "translated"),
    ];
    let m = plan_delivery(&recs);
    assert_eq!(m.say, pairs(&[("B", "Б")]));
    assert_eq!(m.ui, pairs(&[("A", "А"), ("C", "В")]));
}

#[test]
fn plan_delivery_alt_needing_missing_var_is_skipped() {
    let recs = vec![record("dialogue", "Hi [n]", "Прив [n]", None, Some("[\"Hi there\",\"Hey [n]\"]"), "translated")];
    let m = plan_delivery(&recs);
    assert_eq!(m.say, pairs(&[("Hi [n]", "Прив [n]"), ("Hey [n]", "Прив [n]")]));
}

#[test]
fn build_runtime_rpy_without_rows_is_an_error() {
    let r = build_runtime_rpy(&Vec::new(), "russian", false, &[]);
    assert_eq!(r.err(), Some(NO_TRANSLATIONS.to_string()));
}

#[test]
fn build_runtime_rpy_counts_and_layout() {
    let (text, counts) = build_runtime_rpy(&sample_records(), "russian", false, &[]).unwrap();
    assert_eq!(counts.say, 4);
    assert_eq!(counts.ui, 2);
    assert_eq!(counts.review, 1);
    assert_eq!(counts.skipped_bad, 1);
    assert!(text.starts_with(
        "# RenForge generated translations (runtime, crash-safe)\npython early:\n    _renforge_say_map = {\n        u\"Hello [mc]\": u\"Привет [mc]\",\n"
    ));
    assert!(text.contains("    _renforge_ui_map = {\n        u\"Start\": u\"Старт\",\n        u\"Go\": u\"Иди\",\n    }\n"));
    assert!(text.contains("init 1000 python:\n"));
    assert!(!text.contains("RenForge user hook"));
}

#[test]
fn build_runtime_rpy_weaves_hooks_in_both_phases() {
    let hooks = vec![hook("h1", "early", true, "a = 1", None), hook("h2", "init", true, "b = 2", None)];
    let (text, _) = build_runtime_rpy(&sample_records(), "french", true, &hooks).unwrap();
    assert!(text.contains("    # --- RenForge user hook: h1 ---\n    try:\n        a = 1\n"));
    assert!(text.contains("    # --- RenForge user hook: h2 ---\n    try:\n        b = 2\n"));
    let early_at = text.find("user hook: h1").unwrap();
    let init_at = text.find("init 1000 python:").unwrap();
    let late_at = text.find("user hook: h2").unwrap();
    assert!(early_at < init_at && init_at < late_at);
}

#[test]
fn unreadable_alternatives_are_ignored() {
    let recs = vec![
        record("dialogue", "One", "Один", None, Some("not json"), "translated"),
        record("dialogue", "Two", "Два", None, Some("[1, 2]"), "translated"),
        record("ui", "Three", "Три", None, Some("[\"3\", \"three\"]"), "translated"),
    ];
    let m = plan_delivery(&recs);
    assert_eq!(m.say, pairs(&[("One", "Один"), ("Two", "Два")]));
    assert_eq!(m.ui, pairs(&[("Three", "Три"), ("3", "Три"), ("three", "Три")]));
}

#[test]
fn hooks_split_then_load_keeps_fields_and_scopes() {
    let hooks = vec![
        hook("g1", "init", true, "x", Some("global")),
        hook("p1", "early", false, "y", Some("project")),
        hook("p2", "init", true, "z", None),
        hook("g2", "early", true, "w", Some("global")),
    ];
    let (g, p) = split_hooks(hooks);
    assert_eq!(g.iter().map(|h| h.name.as_str()).collect::<Vec<_>>(), vec!["g1", "g2"]);
    assert_eq!(p.iter().map(|h| h.name.as_str()).collect::<Vec<_>>(), vec!["p1", "p2"]);
    let loaded = load_delivery_hooks(g, p);
    let seen: Vec<(String, String, bool, String, Option<String>)> = loaded
        .iter()
        .map(|h| (h.name.clone(), h.phase.clone(), h.enabled, h.code.clone(), h.scope.clone()))
        .collect();
    assert_eq!(
        seen,
        vec![
            ("g1".to_string(), "init".to_string(), true, "x".to_string(), Some("global".to_string())),
            ("g2".to_string(), "early".to_string(), true, "w".to_string(), Some("global".to_string())),
            ("p1".to_string(), "early".to_string(), false, "y".to_string(), Some("project".to_string())),
            ("p2".to_string(), "init".to_string(), true, "z".to_string(), Some("project".to_string())),
        ]
    );
}
