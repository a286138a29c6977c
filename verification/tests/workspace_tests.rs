use renforge::characters::{defines_from_script, names_from_rows, strip_renpy_tags};
use renforge::headless::stats_summary;
use renforge::models::{DbEntry, FileStats, PairInfo};
use renforge::pairs::{active_db_file, order_pairs, pair_flags, pair_name, propagation_pairs, sanitize_token};
use renforge::uncovered::{parse_uncovered, unescape_log};

#[test]
fn sanitize_and_pair_names() {
    assert_eq!(sanitize_token(" English (US) "), "english__us_");
    assert_eq!(sanitize_token("   "), "x");
    assert_eq!(sanitize_token("pt-BR"), "pt_br");
    assert_eq!(pair_name("English", "Русский"), "english-русский");
    assert_eq!(pair_name("", "fr"), "x-fr");
}

#[test]
fn pair_name_has_exactly_one_dash_between_tokens() {
    let n = pair_name("a-b", "c d");
    assert_eq!(n, "a_b-c_d");
    assert_eq!(n.matches('-').count(), 1);
}

#[test]
fn active_database_pointer() {
    assert_eq!(active_db_file(&Some(" english-russian \n".to_string())), Some("english-russian.db".to_string()));
    assert_eq!(active_db_file(&Some("  ".to_string())), None);
    assert_eq!(active_db_file(&None), None);
}

#[test]
fn pair_flag_rules() {
    assert_eq!(pair_flags("english-russian", false, "english-russian", &Some("".to_string())), (true, false));
    assert_eq!(pair_flags("english-russian", false, "x", &Some("english-russian".to_string())), (false, true));
    assert_eq!(pair_flags("", true, "", &Some("".to_string())), (true, true));
    assert_eq!(pair_flags("", true, "english-russian", &None), (false, false));
}

fn info(pair: &str, total: i32, active: bool) -> PairInfo {
    PairInfo {
        pair: pair.to_string(),
        source: String::new(),
        target: String::new(),
        total,
        translated: 0,
        is_active: active,
        is_legacy: false,
        is_built: false,
        is_dirty: false,
    }
}

#[test]
fn pairs_listed_active_first_then_by_size() {
    let infos = vec![info("empty", 0, true), info("five", 5, false), info("ten", 10, false), info("act", 3, true), info("five2", 5, false)];
    let out = order_pairs(&infos);
    let names: Vec<&str> = out.iter().map(|p| p.pair.as_str()).collect();
    assert_eq!(names, vec!["act", "ten", "five", "five2"]);
}

fn entry(original: &str, translation: &str, status: &str) -> DbEntry {
    DbEntry {
        id: "i".to_string(),
        block_type: "dialogue".to_string(),
        file_path: "s.rpy".to_string(),
        line_number: 1,
        who: None,
        original: original.to_string(),
        translation: translation.to_string(),
        status: status.to_string(),
        prefix: None,
        prev_original: None,
        channel: None,
        confirmed: None,
        source: None,
        alt_texts: None,
    }
}

#[test]
fn propagation_last_translation_wins() {
    let entries = vec![
        entry("Hi", "Привет", "translated"),
        entry("Bye", "", "translated"),
        entry("Yes", "Да", "outdated"),
        entry("Hi", "Здравствуй", "translated"),
        entry("Ok", "Ладно", "translated"),
    ];
    let mut r = propagation_pairs(&entries);
    r.sort();
    assert_eq!(r, vec![("Hi".to_string(), "Здравствуй".to_string()), ("Ok".to_string(), "Ладно".to_string())]);
}

#[test]
fn character_names() {
    assert_eq!(strip_renpy_tags("{color=#f00}Eileen{/color}"), "Eileen");
    assert_eq!(strip_renpy_tags("a}b{c"), "ab");
    let rows = vec![("e".to_string(), "{b}Eileen{/b}".to_string()), ("n".to_string(), "{i}{/i}".to_string())];
    assert_eq!(names_from_rows(&rows), vec![("e".to_string(), "Eileen".to_string())]);
}

#[test]
fn character_defines_in_scripts() {
    let content = "define e = Character(\"Eileen\", color=\"#c8ffc8\")\n  define m = Character('{b}Mary{/b}')\n# define x = Character(\"X\")\ndefine s = Character(None)\ndefine t = \"Character\"\n";
    assert_eq!(
        defines_from_script(content),
        vec![("e".to_string(), "Eileen".to_string()), ("m".to_string(), "Mary".to_string()), ("t".to_string(), "Character".to_string())]
    );
}

#[test]
fn log_unescaping() {
    assert_eq!(unescape_log("a\\nb\\\\c\\x\\"), "a\nb\\c\\x\\");
    assert_eq!(unescape_log("\\t\\r"), "\t\r");
}

#[test]
fn uncovered_lines_dedup_and_lookup() {
    let content = "say\tHello\\nWorld\nui\tStart\nsay\tHello\\nWorld\nbadline\n\nui\tNew\tthing\n";
    let db = vec![("Hello\nWorld".to_string(), true), ("Start".to_string(), false)];
    let out = parse_uncovered(content, &db);
    let seen: Vec<(String, String, bool, bool)> = out.into_iter().map(|e| (e.chan, e.text, e.in_db, e.translated)).collect();
    assert_eq!(
        seen,
        vec![
            ("say".to_string(), "Hello\nWorld".to_string(), true, true),
            ("ui".to_string(), "Start".to_string(), true, false),
            ("ui".to_string(), "New\tthing".to_string(), false, false),
        ]
    );
}

#[test]
fn workspace_summary_line() {
    let stats = vec![
        FileStats { total: 10, translated: 4, outdated: 1 },
        FileStats { total: 5, translated: 5, outdated: 0 },
    ];
    assert_eq!(stats_summary(&stats), "файлов: 2, строк всего: 15, переведено: 9");
    assert_eq!(stats_summary(&Vec::new()), "файлов: 0, строк всего: 0, переведено: 0");
}
