use renforge::export::{
    build_csv, build_json, build_po, export_file_components, export_start, has_room_for_copy, mod_readme, po_escape, safe_path_components,
    ExportMode, ExportRow, ExportStart,
};
use renforge::string_files::{group_export_rows, sort_by_line, NO_EXPORT_ROWS};

fn row(id: &str, file: &str, line: i64, who: Option<&str>, original: &str, translation: &str, status: &str) -> ExportRow {
    ExportRow {
        id: id.to_string(),
        file: file.to_string(),
        line,
        who: who.map(|s| s.to_string()),
        original: original.to_string(),
        translation: translation.to_string(),
        status: status.to_string(),
    }
}

#[test]
fn po_escape_specials() {
    assert_eq!(po_escape("a\"b\\c\nd\te\rf"), "a\\\"b\\\\c\\nd\\te\\rf");
    assert!(!po_escape("x\ny\rz").contains('\n'));
    assert_eq!(po_escape("plain"), "plain");
}

#[test]
fn build_po_header_and_entry() {
    let rows = vec![
        row("id1", "script.rpy", 12, Some("Eileen"), "Hi \"there\"", "Привет", "outdated"),
        row("id2", "a\nb.rpy", -3, Some(""), "x", "", "translated"),
    ];
    let expected = "msgid \"\"\nmsgstr \"\"\n\"Project-Id-Version: RenForge\\n\"\n\"Language: russian\\n\"\n\"Content-Type: text/plain; charset=UTF-8\\n\"\n\n\
#: script.rpy:12\n#. who: Eileen\n#, fuzzy\nmsgctxt \"id1\"\nmsgid \"Hi \\\"there\\\"\"\nmsgstr \"Привет\"\n\n\
#: a b.rpy:-3\nmsgctxt \"id2\"\nmsgid \"x\"\nmsgstr \"\"\n\n";
    assert_eq!(build_po(&rows, "russian"), expected);
}

#[test]
fn build_csv_quotes_breaks_and_formulas() {
    let rows = vec![
        row("a", "f", 1, None, "say \"hi\"\nnow", "=1+1", "translated"),
        row("b", "f", 2, None, "x", "-minus", "translated"),
        row("c", "f", 3, None, "y", "plain", "translated"),
    ];
    assert_eq!(
        build_csv(&rows),
        "ID;Original;Translation\n\"a\";\"say \"\"hi\"\"[BR]now\";\"'=1+1\"\n\"b\";\"x\";\"'-minus\"\n\"c\";\"y\";\"plain\"\n"
    );
}

#[test]
fn build_csv_never_starts_a_cell_with_formula() {
    for t in ["+x", "@y", "=z", "-w"] {
        let out = build_csv(&vec![row("i", "f", 0, None, "o", t, "translated")]);
        let line = out.lines().nth(1).unwrap();
        assert!(line.ends_with(&format!("\"'{}\"", t)));
    }
}

#[test]
fn build_json_pretty_records() {
    let rows = vec![row("a", "f", 1, None, "x \"q\"", "y", "translated")];
    assert_eq!(
        build_json(&rows),
        Ok("[\n  {\n    \"id\": \"a\",\n    \"original\": \"x \\\"q\\\"\",\n    \"translation\": \"y\"\n  }\n]".to_string())
    );
    assert_eq!(build_json(&[]), Ok("[]".to_string()));
}

#[test]
fn export_paths_stay_inside() {
    assert_eq!(safe_path_components("../a/./b\\c//d.rpy"), vec!["a", "b", "c", "d.rpy"]);
    assert_eq!(safe_path_components("../../etc/passwd"), vec!["etc", "passwd"]);
    assert!(safe_path_components("").is_empty());
}

#[test]
fn room_for_copy_keeps_five_percent_margin() {
    assert!(has_room_for_copy(100, 105));
    assert!(!has_room_for_copy(100, 104));
    assert!(has_room_for_copy(0, 0));
    assert!(!has_room_for_copy(u64::MAX, u64::MAX - 1));
    assert!(has_room_for_copy(u64::MAX, u64::MAX));
}

#[test]
fn mod_readme_names_target() {
    let r = mod_readme("russian");
    assert!(r.starts_with("RenForge translation (russian)\r\n\r\nContents: translation files (overlay), not the full game.\r\n"));
    assert!(r.ends_with("RenForge\r\n"));
}

#[test]
fn export_start_decisions() {
    assert!(matches!(export_start(true, false, "full"), ExportStart::Exists));
    assert!(matches!(export_start(false, false, "full"), ExportStart::Run { clear_first: false, mode: Ok(ExportMode::Full) }));
    assert!(matches!(export_start(true, true, "mod"), ExportStart::Run { clear_first: true, mode: Ok(ExportMode::Mod) }));
    match export_start(false, true, "zip") {
        ExportStart::Run { clear_first, mode: Err(e) } => {
            assert!(!clear_first);
            assert_eq!(e, "неизвестный режим экспорта: zip");
        },
        _ => panic!("expected an unknown mode error"),
    }
}

#[test]
fn group_export_rows_empty_is_error() {
    match group_export_rows(Vec::new()) {
        Err(e) => assert_eq!(e, NO_EXPORT_ROWS),
        Ok(_) => panic!("expected an error"),
    }
}

#[test]
fn group_export_rows_files_in_order_lines_sorted() {
    let rows = vec![
        row("1", "b.rpy", 3, None, "b3", "", ""),
        row("2", "a.rpy", 2, None, "a2", "", ""),
        row("3", "  ", 1, None, "u1", "", ""),
        row("4", "b.rpy", 1, None, "b1", "", ""),
        row("5", "a.rpy", 2, None, "a2bis", "", ""),
        row("6", "", 9, None, "u9", "", ""),
    ];
    let groups = match group_export_rows(rows) {
        Ok(g) => g,
        Err(_) => panic!("expected groups"),
    };
    let names: Vec<&str> = groups.iter().map(|g| g.0.as_str()).collect();
    assert_eq!(names, vec!["_unknown", "a.rpy", "b.rpy"]);
    let ids: Vec<Vec<&str>> = groups.iter().map(|g| g.1.iter().map(|r| r.id.as_str()).collect()).collect();
    assert_eq!(ids, vec![vec!["3", "6"], vec!["2", "5"], vec!["4", "1"]]);
}

#[test]
fn sort_by_line_is_stable() {
    let rows = vec![
        row("a", "f", 5, None, "", "", ""),
        row("b", "f", 1, None, "", "", ""),
        row("c", "f", 5, None, "", "", ""),
        row("d", "f", -2, None, "", "", ""),
        row("e", "f", 1, None, "", "", ""),
    ];
    let ids: Vec<String> = sort_by_line(rows).into_iter().map(|r| r.id).collect();
    assert_eq!(ids, vec!["d", "b", "e", "a", "c"]);
}

#[test]
fn export_file_locations() {
    assert_eq!(export_file_components("po", "game/script.rpy", "po"), vec!["po", "game", "script.rpy.po"]);
    assert_eq!(export_file_components("json", "..\\a\\.\\b.rpy", "json"), vec!["json", "a", "b.rpy.json"]);
    assert_eq!(export_file_components("csv", "../", "csv"), vec!["csv.csv"]);
}
