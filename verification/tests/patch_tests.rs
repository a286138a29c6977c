use renforge::fonts::{covered_scripts, font_scripts, script_probes, sort_fonts};
use renforge::headless::default_font_remaps;
use renforge::models::{FontInfo, FontRemap};
use renforge::patch::{placed_fonts, plan_font_copies, renforge_patch_text};
use renforge::templates::{FONT_MAP_CLOSE, FONT_MAP_OPEN, PATCH_HEAD_CLOSE, PATCH_HEAD_OPEN};

fn remap(source: &str, target: Option<&str>) -> FontRemap {
    FontRemap { source: source.to_string(), target: target.map(|s| s.to_string()) }
}

fn font(rel: &str, scripts: &[&str]) -> FontInfo {
    FontInfo {
        rel_path: rel.to_string(),
        name: rel.rsplit('/').next().unwrap().to_string(),
        scripts: scripts.iter().map(|s| s.to_string()).collect(),
    }
}

#[test]
fn font_copies_are_made_once_per_source() {
    let remaps = vec![
        remap("fonts/a.ttf", Some("/f/x.ttf")),
        remap("fonts/b.ttf", Some("/f/missing.ttf")),
        remap("fonts/c.ttf", None),
        remap("fonts/d.ttf", Some("/f/x.ttf")),
    ];
    let plan = plan_font_copies(&remaps, &vec![true, false, false, true], &Some("/engine/DejaVuSans.ttf".to_string()));
    assert_eq!(
        plan.copies,
        vec![
            ("/f/x.ttf".to_string(), "renforge_font_0.ttf".to_string()),
            ("/engine/DejaVuSans.ttf".to_string(), "renforge_font_1.ttf".to_string()),
        ]
    );
    assert_eq!(
        plan.entries,
        vec![
            ("fonts/a.ttf".to_string(), 0),
            ("fonts/b.ttf".to_string(), 1),
            ("fonts/c.ttf".to_string(), 1),
            ("fonts/d.ttf".to_string(), 0),
        ]
    );
    let placed = placed_fonts(&plan, &vec![true, false]);
    assert_eq!(
        placed,
        vec![
            ("fonts/a.ttf".to_string(), "renforge_font_0.ttf".to_string()),
            ("fonts/d.ttf".to_string(), "renforge_font_0.ttf".to_string()),
        ]
    );
}

#[test]
fn font_plan_without_fallback_skips_unresolved() {
    let remaps = vec![remap("a.ttf", None), remap("b.ttf", Some("/t.ttf")), remap("c.ttf", Some("/u.ttf"))];
    let plan = plan_font_copies(&remaps, &vec![false, false, true], &None);
    assert_eq!(plan.copies, vec![("/u.ttf".to_string(), "renforge_font_0.ttf".to_string())]);
    assert_eq!(plan.entries, vec![("c.ttf".to_string(), 0)]);
}

#[test]
fn font_plan_many_sources_number_names() {
    let remaps: Vec<FontRemap> = (0..12).map(|i| remap(&format!("g{}.ttf", i), Some(&format!("/s{}.ttf", i)))).collect();
    let plan = plan_font_copies(&remaps, &vec![true; 12], &None);
    assert_eq!(plan.copies[11].1, "renforge_font_11.ttf");
    assert_eq!(plan.copies.len(), 12);
}

#[test]
fn patch_text_without_fonts() {
    let t = renforge_patch_text("russian", &Vec::new());
    assert_eq!(t, format!("{}russian{}", PATCH_HEAD_OPEN, PATCH_HEAD_CLOSE));
    assert!(t.contains("_rf_bad = (_rf_cur == \"russian\")"));
    assert!(t.starts_with("\ninit -999 python:\n"));
}

#[test]
fn patch_text_with_font_map() {
    let placed = vec![
        ("fonts/a\"b.ttf".to_string(), "renforge_font_0.ttf".to_string()),
        ("c\\d.otf".to_string(), "renforge_font_1.ttf".to_string()),
    ];
    let t = renforge_patch_text("ru", &placed);
    let expected = format!(
        "{}ru{}{}        u\"fonts/a\\\"b.ttf\": u\"renforge_font_0.ttf\",\n        u\"c\\\\d.otf\": u\"renforge_font_1.ttf\",\n{}",
        PATCH_HEAD_OPEN, PATCH_HEAD_CLOSE, FONT_MAP_OPEN, FONT_MAP_CLOSE
    );
    assert_eq!(t, expected);
    assert!(t.contains("    _renforge_font_map = {\n"));
    assert!(t.contains("config.font_replacement_map[(_src, _b, _i)] = (_dst, _b, _i)"));
}

#[test]
fn probe_table_shape() {
    let p = script_probes();
    assert_eq!(p.len(), 26);
    assert_eq!(p[0], ("latin", 'A', 'z'));
    assert_eq!(p[2], ("cyrillic", '\u{0410}', '\u{044F}'));
    assert_eq!(p[25], ("korean", '\u{AC00}', '\u{D55C}'));
}

#[test]
fn covered_scripts_needs_both_letters() {
    let glyphs = vec![(true, true), (true, false), (true, true), (false, true)];
    assert_eq!(covered_scripts(&glyphs), vec!["latin".to_string(), "cyrillic".to_string()]);
    assert!(covered_scripts(&Vec::new()).is_empty());
    let all = vec![(true, true); 26];
    let names = covered_scripts(&all);
    assert_eq!(names.len(), 26);
    assert_eq!(names[23], "japanese");
}

#[test]
fn font_scripts_of_non_font_data_is_empty() {
    assert!(font_scripts(b"definitely not a font").is_empty());
    assert!(font_scripts(&[]).is_empty());
}

#[test]
fn sort_fonts_by_path_stable() {
    let fonts = vec![font("b/z.ttf", &[]), font("a.ttf", &["latin"]), font("b/z.ttf", &["cyrillic"]), font("B.ttf", &[])];
    let out = sort_fonts(fonts);
    let seen: Vec<(String, Vec<String>)> = out.into_iter().map(|f| (f.rel_path, f.scripts)).collect();
    assert_eq!(
        seen,
        vec![
            ("B.ttf".to_string(), vec![]),
            ("a.ttf".to_string(), vec!["latin".to_string()]),
            ("b/z.ttf".to_string(), vec![]),
            ("b/z.ttf".to_string(), vec!["cyrillic".to_string()]),
        ]
    );
}

#[test]
fn default_remaps_take_fonts_without_cyrillic() {
    let fonts = vec![font("a.ttf", &["latin"]), font("b.ttf", &["latin", "cyrillic"]), font("c.otf", &[])];
    let r = default_font_remaps(&fonts);
    let seen: Vec<(String, Option<String>)> = r.into_iter().map(|m| (m.source, m.target)).collect();
    assert_eq!(seen, vec![("a.ttf".to_string(), None), ("c.otf".to_string(), None)]);
}
