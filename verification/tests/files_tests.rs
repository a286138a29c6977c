use renforge::files::{
    check_text_file, classify_scanned, detect_lang_suffix, explorer_path, in_overlay_or_cache, is_font_ext,
    is_image_ext, is_listed_audio_ext, is_mod_font_file, is_own_font, plan_game_files, script_stem, sort_scanned,
    ScanKind, ACCESS_DENIED,
};
use renforge::llm::{llm_answer, llm_bearer, llm_endpoint, LlmReply, NO_API_URL};
use renforge::tm::{check_tm_entry, like_pattern, tm_contribution, tm_fill_candidates, tm_search_pattern, TM_ENTRY_INCOMPLETE};

fn s(v: &str) -> String {
    v.to_string()
}

#[test]
fn language_suffixes() {
    assert_eq!(detect_lang_suffix("game/script_RU"), Some(s("RU")));
    assert_eq!(detect_lang_suffix("chapter_pt-br"), Some(s("PT-BR")));
    assert_eq!(detect_lang_suffix("ui_zh-hant"), Some(s("ZH-HANT")));
    assert_eq!(detect_lang_suffix("intro_en"), Some(s("EN")));
    assert_eq!(detect_lang_suffix("menu"), None);
    assert_eq!(detect_lang_suffix("dir_ru/menu"), None);
}

#[test]
fn text_file_extensions() {
    assert_eq!(check_text_file("a.JSON"), Ok(()));
    assert_eq!(check_text_file("x/y.pot"), Ok(()));
    assert_eq!(check_text_file("a.txt"), Err(s(ACCESS_DENIED)));
}

#[test]
fn script_stems() {
    assert_eq!(script_stem(" dir/script.rpyc "), "dir/script");
    assert_eq!(script_stem("a.rpy"), "a");
    assert_eq!(script_stem("b.txt"), "b.txt");
}

#[test]
fn scanned_paths() {
    assert_eq!(classify_scanned("C:/g/game/tl/russian/a.rpy", "russian"), Some(ScanKind::Tl));
    assert_eq!(classify_scanned("C:\\g\\game\\tl\\russian\\a.rpy", "russian"), Some(ScanKind::Tl));
    assert_eq!(classify_scanned("/g/game/tl/french/a.rpy", "russian"), Some(ScanKind::Rpy));
    assert_eq!(classify_scanned("/g/game/a.rpyc", "russian"), Some(ScanKind::Rpyc));
    assert_eq!(classify_scanned("/g/game/tl/russian/a.rpyc", "russian"), None);
    assert_eq!(classify_scanned("/g/game/x.rpa", "russian"), Some(ScanKind::Rpa));
    assert_eq!(classify_scanned("/g/game/x.png", "russian"), None);
    let paths = vec![s("/g/game/a.rpy"), s("/g/game/b.rpa"), s("/g/game/tl/ru/c.rpy"), s("/g/game/a.rpyc")];
    let pf = sort_scanned(&paths, "ru");
    assert_eq!(pf.rpa_files, vec![s("/g/game/b.rpa")]);
    assert_eq!(pf.rpyc_files, vec![s("/g/game/a.rpyc")]);
    assert_eq!(pf.rpy_files, vec![s("/g/game/a.rpy")]);
    assert_eq!(pf.tl_files, vec![s("/g/game/tl/ru/c.rpy")]);
}

#[test]
fn game_file_list() {
    let files = vec![
        (s("script.rpyc"), s("rpyc")),
        (s("script.rpy"), s("rpy")),
        (s("tl/russian/x.rpy"), s("rpy")),
        (s("renforge_translations.rpy"), s("rpy")),
        (s("00_renforge_patch.rpyc"), s("rpyc")),
        (s("ch_ru.rpyc"), s("rpyc")),
        (s("sub/other.rpyc"), s("rpyc")),
        (s("img.png"), s("png")),
    ];
    let stats = vec![(s("script.rpy"), 10, 4)];
    let out = plan_game_files(&files, &stats);
    let seen: Vec<(String, String, i32, i32, Option<String>)> =
        out.into_iter().map(|g| (g.rel_path, g.status, g.total, g.translated, g.lang)).collect();
    assert_eq!(
        seen,
        vec![
            (s("ch_ru.rpy"), s("lang"), 0, 0, Some(s("RU"))),
            (s("script.rpy"), s("extracted"), 10, 4, None),
            (s("sub/other.rpy"), s("empty"), 0, 0, None),
        ]
    );
}

#[test]
fn file_kinds() {
    assert!(is_own_font("renforge_font.ttf"));
    assert!(is_own_font("renforge_font_3.ttf"));
    assert!(!is_own_font("fonts/renforge_font_3.ttf"));
    assert!(is_mod_font_file("renforge_font_0.ttf"));
    assert!(!is_mod_font_file("renforge_font_0.otf"));
    assert!(is_image_ext("webp") && !is_image_ext("gif"));
    assert!(is_listed_audio_ext("wav") && !is_listed_audio_ext("opus"));
    assert!(is_font_ext("otf") && !is_font_ext("woff"));
    assert!(in_overlay_or_cache(&vec![s("game"), s("cache"), s("x.png")]));
    assert!(!in_overlay_or_cache(&vec![s("game"), s("tls"), s("x.png")]));
}

#[test]
fn explorer_paths() {
    assert_eq!(explorer_path("C:/Games/x.exe"), "C:\\Games\\x.exe");
    assert_eq!(explorer_path("\\\\?\\C:/a"), "C:\\a");
    assert_eq!(explorer_path("a\\\\?\\b"), "a\\\\?\\b");
}

#[test]
fn llm_endpoints() {
    assert_eq!(llm_endpoint(" https://api.openai.com/v1// "), Ok(s("https://api.openai.com/v1/chat/completions")));
    assert_eq!(llm_endpoint("http://x/chat/completions/"), Ok(s("http://x/chat/completions")));
    assert_eq!(llm_endpoint("  / "), Err(s(NO_API_URL)));
    assert_eq!(llm_endpoint(""), Err(s(NO_API_URL)));
    assert_eq!(llm_bearer(" key "), Some(s("key")));
    assert_eq!(llm_bearer("  "), None);
}

fn reply(has_error: bool, msg: Option<&str>, content: Option<&str>) -> Option<LlmReply> {
    Some(LlmReply { has_error, error_message: msg.map(|m| m.to_string()), content: content.map(|c| c.to_string()) })
}

#[test]
fn llm_answers() {
    let long = "x".repeat(400);
    assert_eq!(llm_answer(502, &long, &None), Err(format!("Некорректный ответ API (HTTP 502): {}", "x".repeat(300))));
    assert_eq!(llm_answer(500, "oops", &None), Err(s("Некорректный ответ API (HTTP 500): oops")));
    assert_eq!(llm_answer(401, "{}", &reply(true, None, None)), Err(s("API: неизвестная ошибка API")));
    assert_eq!(llm_answer(401, "{}", &reply(true, Some("bad key"), Some("ignored"))), Err(s("API: bad key")));
    assert_eq!(llm_answer(200, "{}", &reply(false, None, Some("готово"))), Ok(s("готово")));
    assert_eq!(llm_answer(200, "{}", &reply(false, None, None)), Err(s("Ответ без choices[0].message.content (HTTP 200)")));
}

#[test]
fn memory_contribution() {
    let pairs = vec![(s("Hi"), s("Привет")), (s("  "), s("пусто")), (s("Bye"), s("Пока"))];
    assert_eq!(tm_contribution("russian", &pairs), vec![(s("Hi"), s("Привет")), (s("Bye"), s("Пока"))]);
    assert!(tm_contribution("  ", &pairs).is_empty());
}

#[test]
fn memory_fill() {
    let tm = vec![(s("Hi"), s("Привет")), (s("Yes"), s("Да")), (s("Hi"), s("Здравствуй"))];
    let rows = vec![(s("1"), s("Hi")), (s("2"), s("No")), (s("3"), s("Yes"))];
    assert_eq!(
        tm_fill_candidates(&tm, &rows),
        vec![(s("1"), s("Hi"), s("Здравствуй")), (s("3"), s("Yes"), s("Да"))]
    );
    assert!(tm_fill_candidates(&Vec::new(), &rows).is_empty());
}

#[test]
fn memory_search_and_entries() {
    assert_eq!(like_pattern("a b"), "%a b%");
    assert_eq!(tm_search_pattern("  hello "), Some(s("%hello%")));
    assert_eq!(tm_search_pattern("   "), None);
    assert_eq!(check_tm_entry("russian", "Hi"), Ok(()));
    assert_eq!(check_tm_entry(" ", "Hi"), Err(s(TM_ENTRY_INCOMPLETE)));
    assert_eq!(check_tm_entry("russian", "\t"), Err(s(TM_ENTRY_INCOMPLETE)));
}
