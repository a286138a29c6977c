//! The game's files: script files and their language suffixes, the files a
//! project scan sorts out, fonts, images and audio.
use vstd::prelude::*;
use crate::models::ProjectFiles;
use crate::order::{find_slot, lemma_insert_sorted, strictly_sorted};
use crate::text::{
    chars_of, extend_str, has_infix, has_prefix, has_suffix, last_piece, last_piece_exec, lowercase, slice_chars, str_ends_with, str_eq, str_starts_with, str_to_lowercase, string_of, string_views, trim, trim_exec,
};

verus! {

// ---------------------------------------------------------------------------
// Language suffixes
// ---------------------------------------------------------------------------

/// The language suffixes a script file name may carry, longest first where
/// one is a prefix of another, and their upper-case display forms.
pub const LANG_SUFFIXES: [&'static str; 25] = [
    "pt-br", "zh-hant", "de", "es", "fr", "jp", "kr", "pl", "ru", "zh", "it", "nl", "sv", "cs",
    "hu", "tr", "ar", "th", "vi", "id", "uk", "ro", "bg", "hr", "en",
];

pub const LANG_CODES: [&'static str; 25] = [
    "PT-BR", "ZH-HANT", "DE", "ES", "FR", "JP", "KR", "PL", "RU", "ZH", "IT", "NL", "SV", "CS",
    "HU", "TR", "AR", "TH", "VI", "ID", "UK", "RO", "BG", "HR", "EN",
];

/// The first suffix from position `i` of the list that `base` ends with (as
/// `_<suffix>`), by its display form.
pub open spec fn suffix_from(base: Seq<char>, i: int) -> Option<Seq<char>>
    decreases 25 - i,
{
    if i < 0 || i >= 25 {
        None
    } else if has_suffix(base, seq!['_'] + LANG_SUFFIXES@[i]@) {
        Some(LANG_CODES@[i]@)
    } else {
        suffix_from(base, i + 1)
    }
}

/// The language a script's stem is marked with (`script_ru` is `RU`): the
/// file name, lower-cased, ends with `_` and a known suffix.
pub open spec fn lang_suffix(stem: Seq<char>) -> Option<Seq<char>> {
    suffix_from(lowercase(last_piece(stem, '/')), 0)
}

/// The language suffix of a script's stem, if any (e.g. `script_ru` -> `RU`).
pub fn detect_lang_suffix(stem: &str) -> (r: Option<String>)
    ensures
        match r {
            Some(c) => lang_suffix(stem@) == Some(c@),
            None => lang_suffix(stem@) is None,
        },
{
    let last = last_piece_exec(&chars_of(stem), '/');
    let base = str_to_lowercase(string_of(&last).as_str());
    let bv = chars_of(base.as_str());
    let mut i: usize = 0;
    while i < 25
        invariant
            i <= 25,
            bv@ == lowercase(last_piece(stem@, '/')),
            suffix_from(bv@, i as int) == suffix_from(bv@, 0),
        decreases 25 - i,
    {
        let mut pat: Vec<char> = Vec::new();
        pat.push('_');
        extend_str(&mut pat, LANG_SUFFIXES[i]);
        if crate::text::ends_with(&bv, &pat) {
            return Some(LANG_CODES[i].to_string());
        }
        i = i + 1;
    }
    None
}

// ---------------------------------------------------------------------------
// Script files of the game
// ---------------------------------------------------------------------------

/// A script file of the game with its status: "extracted" (rows in the
/// database), "lang" (another language's file), or "empty".
pub struct GameFileInfo {
    pub rel_path: String,
    pub status: String,
    pub total: i32,
    pub translated: i32,
    pub lang: Option<String>,
}

/// The key (`<stem>.rpy`) under which a file of `game/` is listed, or none for
/// files that are not scripts, overlay translations under `tl/`, and the
/// files the delivery writes.
pub open spec fn script_key(rel: Seq<char>, ext: Seq<char>) -> Option<Seq<char>> {
    let base = last_piece(rel, '/');
    if ext != "rpyc"@ && ext != "rpy"@ {
        None
    } else if has_prefix(rel, "tl/"@) || has_prefix(base, "renforge_"@) || base == "00_renforge_patch.rpy"@
        || base == "00_renforge_patch.rpyc"@ {
        None
    } else {
        let stem = if has_suffix(rel, ".rpyc"@) {
            rel.take(rel.len() - 5)
        } else if has_suffix(rel, ".rpy"@) {
            rel.take(rel.len() - 4)
        } else {
            rel
        };
        Some(stem + ".rpy"@)
    }
}

/// Counts of a file in the database: (total, translated), the later row
/// winning; (0, 0) when absent.
pub open spec fn stats_of(stats: Seq<(Seq<char>, i32, i32)>, key: Seq<char>) -> (i32, i32)
    decreases stats.len(),
{
    if stats.len() == 0 {
        (0, 0)
    } else if stats.last().0 == key {
        (stats.last().1, stats.last().2)
    } else {
        stats_of(stats.drop_last(), key)
    }
}

pub open spec fn stat_views(v: Seq<(String, i32, i32)>) -> Seq<(Seq<char>, i32, i32)> {
    v.map_values(|x: (String, i32, i32)| (x.0@, x.1, x.2))
}

pub open spec fn info_keys(v: Seq<GameFileInfo>) -> Seq<Seq<char>> {
    v.map_values(|i: GameFileInfo| i.rel_path@)
}

pub open spec fn info_view(i: GameFileInfo) -> (Seq<char>, Seq<char>, i32, i32, Option<Seq<char>>) {
    (
        i.rel_path@,
        i.status@,
        i.total,
        i.translated,
        match i.lang {
            Some(l) => Some(l@),
            None => None,
        },
    )
}

/// The listing of the file with key `key`.
pub open spec fn file_info(key: Seq<char>, stats: Seq<(Seq<char>, i32, i32)>) -> (Seq<char>, Seq<char>, i32, i32, Option<Seq<char>>) {
    let stem = key.take(key.len() - 4);
    let c = stats_of(stats, key);
    let lang = lang_suffix(stem);
    let status = if c.0 > 0 {
        "extracted"@
    } else if lang is Some {
        "lang"@
    } else {
        "empty"@
    };
    (key, status, c.0, c.1, lang)
}

/// A file with rows in the database is listed as extracted, whatever its
/// name's language suffix; a file without rows is another language's file
/// when its name carries a language suffix, and empty otherwise. The counts are
/// the database's.
pub proof fn law_file_status(key: Seq<char>, stats: Seq<(Seq<char>, i32, i32)>)
    ensures
        file_info(key, stats).2 > 0 ==> file_info(key, stats).1 == "extracted"@,
        file_info(key, stats).1 == "extracted"@ <==> file_info(key, stats).2 > 0,
        file_info(key, stats).1 == "lang"@ <==> (file_info(key, stats).2 <= 0 && file_info(key, stats).4 is Some),
        file_info(key, stats).1 == "empty"@ <==> (file_info(key, stats).2 <= 0 && file_info(key, stats).4 is None),
        file_info(key, stats).2 == stats_of(stats, key).0,
        file_info(key, stats).3 == stats_of(stats, key).1,
{
    reveal_strlit("extracted");
    reveal_strlit("lang");
    reveal_strlit("empty");
    assert("extracted"@.len() == 9 && "lang"@.len() == 4 && "empty"@.len() == 5);
}

fn script_key_exec(rel: &String, ext: &String) -> (r: Option<(String, String)>)
    ensures
        match r {
            Some(ks) => script_key(rel@, ext@) == Some(ks.0@) && ks.1@ == ks.0@.take(ks.0@.len() - 4),
            None => script_key(rel@, ext@) is None,
        },
{
    proof {
        reveal_strlit(".rpyc");
        reveal_strlit(".rpy");
    }
    if !(str_eq(ext.as_str(), "rpyc") || str_eq(ext.as_str(), "rpy")) {
        return None;
    }
    let rv = chars_of(rel.as_str());
    let base = string_of(&last_piece_exec(&rv, '/'));
    if str_starts_with(rel.as_str(), "tl/") || str_starts_with(base.as_str(), "renforge_") || str_eq(
        base.as_str(),
        "00_renforge_patch.rpy",
    ) || str_eq(base.as_str(), "00_renforge_patch.rpyc") {
        return None;
    }
    let n = rv.len();
    let stem: Vec<char> = if str_ends_with(rel.as_str(), ".rpyc") {
        slice_chars(&rv, 0, n - 5)
    } else if str_ends_with(rel.as_str(), ".rpy") {
        slice_chars(&rv, 0, n - 4)
    } else {
        slice_chars(&rv, 0, n)
    };
    assert(rv@.subrange(0, n as int) =~= rv@);
    let mut key = crate::text::copy_chars(&stem);
    extend_str(&mut key, ".rpy");
    assert(key@.take(key@.len() - 4) =~= stem@);
    Some((string_of(&key), string_of(&stem)))
}

fn stats_of_exec(stats: &Vec<(String, i32, i32)>, key: &String) -> (r: (i32, i32))
    ensures
        r == stats_of(stat_views(stats@), key@),
{
    let ghost sv = stat_views(stats@);
    let mut i: usize = stats.len();
    assert(sv.take(i as int) =~= sv);
    while i > 0
        invariant
            i <= stats.len(),
            sv == stat_views(stats@),
            stats_of(sv.take(i as int), key@) == stats_of(sv, key@),
        decreases i,
    {
        assert(sv.take(i as int).drop_last() =~= sv.take(i - 1));
        assert(sv.take(i as int).last() == sv[i - 1]);
        if stats[i - 1].0 == *key {
            return (stats[i - 1].1, stats[i - 1].2);
        }
        i = i - 1;
    }
    (0, 0)
}

/// The script files of the game, one per key, in key order, each with its
/// counts from the database and its status.
pub fn plan_game_files(files: &Vec<(String, String)>, stats: &Vec<(String, i32, i32)>) -> (r: Vec<GameFileInfo>)
    ensures
        strictly_sorted(info_keys(r@)),
        forall|i: int| 0 <= i < r.len() ==> info_view(#[trigger] r@[i]) == file_info(r@[i].rel_path@, stat_views(stats@)),
        forall|i: int| 0 <= i < r.len() ==> (#[trigger] r@[i]).total > 0 ==> r@[i].status@ == "extracted"@,
        forall|i: int| 0 <= i < r.len() ==> ((#[trigger] r@[i]).status@ == "lang"@ <==> (r@[i].total <= 0 && r@[i].lang is Some)),
        forall|k: Seq<char>|
            #![trigger info_keys(r@).contains(k)]
            info_keys(r@).contains(k) <==> exists|j: int|
                0 <= j < files.len() && script_key(files@[j].0@, files@[j].1@) == Some(k),
{
    let mut keys: Vec<String> = Vec::new();
    let mut out: Vec<GameFileInfo> = Vec::new();
    let mut i: usize = 0;
    while i < files.len()
        invariant
            i <= files.len(),
            keys.len() == out.len(),
            string_views(keys@) == info_keys(out@),
            strictly_sorted(string_views(keys@)),
            forall|j: int| 0 <= j < out.len() ==> info_view(#[trigger] out@[j]) == file_info(out@[j].rel_path@, stat_views(stats@)),
            forall|k: Seq<char>|
                #![trigger string_views(keys@).contains(k)]
                string_views(keys@).contains(k) <==> exists|j: int|
                    0 <= j < i && script_key(files@[j].0@, files@[j].1@) == Some(k),
        decreases files.len() - i,
    {
        match script_key_exec(&files[i].0, &files[i].1) {
            None => {
                assert forall|k: Seq<char>| #[trigger] string_views(keys@).contains(k) <==> exists|j: int|
                    0 <= j < i + 1 && script_key(files@[j].0@, files@[j].1@) == Some(k) by {
                    if exists|j: int| 0 <= j < i + 1 && script_key(files@[j].0@, files@[j].1@) == Some(k) {
                        let j = choose|j: int| 0 <= j < i + 1 && script_key(files@[j].0@, files@[j].1@) == Some(k);
                        assert(j < i);
                    }
                }
            },
            Some((key, stem)) => {
                let (p, found) = find_slot(&keys, &key);
                if found {
                    assert forall|k: Seq<char>| #[trigger] string_views(keys@).contains(k) <==> exists|j: int|
                        0 <= j < i + 1 && script_key(files@[j].0@, files@[j].1@) == Some(k) by {
                        assert(string_views(keys@)[p as int] == key@);
                        if exists|j: int| 0 <= j < i + 1 && script_key(files@[j].0@, files@[j].1@) == Some(k) {
                            let j = choose|j: int| 0 <= j < i + 1 && script_key(files@[j].0@, files@[j].1@) == Some(k);
                            if j == i {
                                assert(string_views(keys@).contains(key@));
                            }
                        }
                    }
                } else {
                    let (t, tr) = stats_of_exec(stats, &key);
                    let lang = detect_lang_suffix(stem.as_str());
                    let status = if t > 0 {
                        "extracted".to_string()
                    } else if lang.is_some() {
                        "lang".to_string()
                    } else {
                        "empty".to_string()
                    };
                    let info = GameFileInfo { rel_path: key.clone(), status, total: t, translated: tr, lang };
                    assert(info_view(info) == file_info(key@, stat_views(stats@)));
                    let ghost ks = string_views(keys@);
                    let ghost os = out@;
                    proof {
                        lemma_insert_sorted(ks, p as int, key@);
                    }
                    keys.insert(p, key);
                    out.insert(p, info);
                    assert(string_views(keys@) =~= ks.insert(p as int, key@));
                    assert(info_keys(out@) =~= ks.insert(p as int, key@));
                    assert forall|j: int| 0 <= j < out.len() implies info_view(#[trigger] out@[j]) == file_info(out@[j].rel_path@, stat_views(stats@)) by {
                        if j < p {
                            assert(out@[j] == os[j]);
                        } else if j > p {
                            assert(out@[j] == os[j - 1]);
                        }
                    }
                    assert forall|k: Seq<char>| #[trigger] string_views(keys@).contains(k) <==> exists|j: int|
                        0 <= j < i + 1 && script_key(files@[j].0@, files@[j].1@) == Some(k) by {
                        let nk = string_views(keys@);
                        if nk.contains(k) {
                            let a = choose|a: int| 0 <= a < nk.len() && nk[a] == k;
                            if a == p {
                                assert(script_key(files@[i as int].0@, files@[i as int].1@) == Some(k));
                            } else if a < p {
                                assert(ks[a] == k);
                                assert(ks.contains(k));
                            } else {
                                assert(ks[a - 1] == k);
                                assert(ks.contains(k));
                            }
                        }
                        if exists|j: int| 0 <= j < i + 1 && script_key(files@[j].0@, files@[j].1@) == Some(k) {
                            let j = choose|j: int| 0 <= j < i + 1 && script_key(files@[j].0@, files@[j].1@) == Some(k);
                            if j == i {
                                assert(nk[p as int] == k);
                            } else {
                                assert(ks.contains(k));
                                let a = choose|a: int| 0 <= a < ks.len() && ks[a] == k;
                                if a < p {
                                    assert(nk[a] == k);
                                } else {
                                    assert(nk[a + 1] == k);
                                }
                            }
                        }
                    }
                }
            },
        }
        i = i + 1;
    }
    proof {
        assert forall|j: int| 0 <= j < out.len() implies ((#[trigger] out@[j]).total > 0 ==> out@[j].status@ == "extracted"@)
            && (out@[j].status@ == "lang"@ <==> (out@[j].total <= 0 && out@[j].lang is Some)) by {
            law_file_status(out@[j].rel_path@, stat_views(stats@));
            assert(info_view(out@[j]) == file_info(out@[j].rel_path@, stat_views(stats@)));
        }
    }
    out
}

// ---------------------------------------------------------------------------
// Project scan
// ---------------------------------------------------------------------------

/// What a scanned path is: an archive, a compiled script, a script, or a
/// script of the target language's overlay.
#[derive(PartialEq, Eq, Structural, Clone, Copy, Debug)]
pub enum ScanKind {
    Rpa,
    Rpyc,
    Rpy,
    Tl,
}

/// The path lies in the overlay folder `tl/<lang>/` (either kind of slash).
pub open spec fn in_tl(path: Seq<char>, lang: Seq<char>) -> bool {
    has_infix(path, "/tl/"@ + lang + "/"@) || has_infix(path, "\\tl\\"@ + lang + "\\"@)
}

/// The kind of a scanned path; compiled scripts of the overlay are left out.
pub open spec fn scan_kind(path: Seq<char>, lang: Seq<char>) -> Option<ScanKind> {
    if has_suffix(path, ".rpa"@) {
        Some(ScanKind::Rpa)
    } else if has_suffix(path, ".rpyc"@) && !in_tl(path, lang) {
        Some(ScanKind::Rpyc)
    } else if has_suffix(path, ".rpy"@) {
        if in_tl(path, lang) {
            Some(ScanKind::Tl)
        } else {
            Some(ScanKind::Rpy)
        }
    } else {
        None
    }
}

/// Sorts one scanned path of `game/` for the target language.
pub fn classify_scanned(path: &str, target_lang: &str) -> (r: Option<ScanKind>)
    ensures
        r == scan_kind(path@, target_lang@),
{
    let mut unix = chars_of("/tl/");
    extend_str(&mut unix, target_lang);
    extend_str(&mut unix, "/");
    let mut win = chars_of("\\tl\\");
    extend_str(&mut win, target_lang);
    extend_str(&mut win, "\\");
    let pv = chars_of(path);
    let is_tl = crate::text::contains_seq(&pv, &unix) || crate::text::contains_seq(&pv, &win);
    if str_ends_with(path, ".rpa") {
        Some(ScanKind::Rpa)
    } else if str_ends_with(path, ".rpyc") && !is_tl {
        Some(ScanKind::Rpyc)
    } else if str_ends_with(path, ".rpy") {
        if is_tl {
            Some(ScanKind::Tl)
        } else {
            Some(ScanKind::Rpy)
        }
    } else {
        None
    }
}

/// The paths of `paths` of the given kind, in order.
pub open spec fn of_kind(paths: Seq<Seq<char>>, lang: Seq<char>, k: ScanKind) -> Seq<Seq<char>>
    decreases paths.len(),
{
    if paths.len() == 0 {
        seq![]
    } else if scan_kind(paths.last(), lang) == Some(k) {
        of_kind(paths.drop_last(), lang, k).push(paths.last())
    } else {
        of_kind(paths.drop_last(), lang, k)
    }
}

/// Sorts the scanned paths of `game/` into archives, compiled scripts,
/// scripts and overlay scripts of the target language.
pub fn sort_scanned(paths: &Vec<String>, target_lang: &str) -> (r: ProjectFiles)
    ensures
        string_views(r.rpa_files@) == of_kind(string_views(paths@), target_lang@, ScanKind::Rpa),
        string_views(r.rpyc_files@) == of_kind(string_views(paths@), target_lang@, ScanKind::Rpyc),
        string_views(r.rpy_files@) == of_kind(string_views(paths@), target_lang@, ScanKind::Rpy),
        string_views(r.tl_files@) == of_kind(string_views(paths@), target_lang@, ScanKind::Tl),
{
    let ghost pv = string_views(paths@);
    let mut rpa: Vec<String> = Vec::new();
    let mut rpyc: Vec<String> = Vec::new();
    let mut rpy: Vec<String> = Vec::new();
    let mut tl: Vec<String> = Vec::new();
    let mut i: usize = 0;
    while i < paths.len()
        invariant
            i <= paths.len(),
            pv == string_views(paths@),
            string_views(rpa@) == of_kind(pv.take(i as int), target_lang@, ScanKind::Rpa),
            string_views(rpyc@) == of_kind(pv.take(i as int), target_lang@, ScanKind::Rpyc),
            string_views(rpy@) == of_kind(pv.take(i as int), target_lang@, ScanKind::Rpy),
            string_views(tl@) == of_kind(pv.take(i as int), target_lang@, ScanKind::Tl),
        decreases paths.len() - i,
    {
        assert(pv.take(i + 1).drop_last() =~= pv.take(i as int));
        assert(pv.take(i + 1).last() == paths@[i as int]@);
        let p = &paths[i];
        let ghost a = string_views(rpa@);
        let ghost b = string_views(rpyc@);
        let ghost c = string_views(rpy@);
        let ghost d = string_views(tl@);
        match classify_scanned(p.as_str(), target_lang) {
            Some(ScanKind::Rpa) => {
                rpa.push(p.clone());
                assert(string_views(rpa@) =~= a.push(p@));
            },
            Some(ScanKind::Rpyc) => {
                rpyc.push(p.clone());
                assert(string_views(rpyc@) =~= b.push(p@));
            },
            Some(ScanKind::Rpy) => {
                rpy.push(p.clone());
                assert(string_views(rpy@) =~= c.push(p@));
            },
            Some(ScanKind::Tl) => {
                tl.push(p.clone());
                assert(string_views(tl@) =~= d.push(p@));
            },
            None => {},
        }
        i = i + 1;
    }
    assert(pv.take(i as int) =~= pv);
    ProjectFiles { rpa_files: rpa, rpyc_files: rpyc, rpy_files: rpy, tl_files: tl }
}

// ---------------------------------------------------------------------------
// Small file rules
// ---------------------------------------------------------------------------

/// A file the front end may read or write: `.csv`, `.json`, `.po` or `.pot`
/// (case-insensitive).
pub open spec fn text_file_allowed(path: Seq<char>) -> bool {
    let l = lowercase(path);
    has_suffix(l, ".csv"@) || has_suffix(l, ".json"@) || has_suffix(l, ".po"@) || has_suffix(l, ".pot"@)
}

pub const ACCESS_DENIED: &'static str = "Access denied: File must have a .csv, .json, .po or .pot extension";

/// Admits only exchange files (`.csv`, `.json`, `.po`, `.pot`) for reading and
/// writing; anything else is refused.
pub fn check_text_file(path: &str) -> (r: Result<(), String>)
    ensures
        text_file_allowed(path@) ==> r is Ok,
        !text_file_allowed(path@) ==> (r matches Err(e) && e@ == ACCESS_DENIED@),
{
    let l = str_to_lowercase(path);
    let l = l.as_str();
    if !str_ends_with(l, ".csv") && !str_ends_with(l, ".json") && !str_ends_with(l, ".po")
        && !str_ends_with(l, ".pot") {
        return Err(ACCESS_DENIED.to_string());
    }
    Ok(())
}

/// The stem of a script path: trimmed, without `.rpyc` or else `.rpy`.
pub open spec fn script_stem_spec(file_path: Seq<char>) -> Seq<char> {
    let rel = trim(file_path);
    if has_suffix(rel, ".rpyc"@) {
        rel.take(rel.len() - 5)
    } else if has_suffix(rel, ".rpy"@) {
        rel.take(rel.len() - 4)
    } else {
        rel
    }
}

/// The stem of a script path (for finding its `.rpy`, `.rpyc` and cached
/// decompilation).
pub fn script_stem(file_path: &str) -> (r: String)
    ensures
        r@ == script_stem_spec(file_path@),
{
    proof {
        reveal_strlit(".rpyc");
        reveal_strlit(".rpy");
    }
    let rel = trim_exec(&chars_of(file_path));
    let rs = string_of(&rel);
    let n = rel.len();
    if str_ends_with(rs.as_str(), ".rpyc") {
        string_of(&slice_chars(&rel, 0, n - 5))
    } else if str_ends_with(rs.as_str(), ".rpy") {
        string_of(&slice_chars(&rel, 0, n - 4))
    } else {
        rs
    }
}

/// A font the build copied into the game (left out of the font list and
/// removed with the mod).
pub open spec fn own_font(rel: Seq<char>) -> bool {
    rel == "renforge_font.ttf"@ || has_prefix(rel, "renforge_font_"@)
}

/// Whether a font path (relative to `game/`) is one the build copied in.
pub fn is_own_font(rel: &str) -> (b: bool)
    ensures
        b == own_font(rel@),
{
    str_eq(rel, "renforge_font.ttf") || str_starts_with(rel, "renforge_font_")
}

/// A font file the mod added to `game/`: `renforge_font_*.ttf`.
pub open spec fn mod_font_file(name: Seq<char>) -> bool {
    has_prefix(name, "renforge_font_"@) && has_suffix(name, ".ttf"@)
}

/// Whether a file name in `game/` is one of the mod's fonts.
pub fn is_mod_font_file(name: &str) -> (b: bool)
    ensures
        b == mod_font_file(name@),
{
    str_starts_with(name, "renforge_font_") && str_ends_with(name, ".ttf")
}

/// An image the gallery lists, by lower-cased extension.
pub fn is_image_ext(ext: &str) -> (b: bool)
    ensures
        b == (ext@ == "png"@ || ext@ == "jpg"@ || ext@ == "jpeg"@ || ext@ == "webp"@),
{
    str_eq(ext, "png") || str_eq(ext, "jpg") || str_eq(ext, "jpeg") || str_eq(ext, "webp")
}

/// An audio file the gallery lists, by lower-cased extension.
pub fn is_listed_audio_ext(ext: &str) -> (b: bool)
    ensures
        b == (ext@ == "ogg"@ || ext@ == "mp3"@ || ext@ == "wav"@),
{
    str_eq(ext, "ogg") || str_eq(ext, "mp3") || str_eq(ext, "wav")
}

/// A font file by lower-cased extension.
pub fn is_font_ext(ext: &str) -> (b: bool)
    ensures
        b == (ext@ == "ttf"@ || ext@ == "otf"@),
{
    str_eq(ext, "ttf") || str_eq(ext, "otf")
}

/// A path inside an overlay (`tl`) or cache folder, by its components.
pub fn in_overlay_or_cache(components: &Vec<String>) -> (b: bool)
    ensures
        b == exists|i: int| 0 <= i < components.len() && ((#[trigger] components@[i])@ == "tl"@ || components@[i]@ == "cache"@),
{
    let mut i: usize = 0;
    while i < components.len()
        invariant
            i <= components.len(),
            forall|j: int| 0 <= j < i ==> !((#[trigger] components@[j])@ == "tl"@ || components@[j]@ == "cache"@),
        decreases components.len() - i,
    {
        if str_eq(components[i].as_str(), "tl") || str_eq(components[i].as_str(), "cache") {
            return true;
        }
        i = i + 1;
    }
    false
}

/// The path Windows Explorer is asked to select: slashes turned into
/// backslashes and, when it starts with the `\\?\` prefix of long paths, that
/// prefix removed (every occurrence of it, as the prefix is taken out by
/// replacing).
pub open spec fn explorer_path_spec(path: Seq<char>) -> Seq<char> {
    let win = crate::text::replace_all(path, "/"@, "\\"@);
    if has_prefix(win, "\\\\?\\"@) {
        crate::text::replace_all(win, "\\\\?\\"@, ""@)
    } else {
        win
    }
}

/// The path to hand Explorer for showing a file.
pub fn explorer_path(path: &str) -> (r: String)
    ensures
        r@ == explorer_path_spec(path@),
{
    proof {
        reveal_strlit("/");
        reveal_strlit("\\\\?\\");
    }
    let win = crate::text::replace_str(path, "/", "\\");
    if str_starts_with(win.as_str(), "\\\\?\\") {
        crate::text::replace_str(win.as_str(), "\\\\?\\", "")
    } else {
        win
    }
}

} // verus!
