//! Linking voice files to the lines they voice.
use vstd::prelude::*;
use crate::text::{
    chars_of, has_infix, has_prefix, has_suffix, last_piece, last_piece_exec, lines, lines_exec, lowercase, slice_chars, str_contains, str_ends_with, str_starts_with, str_to_lowercase, string_of, trim, trim_exec, trim_start, views, whitespace, char_is_whitespace, contains_char, str_eq,
};
use crate::export::{slashed, triple_views};

verus! {

// ---------------------------------------------------------------------------
// Quoted strings
// ---------------------------------------------------------------------------

pub open spec fn is_quote(c: char) -> bool {
    c == '"' || c == '\''
}

/// The text after an opening quote `q` up to the next `q` (none when the
/// quote is not closed).
pub open spec fn closing(s: Seq<char>, q: char) -> Option<Seq<char>>
    decreases s.len(),
{
    if s.len() == 0 {
        None
    } else if s[0] == q {
        Some(seq![])
    } else {
        match closing(s.skip(1), q) {
            Some(t) => Some(seq![s[0]] + t),
            None => None,
        }
    }
}

/// The contents of the first quoted string (single or double quotes) of a line.
pub open spec fn first_quoted_spec(s: Seq<char>) -> Option<Seq<char>>
    decreases s.len(),
{
    if s.len() == 0 {
        None
    } else if is_quote(s[0]) {
        closing(s.skip(1), s[0])
    } else {
        first_quoted_spec(s.skip(1))
    }
}

/// Extracts the first string in quotes (`'` or `"`) of a script line.
pub fn first_quoted(line: &str) -> (r: Option<String>)
    ensures
        match r {
            Some(t) => first_quoted_spec(line@) == Some(t@),
            None => first_quoted_spec(line@) is None,
        },
{
    let s = chars_of(line);
    let mut i: usize = 0;
    assert(s@.skip(0) =~= s@);
    while i < s.len() && !(s[i] == '"' || s[i] == '\'')
        invariant
            i <= s.len(),
            s@ == line@,
            first_quoted_spec(s@.skip(i as int)) == first_quoted_spec(line@),
        decreases s.len() - i,
    {
        assert(s@.skip(i as int).skip(1) =~= s@.skip(i + 1));
        i = i + 1;
    }
    if i == s.len() {
        return None;
    }
    let q = s[i];
    assert(s@.skip(i as int).skip(1) =~= s@.skip(i + 1));
    let mut j: usize = i + 1;
    assert(s@.subrange(i + 1, j as int) =~= Seq::<char>::empty());
    assert(seq![] + closing(s@.skip(i + 1), q)->0 =~= closing(s@.skip(i + 1), q)->0);
    while j < s.len() && s[j] != q
        invariant
            i < j <= s.len(),
            closing(s@.skip(i + 1), q) == match closing(s@.skip(j as int), q) {
                Some(t) => Some(s@.subrange(i + 1, j as int) + t),
                None => None,
            },
        decreases s.len() - j,
    {
        assert(s@.skip(j as int).skip(1) =~= s@.skip(j + 1));
        assert(s@.subrange(i + 1, j + 1) =~= s@.subrange(i + 1, j as int).push(s@[j as int]));
        proof {
            match closing(s@.skip(j + 1), q) {
                Some(t) => {
                    assert(s@.subrange(i + 1, j as int) + (seq![s@[j as int]] + t) =~= s@.subrange(
                        i + 1,
                        j + 1,
                    ) + t);
                },
                None => {},
            }
        }
        j = j + 1;
    }
    if j == s.len() {
        return None;
    }
    let t = slice_chars(&s, i + 1, j);
    assert(s@.subrange(i + 1, j as int) + seq![] =~= s@.subrange(i + 1, j as int));
    Some(string_of(&t))
}

// ---------------------------------------------------------------------------
// Audio file names
// ---------------------------------------------------------------------------

/// An audio file by its (case-insensitive) extension.
pub open spec fn audio_name(name: Seq<char>) -> bool {
    let n = lowercase(name);
    has_suffix(n, ".ogg"@) || has_suffix(n, ".mp3"@) || has_suffix(n, ".wav"@) || has_suffix(
        n,
        ".opus"@,
    )
}

/// Whether a file name has an audio extension (ogg, mp3, wav, opus).
pub fn is_audio_file(name: &str) -> (b: bool)
    ensures
        b == audio_name(name@),
{
    let n = str_to_lowercase(name);
    let n = n.as_str();
    str_ends_with(n, ".ogg") || str_ends_with(n, ".mp3") || str_ends_with(n, ".wav")
        || str_ends_with(n, ".opus")
}

/// The lower-cased file name of a path (either slash).
pub open spec fn file_name_of(p: Seq<char>) -> Seq<char> {
    lowercase(last_piece(slashed(p), '/'))
}

/// The lower-cased file name of a path written with either kind of slash.
pub fn filename_of(p: &str) -> (r: String)
    ensures
        r@ == file_name_of(p@),
{
    let v = chars_of(p);
    let mut full: Vec<char> = Vec::new();
    let mut i: usize = 0;
    while i < v.len()
        invariant
            i <= v.len(),
            v@ == p@,
            full@ == slashed(v@).take(i as int),
        decreases v.len() - i,
    {
        full.push(if v[i] == '\\' { '/' } else { v[i] });
        i = i + 1;
        assert(full@ =~= slashed(v@).take(i as int));
    }
    assert(slashed(v@).take(i as int) =~= slashed(v@));
    let last = last_piece_exec(&full, '/');
    let s = string_of(&last);
    str_to_lowercase(s.as_str())
}

/// A voice channel or a voice file path.
pub open spec fn voicey(channel: Seq<char>, path: Seq<char>) -> bool {
    let c = lowercase(channel);
    let p = lowercase(path);
    ||| c == "voice"@ || c == "vo"@ || c == "va"@ || c == "voc"@ || c == "cv"@
    ||| has_infix(c, "voice"@) || has_infix(c, "vox"@) || has_infix(c, "seiyuu"@) || has_infix(c, "dub"@)
    ||| has_infix(p, "/voice/"@) || has_infix(p, "/voices/"@) || has_infix(p, "/vo/"@) || has_infix(p, "/cv/"@)
        || has_infix(p, "/dub/"@) || has_infix(p, "seiyuu"@)
    ||| has_prefix(p, "voice/"@) || has_prefix(p, "vo/"@) || has_prefix(p, "voices/"@)
}

/// Whether a channel name or a file path looks like voice acting.
pub fn is_voicey(channel: &str, path: &str) -> (b: bool)
    ensures
        b == voicey(channel@, path@),
{
    let c = str_to_lowercase(channel);
    let c = c.as_str();
    if str_eq(c, "voice") || str_eq(c, "vo") || str_eq(c, "va") || str_eq(c, "voc") || str_eq(c, "cv") {
        return true;
    }
    if str_contains(c, "voice") || str_contains(c, "vox") || str_contains(c, "seiyuu") || str_contains(c, "dub") {
        return true;
    }
    let p = str_to_lowercase(path);
    let p = p.as_str();
    str_contains(p, "/voice/") || str_contains(p, "/voices/") || str_contains(p, "/vo/")
        || str_contains(p, "/cv/") || str_contains(p, "/dub/") || str_contains(p, "seiyuu")
        || str_starts_with(p, "voice/") || str_starts_with(p, "vo/") || str_starts_with(p, "voices/")
}

/// The characters of `s` up to its first whitespace.
pub open spec fn until_ws(s: Seq<char>) -> Seq<char>
    decreases s.len(),
{
    if s.len() == 0 || whitespace(s[0]) {
        seq![]
    } else {
        seq![s[0]] + until_ws(s.skip(1))
    }
}

/// The first whitespace-separated word (empty when there is none).
pub open spec fn first_word(s: Seq<char>) -> Seq<char> {
    until_ws(trim_start(s))
}

fn until_ws_exec(s: &Vec<char>) -> (r: Vec<char>)
    ensures
        r@ == until_ws(s@),
{
    let mut j: usize = 0;
    assert(s@.skip(0) =~= s@);
    assert(s@.subrange(0, 0) + until_ws(s@.skip(0)) =~= until_ws(s@));
    while j < s.len() && !char_is_whitespace(s[j])
        invariant
            j <= s.len(),
            s@.subrange(0, j as int) + until_ws(s@.skip(j as int)) == until_ws(s@),
        decreases s.len() - j,
    {
        assert(s@.skip(j as int).skip(1) =~= s@.skip(j + 1));
        assert(s@.subrange(0, j + 1) =~= s@.subrange(0, j as int).push(s@[j as int]));
        assert(s@.subrange(0, j as int) + (seq![s@[j as int]] + until_ws(s@.skip(j + 1))) =~= s@.subrange(0, j + 1) + until_ws(s@.skip(j + 1)));
        j = j + 1;
    }
    let r = slice_chars(s, 0, j);
    assert(r@ + seq![] =~= r@);
    r
}

fn trim_start_exec(s: &Vec<char>) -> (r: Vec<char>)
    ensures
        r@ == trim_start(s@),
{
    let mut a: usize = 0;
    assert(s@.skip(0) =~= s@);
    while a < s.len() && char_is_whitespace(s[a])
        invariant
            a <= s.len(),
            trim_start(s@.skip(a as int)) == trim_start(s@),
        decreases s.len() - a,
    {
        assert(s@.skip(a as int).skip(1) =~= s@.skip(a + 1));
        a = a + 1;
    }
    let r = slice_chars(s, a, s.len());
    assert(r@ =~= s@.skip(a as int));
    r
}

/// The voice file a script line plays, lower-cased: `voice "f"`, `play <ch> "f"`
/// on a voice channel or path, or `renpy.sound.play(...)`, `renpy.play(...)`,
/// `renpy.music.play(...)` with a voice path; only audio file names count.
pub open spec fn voice_trigger(t: Seq<char>) -> Option<Seq<char>> {
    if has_prefix(t, "voice "@) {
        match first_quoted_spec(t) {
            Some(p) => if audio_name(p) { Some(file_name_of(p)) } else { None },
            None => None,
        }
    } else if has_prefix(t, "play "@) {
        let channel = lowercase(first_word(t.skip(5)));
        match first_quoted_spec(t) {
            Some(p) => if audio_name(p) && voicey(channel, p) { Some(file_name_of(p)) } else { None },
            None => None,
        }
    } else if has_infix(t, "renpy.sound.play("@) || has_infix(t, "renpy.play("@)
        || has_infix(t, "renpy.music.play("@) {
        match first_quoted_spec(t) {
            Some(p) => if audio_name(p) && voicey(seq![], p) { Some(file_name_of(p)) } else { None },
            None => None,
        }
    } else {
        None
    }
}

/// Whether a (trimmed) script line plays a voice file, and which one
/// (lower-cased file name).
pub fn detect_voice_trigger(trim_line: &str) -> (r: Option<String>)
    ensures
        match r {
            Some(f) => voice_trigger(trim_line@) == Some(f@),
            None => voice_trigger(trim_line@) is None,
        },
{
    proof {
        reveal_strlit("voice ");
        reveal_strlit("play ");
        reveal_strlit("");
    }
    if str_starts_with(trim_line, "voice ") {
        match first_quoted(trim_line) {
            Some(p) => {
                if is_audio_file(p.as_str()) {
                    return Some(filename_of(p.as_str()));
                }
            },
            None => {},
        }
        return None;
    }
    if str_starts_with(trim_line, "play ") {
        let v = chars_of(trim_line);
        let after = slice_chars(&v, 5, v.len());
        assert(after@ =~= trim_line@.skip(5));
        let word = until_ws_exec(&trim_start_exec(&after));
        let channel = str_to_lowercase(string_of(&word).as_str());
        match first_quoted(trim_line) {
            Some(p) => {
                if is_audio_file(p.as_str()) && is_voicey(channel.as_str(), p.as_str()) {
                    return Some(filename_of(p.as_str()));
                }
            },
            None => {},
        }
        return None;
    }
    if str_contains(trim_line, "renpy.sound.play(") || str_contains(trim_line, "renpy.play(")
        || str_contains(trim_line, "renpy.music.play(") {
        match first_quoted(trim_line) {
            Some(p) => {
                assert(""@ =~= Seq::<char>::empty());
                if is_audio_file(p.as_str()) && is_voicey("", p.as_str()) {
                    return Some(filename_of(p.as_str()));
                }
            },
            None => {},
        }
    }
    None
}

// ---------------------------------------------------------------------------
// Voice file -> (line, script) maps
// ---------------------------------------------------------------------------

/// The map that the entries (file, line, script) make, later entries winning.
pub open spec fn assoc(v: Seq<(Seq<char>, Seq<char>, Seq<char>)>) -> Map<Seq<char>, (Seq<char>, Seq<char>)>
    decreases v.len(),
{
    if v.len() == 0 {
        Map::empty()
    } else {
        assoc(v.drop_last()).insert(v.last().0, (v.last().1, v.last().2))
    }
}

proof fn lemma_assoc_tail(v: Seq<(Seq<char>, Seq<char>, Seq<char>)>, i: int, k: Seq<char>)
    requires
        0 <= i <= v.len(),
        forall|j: int| i <= j < v.len() ==> (#[trigger] v[j]).0 != k,
    ensures
        assoc(v).contains_key(k) == assoc(v.take(i)).contains_key(k),
        assoc(v).contains_key(k) ==> assoc(v)[k] == assoc(v.take(i))[k],
    decreases v.len() - i,
{
    if i < v.len() {
        assert(v.drop_last().take(i) =~= v.take(i));
        assert forall|j: int| i <= j < v.drop_last().len() implies (#[trigger] v.drop_last()[j]).0 != k by {
            assert(v.drop_last()[j] == v[j]);
        }
        lemma_assoc_tail(v.drop_last(), i, k);
        assert(v[v.len() - 1].0 != k);
    } else {
        assert(v.take(i) =~= v);
    }
}

/// Looks up a voice file name.
pub fn assoc_get(v: &Vec<(String, String, String)>, k: &String) -> (r: Option<(String, String)>)
    ensures
        match r {
            Some(p) => assoc(triple_views(v@)).contains_key(k@) && assoc(triple_views(v@))[k@] == (p.0@, p.1@),
            None => !assoc(triple_views(v@)).contains_key(k@),
        },
{
    let ghost tv = triple_views(v@);
    let mut i: usize = v.len();
    while i > 0
        invariant
            i <= v.len(),
            tv == triple_views(v@),
            forall|j: int| i <= j < tv.len() ==> (#[trigger] tv[j]).0 != k@,
        decreases i,
    {
        if v[i - 1].0 == *k {
            proof {
                assert(tv[i - 1].0 == k@);
                lemma_assoc_tail(tv, i as int, k@);
                assert(tv.take(i as int).drop_last() =~= tv.take(i - 1));
                assert(tv.take(i as int).last() == tv[i - 1]);
            }
            return Some((v[i - 1].1.clone(), v[i - 1].2.clone()));
        }
        i = i - 1;
    }
    proof {
        lemma_assoc_tail(tv, 0, k@);
        assert(tv.take(0) =~= Seq::<(Seq<char>, Seq<char>, Seq<char>)>::empty());
    }
    None
}

/// A line that ends the search for the voiced line.
pub open spec fn resets_voice(t: Seq<char>) -> bool {
    has_prefix(t, "label "@) || has_prefix(t, "menu:"@) || has_prefix(t, "return"@) || has_prefix(t, "jump "@)
        || has_prefix(t, "call "@)
}

/// A statement line that is passed over while looking for the voiced line.
pub open spec fn skipped_statement(t: Seq<char>) -> bool {
    has_prefix(t, "$"@) || has_prefix(t, "python:"@) || has_prefix(t, "default "@) || has_prefix(t, "define "@)
        || has_prefix(t, "show "@) || has_prefix(t, "scene "@) || has_prefix(t, "play "@) || has_prefix(t, "hide "@)
        || has_prefix(t, "image "@) || has_prefix(t, "transform "@) || has_prefix(t, "camera "@)
        || has_prefix(t, "with "@) || has_prefix(t, "window "@)
}

/// One script line: blank lines and comments pass; a voice statement becomes
/// the pending voice file; with a pending file, a label, menu, return, jump or
/// call drops it, other statements pass, and the first line with a quote is
/// the voiced line.
pub open spec fn script_step(st: (Option<Seq<char>>, Seq<(Seq<char>, Seq<char>, Seq<char>)>), line: Seq<char>, rel: Seq<char>) -> (Option<Seq<char>>, Seq<(Seq<char>, Seq<char>, Seq<char>)>) {
    let t = trim(line);
    if t.len() == 0 || t[0] == '#' {
        st
    } else {
        match voice_trigger(t) {
            Some(f) => (Some(f), st.1),
            None => match st.0 {
                None => st,
                Some(f) => if resets_voice(t) {
                    (None, st.1)
                } else if skipped_statement(t) {
                    st
                } else if t.contains('"') || t.contains('\'') {
                    (None, st.1.push((f, t, rel)))
                } else {
                    st
                },
            },
        }
    }
}

pub open spec fn script_fold(ls: Seq<Seq<char>>, rel: Seq<char>) -> (Option<Seq<char>>, Seq<(Seq<char>, Seq<char>, Seq<char>)>)
    decreases ls.len(),
{
    if ls.len() == 0 {
        (None, seq![])
    } else {
        script_step(script_fold(ls.drop_last(), rel), ls.last(), rel)
    }
}

/// A line that starts with a Ren'Py statement keyword: a control statement
/// (`label`, `menu:`, `return`, `jump`, `call`) or one that is not spoken
/// (`$`, `python:`, `default`, `define`, `show`, `scene`, `play`, `hide`,
/// `image`, `transform`, `camera`, `with`, `window`).
pub open spec fn statement_line(t: Seq<char>) -> bool {
    ||| has_prefix(t, "label "@) ||| has_prefix(t, "menu:"@) ||| has_prefix(t, "return"@)
    ||| has_prefix(t, "jump "@) ||| has_prefix(t, "call "@) ||| has_prefix(t, "$"@)
    ||| has_prefix(t, "python:"@) ||| has_prefix(t, "default "@) ||| has_prefix(t, "define "@)
    ||| has_prefix(t, "show "@) ||| has_prefix(t, "scene "@) ||| has_prefix(t, "play "@)
    ||| has_prefix(t, "hide "@) ||| has_prefix(t, "image "@) ||| has_prefix(t, "transform "@)
    ||| has_prefix(t, "camera "@) ||| has_prefix(t, "with "@) ||| has_prefix(t, "window "@)
}

/// Every voiced line that a script yields is a spoken line: it is not
/// blank, not a comment, holds a quote, is no voice statement itself and
/// starts with no statement keyword (so a `play` of a sound effect, a `show`
/// or a `$` line is never taken for the line a voice file voices); and it is
/// recorded with the script it comes from.
pub proof fn law_voiced_lines_are_spoken(ls: Seq<Seq<char>>, rel: Seq<char>)
    ensures
        forall|k: int| 0 <= k < script_fold(ls, rel).1.len() ==> {
            let e = #[trigger] script_fold(ls, rel).1[k];
            &&& e.1.len() > 0
            &&& e.1[0] != '#'
            &&& (e.1.contains('"') || e.1.contains('\''))
            &&& voice_trigger(e.1) is None
            &&& !statement_line(e.1)
            &&& e.2 == rel
        },
    decreases ls.len(),
{
    if ls.len() > 0 {
        law_voiced_lines_are_spoken(ls.drop_last(), rel);
        let prev = script_fold(ls.drop_last(), rel);
    }
}

fn resets_voice_exec(t: &str) -> (b: bool)
    ensures
        b == resets_voice(t@),
{
    str_starts_with(t, "label ") || str_starts_with(t, "menu:") || str_starts_with(t, "return")
        || str_starts_with(t, "jump ") || str_starts_with(t, "call ")
}

fn skipped_statement_exec(t: &str) -> (b: bool)
    ensures
        b == skipped_statement(t@),
{
    str_starts_with(t, "$") || str_starts_with(t, "python:") || str_starts_with(t, "default ")
        || str_starts_with(t, "define ") || str_starts_with(t, "show ") || str_starts_with(t, "scene ")
        || str_starts_with(t, "play ") || str_starts_with(t, "hide ") || str_starts_with(t, "image ")
        || str_starts_with(t, "transform ") || str_starts_with(t, "camera ") || str_starts_with(t, "with ")
        || str_starts_with(t, "window ")
}

/// Links the voice files of one `.rpy` script to the lines they voice:
/// appends (file, line, script) entries to `mapping` (later entries win).
pub fn audio_mapping_from_script(content: &str, rel_script_path: &str, mapping: &mut Vec<(String, String, String)>)
    ensures
        triple_views(final(mapping)@) == triple_views(old(mapping)@) + script_fold(lines(content@), rel_script_path@).1,
        forall|k: int| old(mapping)@.len() <= k < final(mapping)@.len() ==> !statement_line((#[trigger] final(mapping)@[k]).1@),
{
    let ls = lines_exec(&chars_of(content));
    let ghost lv = views(ls@);
    let mut pending: Option<String> = None;
    let ghost base = triple_views(mapping@);
    let mut i: usize = 0;
    while i < ls.len()
        invariant
            i <= ls.len(),
            lv == views(ls@),
            lv == lines(content@),
            ({
                let st = script_fold(lv.take(i as int), rel_script_path@);
                &&& match pending {
                    Some(f) => st.0 == Some(f@),
                    None => st.0 is None,
                }
                &&& triple_views(mapping@) == base + st.1
            }),
        decreases ls.len() - i,
    {
        assert(lv.take(i + 1).drop_last() =~= lv.take(i as int));
        assert(lv.take(i + 1).last() == ls@[i as int]@);
        let t = string_of(&trim_exec(&ls[i]));
        let tv = chars_of(t.as_str());
        if tv.len() == 0 || tv[0] == '#' {
        } else {
            match detect_voice_trigger(t.as_str()) {
                Some(f) => {
                    pending = Some(f);
                },
                None => {
                    match &pending {
                        None => {},
                        Some(f) => {
                            if resets_voice_exec(t.as_str()) {
                                pending = None;
                            } else if skipped_statement_exec(t.as_str()) {
                            } else if contains_char(&tv, '"') || contains_char(&tv, '\'') {
                                let ghost before = triple_views(mapping@);
                                mapping.push((f.clone(), t.clone(), rel_script_path.to_string()));
                                assert(triple_views(mapping@) =~= before.push((f@, t@, rel_script_path@)));
                                pending = None;
                            }
                        },
                    }
                },
            }
        }
        i = i + 1;
    }
    assert(lv.take(i as int) =~= lv);
    proof {
        let added = script_fold(lines(content@), rel_script_path@).1;
        law_voiced_lines_are_spoken(lines(content@), rel_script_path@);
        assert forall|k: int| base.len() <= k < mapping@.len() implies !statement_line((#[trigger] mapping@[k]).1@) by {
            assert(triple_views(mapping@)[k] == added[k - base.len()]);
        }
    }
}

/// Voice links from the database: for each row whose statement prefix quotes
/// an audio file, the file's name maps to (original, file) unless an earlier
/// row took it.
pub open spec fn db_audio_step(m: Seq<(Seq<char>, Seq<char>, Seq<char>)>, row: (Seq<char>, Seq<char>, Seq<char>)) -> Seq<(Seq<char>, Seq<char>, Seq<char>)> {
    match first_quoted_spec(row.2) {
        Some(p) => if audio_name(p) && !assoc(m).contains_key(file_name_of(p)) {
            m.push((file_name_of(p), row.0, row.1))
        } else {
            m
        },
        None => m,
    }
}

pub open spec fn db_audio_fold(rows: Seq<(Seq<char>, Seq<char>, Seq<char>)>) -> Seq<(Seq<char>, Seq<char>, Seq<char>)>
    decreases rows.len(),
{
    if rows.len() == 0 {
        seq![]
    } else {
        db_audio_step(db_audio_fold(rows.drop_last()), rows.last())
    }
}

/// Links voice files to lines from the rows (original, file, prefix) of the
/// database; the first row that names a file wins.
pub fn build_audio_mapping_from_db(rows: &Vec<(String, String, String)>) -> (m: Vec<(String, String, String)>)
    ensures
        triple_views(m@) == db_audio_fold(triple_views(rows@)),
{
    let ghost rv = triple_views(rows@);
    let mut m: Vec<(String, String, String)> = Vec::new();
    let mut i: usize = 0;
    while i < rows.len()
        invariant
            i <= rows.len(),
            rv == triple_views(rows@),
            triple_views(m@) == db_audio_fold(rv.take(i as int)),
        decreases rows.len() - i,
    {
        assert(rv.take(i + 1).drop_last() =~= rv.take(i as int));
        assert(rv.take(i + 1).last() == rv[i as int]);
        match first_quoted(rows[i].2.as_str()) {
            Some(p) => {
                if is_audio_file(p.as_str()) {
                    let name = filename_of(p.as_str());
                    if assoc_get(&m, &name).is_none() {
                        let ghost before = triple_views(m@);
                        m.push((name, rows[i].0.clone(), rows[i].1.clone()));
                        assert(triple_views(m@) =~= before.push((name@, rows@[i as int].0@, rows@[i as int].1@)));
                    }
                }
            },
            None => {},
        }
        i = i + 1;
    }
    assert(rv.take(i as int) =~= rv);
    m
}

/// The line a voice file is linked to: from the database first, else from the
/// scripts.
pub fn mapped_line(db: &Vec<(String, String, String)>, scripts: &Vec<(String, String, String)>, name: &String) -> (r: Option<(String, String)>)
    ensures
        match r {
            Some(p) => (assoc(triple_views(db@)).contains_key(name@) && assoc(triple_views(db@))[name@] == (p.0@, p.1@))
                || (!assoc(triple_views(db@)).contains_key(name@) && assoc(triple_views(scripts@)).contains_key(name@)
                    && assoc(triple_views(scripts@))[name@] == (p.0@, p.1@)),
            None => !assoc(triple_views(db@)).contains_key(name@) && !assoc(triple_views(scripts@)).contains_key(name@),
        },
{
    match assoc_get(db, name) {
        Some(p) => Some(p),
        None => assoc_get(scripts, name),
    }
}

} // verus!
