//! Building the runtime translation file: interpolation guard, Python string
//! escaping, user hooks, channel routing and the dictionaries.
use vstd::prelude::*;
use crate::models::{BuildCounts, DeliveryHook};
use crate::templates::{
    RENFORGE_EARLY_HOOK, RENFORGE_HOOK_API_EARLY, RENFORGE_HOOK_API_INIT, RENFORGE_LOG_DIAG,
    RENFORGE_LOG_NOOP, RENFORGE_RUNTIME_HEAD, RENFORGE_RUNTIME_LANG_LINE, RENFORGE_RUNTIME_TAIL,
};
use crate::text::{
    has_infix, has_prefix, occurs_at,
    opt_text, pair_views, push_chars, push_text, str_eq, chars_of, extend_chars, extend_str, replace_all, replace_all_exec, slice_chars, split_exec, split_on, string_of, string_views, trim, trim_exec, views,
};

verus! {

// ---------------------------------------------------------------------------
// Interpolations
// ---------------------------------------------------------------------------

/// The `[...]` interpolations of `s` from position `i` on: a `]` closes the
/// segment opened by the latest `[` (if one is open), and the segment is taken
/// with its brackets.
pub open spec fn interps_from(s: Seq<char>, i: int, start: Option<int>) -> Seq<Seq<char>>
    decreases s.len() - i,
{
    if i < 0 || i >= s.len() {
        seq![]
    } else if s[i] == '[' {
        interps_from(s, i + 1, Some(i))
    } else if s[i] == ']' {
        match start {
            Some(st) => seq![s.subrange(st, i + 1)] + interps_from(s, i + 1, None),
            None => interps_from(s, i + 1, None),
        }
    } else {
        interps_from(s, i + 1, start)
    }
}

/// The `[var]` interpolations of a text, in order.
pub open spec fn interps(s: Seq<char>) -> Seq<Seq<char>> {
    interps_from(s, 0, None)
}

/// Extracts the `[var]` interpolations of a string, in order; `{tags}` are not
/// interpolations.
pub fn extract_interps(s: &str) -> (r: Vec<String>)
    ensures
        string_views(r@) == interps(s@),
{
    let v = chars_of(s);
    let mut out: Vec<String> = Vec::new();
    let mut start: Option<usize> = None;
    let mut i: usize = 0;
    while i < v.len()
        invariant
            i <= v.len(),
            v@ == s@,
            match start {
                Some(st) => st < i,
                None => true,
            },
            string_views(out@) + interps_from(
                v@,
                i as int,
                match start {
                    Some(st) => Some(st as int),
                    None => None,
                },
            ) == interps(s@),
        decreases v.len() - i,
    {
        let ghost before = string_views(out@);
        if v[i] == '[' {
            start = Some(i);
        } else if v[i] == ']' {
            match start {
                Some(st) => {
                    let seg = slice_chars(&v, st, i + 1);
                    out.push(string_of(&seg));
                    assert(string_views(out@) =~= before.push(seg@));
                    assert(before + interps_from(v@, i as int, Some(st as int)) =~= out@.map_values(
                        |x: String| x@,
                    ) + interps_from(v@, i + 1, None));
                    start = None;
                },
                None => {},
            }
        }
        i = i + 1;
    }
    out
}

/// Every interpolation of `t` is also one of `k`.
pub open spec fn interps_within(t: Seq<char>, k: Seq<char>) -> bool {
    forall|x: Seq<char>| #[trigger] interps(t).contains(x) ==> interps(k).contains(x)
}

fn contains_string(v: &Vec<String>, s: &String) -> (r: bool)
    ensures
        r == string_views(v@).contains(s@),
{
    let ghost vv = string_views(v@);
    let mut i: usize = 0;
    while i < v.len()
        invariant
            i <= v.len(),
            vv == string_views(v@),
            forall|j: int| 0 <= j < i ==> vv[j] != s@,
        decreases v.len() - i,
    {
        if v[i] == *s {
            assert(vv[i as int] == s@);
            return true;
        }
        i = i + 1;
    }
    false
}

/// Whether every interpolation of `t` also occurs in `k` (given as its
/// interpolations).
fn interps_subset(ti: &Vec<String>, ki: &Vec<String>) -> (r: bool)
    ensures
        r == forall|x: Seq<char>|
            #[trigger] string_views(ti@).contains(x) ==> string_views(ki@).contains(x),
{
    let ghost tv = string_views(ti@);
    let ghost kv = string_views(ki@);
    let mut i: usize = 0;
    while i < ti.len()
        invariant
            i <= ti.len(),
            tv == string_views(ti@),
            kv == string_views(ki@),
            forall|j: int| 0 <= j < i ==> kv.contains(#[trigger] tv[j]),
        decreases ti.len() - i,
    {
        if !contains_string(ki, &ti[i]) {
            assert(tv.contains(tv[i as int]));
            return false;
        }
        i = i + 1;
    }
    assert forall|x: Seq<char>| #[trigger] tv.contains(x) implies kv.contains(x) by {
        let j = choose|j: int| 0 <= j < tv.len() && tv[j] == x;
    }
    true
}

// ---------------------------------------------------------------------------
// Python string literal escaping
// ---------------------------------------------------------------------------

/// The escape of one character inside a Python `u"..."` literal.
pub open spec fn py_escape_char(c: char) -> Seq<char> {
    if c == '\\' {
        seq!['\\', '\\']
    } else if c == '"' {
        seq!['\\', '"']
    } else if c == '\n' {
        seq!['\\', 'n']
    } else if c == '\r' {
        seq!['\\', 'r']
    } else if c == '\t' {
        seq!['\\', 't']
    } else if c == '\u{2028}' {
        seq!['\\', 'u', '2', '0', '2', '8']
    } else if c == '\u{2029}' {
        seq!['\\', 'u', '2', '0', '2', '9']
    } else {
        seq![c]
    }
}

/// Every character of `s` escaped for a Python `u"..."` literal.
pub open spec fn py_escape(s: Seq<char>) -> Seq<char>
    decreases s.len(),
{
    if s.len() == 0 {
        seq![]
    } else {
        py_escape_char(s[0]) + py_escape(s.skip(1))
    }
}

/// What Python reads back from the escapes that `py_escape` writes.
pub open spec fn py_decode(s: Seq<char>) -> Seq<char>
    decreases s.len(),
{
    if s.len() == 0 {
        seq![]
    } else if s[0] == '\\' && s.len() >= 2 {
        let e = s[1];
        if e == '\\' || e == '"' {
            seq![e] + py_decode(s.skip(2))
        } else if e == 'n' {
            seq!['\n'] + py_decode(s.skip(2))
        } else if e == 'r' {
            seq!['\r'] + py_decode(s.skip(2))
        } else if e == 't' {
            seq!['\t'] + py_decode(s.skip(2))
        } else if e == 'u' && s.len() >= 6 && s[2] == '2' && s[3] == '0' && s[4] == '2' && (s[5]
            == '8' || s[5] == '9') {
            seq![if s[5] == '8' { '\u{2028}' } else { '\u{2029}' }] + py_decode(s.skip(6))
        } else {
            seq![s[0]] + py_decode(s.skip(1))
        }
    } else {
        seq![s[0]] + py_decode(s.skip(1))
    }
}

fn py_escape_char_exec(c: char, out: &mut Vec<char>)
    ensures
        final(out)@ == old(out)@ + py_escape_char(c),
{
    let ghost before = out@;
    if c == '\\' {
        out.push('\\');
        out.push('\\');
    } else if c == '"' {
        out.push('\\');
        out.push('"');
    } else if c == '\n' {
        out.push('\\');
        out.push('n');
    } else if c == '\r' {
        out.push('\\');
        out.push('r');
    } else if c == '\t' {
        out.push('\\');
        out.push('t');
    } else if c == '\u{2028}' || c == '\u{2029}' {
        out.push('\\');
        out.push('u');
        out.push('2');
        out.push('0');
        out.push('2');
        if c == '\u{2028}' {
            out.push('8');
        } else {
            out.push('9');
        }
    } else {
        out.push(c);
    }
    assert(out@ =~= before + py_escape_char(c));
}

fn py_escape_exec(s: &Vec<char>) -> (r: Vec<char>)
    ensures
        r@ == py_escape(s@),
{
    let mut out: Vec<char> = Vec::new();
    let mut i: usize = 0;
    assert(s@.skip(0) =~= s@);
    while i < s.len()
        invariant
            i <= s.len(),
            out@ + py_escape(s@.skip(i as int)) == py_escape(s@),
        decreases s.len() - i,
    {
        let ghost before = out@;
        assert(s@.skip(i as int).skip(1) =~= s@.skip(i + 1));
        py_escape_char_exec(s[i], &mut out);
        assert(before + py_escape(s@.skip(i as int)) =~= out@ + py_escape(s@.skip(i + 1)));
        i = i + 1;
    }
    assert(out@ + py_escape(s@.skip(i as int)) =~= out@);
    out
}

/// Escapes a string for a Python `u"..."` literal in the delivery dictionaries:
/// backslash, quote, line feed, carriage return, tab, and the Unicode line and
/// paragraph separators U+2028/U+2029 (as `\u2028`/`\u2029`).
pub fn escape_py_double(s: &str) -> (r: String)
    ensures
        r@ == py_escape(s@),
{
    let v = chars_of(s);
    string_of(&py_escape_exec(&v))
}

proof fn lemma_decode_escape_char(c: char, t: Seq<char>)
    ensures
        py_decode(py_escape_char(c) + t) == seq![c] + py_decode(t),
{
    let e = py_escape_char(c) + t;
    if c == '\\' || c == '"' || c == '\n' || c == '\r' || c == '\t' {
        assert(e.skip(2) =~= t);
    } else if c == '\u{2028}' || c == '\u{2029}' {
        assert(e.skip(6) =~= t);
    } else {
        assert(e.skip(1) =~= t);
    }
}

/// Escaping keeps the value: Python reads back exactly the original text.
pub proof fn law_py_escape_round_trip(s: Seq<char>)
    ensures
        py_decode(py_escape(s)) == s,
    decreases s.len(),
{
    if s.len() > 0 {
        law_py_escape_round_trip(s.skip(1));
        lemma_decode_escape_char(s[0], py_escape(s.skip(1)));
        assert(seq![s[0]] + s.skip(1) =~= s);
    }
}

/// An escaped text holds no raw line break of any kind, so a dictionary entry
/// stays on one line of the generated file.
pub proof fn law_py_escape_single_line(s: Seq<char>)
    ensures
        !py_escape(s).contains('\n'),
        !py_escape(s).contains('\r'),
        !py_escape(s).contains('\u{2028}'),
        !py_escape(s).contains('\u{2029}'),
    decreases s.len(),
{
    if s.len() > 0 {
        law_py_escape_single_line(s.skip(1));
        let a = py_escape_char(s[0]);
        let b = py_escape(s.skip(1));
        assert forall|i: int| 0 <= i < (a + b).len() implies {
            let x = #[trigger] (a + b)[i];
            x != '\n' && x != '\r' && x != '\u{2028}' && x != '\u{2029}'
        } by {
            if i >= a.len() {
                assert((a + b)[i] == b[i - a.len()]);
            }
        }
    }
}

// ---------------------------------------------------------------------------
// User hooks
// ---------------------------------------------------------------------------

/// `n` spaces.
pub open spec fn spaces(n: nat) -> Seq<char> {
    Seq::new(n, |i: int| ' ')
}

/// One line of a re-indented block: blank lines become empty.
pub open spec fn indent_line(l: Seq<char>, n: nat) -> Seq<char> {
    if trim(l).len() == 0 {
        seq![]
    } else {
        spaces(n) + l
    }
}

pub open spec fn indent_lines(ls: Seq<Seq<char>>, n: nat) -> Seq<Seq<char>> {
    ls.map_values(|l: Seq<char>| indent_line(l, n))
}

/// `code` with CRLF normalised, each non-blank line prefixed by `n` spaces.
pub open spec fn indent_spec(code: Seq<char>, n: nat) -> Seq<char> {
    join(indent_lines(split_on(replace_all(code, seq!['\r', '\n'], seq!['\n']), '\n'), n), seq!['\n'])
}

use crate::text::join;

/// Joins pieces with a separator.
pub fn join_exec(pieces: &Vec<Vec<char>>, sep: &Vec<char>) -> (r: Vec<char>)
    ensures
        r@ == join(views(pieces@), sep@),
{
    let mut out: Vec<char> = Vec::new();
    let mut i: usize = 0;
    while i < pieces.len()
        invariant
            i <= pieces.len(),
            out@ == join(views(pieces@).take(i as int), sep@),
        decreases pieces.len() - i,
    {
        let ghost pv = views(pieces@);
        assert(pv.take(i + 1).drop_last() =~= pv.take(i as int));
        if i > 0 {
            extend_chars(&mut out, sep);
        }
        extend_chars(&mut out, &pieces[i]);
        assert(pv.take(i + 1).last() == pieces@[i as int]@);
        if i == 0 {
            assert(pv.take(1) =~= seq![pieces@[0]@]);
            assert(out@ =~= pieces@[0]@);
        }
        i = i + 1;
    }
    assert(views(pieces@).take(i as int) =~= views(pieces@));
    out
}

/// Re-indents user code: CRLF becomes LF, every non-blank line is prefixed by
/// `spaces` spaces, blank lines become empty.
pub fn indent_block(code: &str, spaces: usize) -> (r: String)
    ensures
        r@ == indent_spec(code@, spaces as nat),
{
    let c = chars_of(code);
    let mut crlf: Vec<char> = Vec::new();
    crlf.push('\r');
    crlf.push('\n');
    let mut lf: Vec<char> = Vec::new();
    lf.push('\n');
    assert(crlf@ =~= seq!['\r', '\n']);
    assert(lf@ =~= seq!['\n']);
    let normalized = replace_all_exec(&c, &crlf, &lf);
    let lines = split_exec(&normalized, '\n');
    let ghost lv = views(lines@);
    let mut done: Vec<Vec<char>> = Vec::new();
    let mut i: usize = 0;
    while i < lines.len()
        invariant
            i <= lines.len(),
            lv == views(lines@),
            views(done@) == indent_lines(lv.take(i as int), spaces as nat),
        decreases lines.len() - i,
    {
        let l = &lines[i];
        let t = trim_exec(l);
        let mut piece: Vec<char> = Vec::new();
        if t.len() > 0 {
            let mut k: usize = 0;
            while k < spaces
                invariant
                    k <= spaces,
                    piece@ == Seq::new(k as nat, |j: int| ' '),
                decreases spaces - k,
            {
                piece.push(' ');
                k = k + 1;
                assert(piece@ =~= Seq::new(k as nat, |j: int| ' '));
            }
            extend_chars(&mut piece, l);
        }
        assert(piece@ == indent_line(lv[i as int], spaces as nat));
        let ghost before = views(done@);
        done.push(piece);
        assert(views(done@) =~= before.push(indent_line(lv[i as int], spaces as nat)));
        assert(indent_lines(lv.take(i + 1), spaces as nat) =~= indent_lines(lv.take(i as int), spaces as nat).push(indent_line(lv[i as int], spaces as nat)));
        i = i + 1;
    }
    assert(lv.take(i as int) =~= lv);
    let joined = join_exec(&done, &lf);
    string_of(&joined)
}

// ---------------------------------------------------------------------------
// Channel routing and the dictionaries
// ---------------------------------------------------------------------------

/// A translated row as the build reads it.
pub struct DeliveryRecord {
    pub block_type: String,
    pub original: String,
    pub translation: String,
    pub channel: Option<String>,
    pub alt_texts: Option<String>,
    pub status: String,
}

/// Which dictionaries a row goes to: (dialogue/menu, interface). An explicit
/// channel `say`, `ui` or `both` wins; otherwise dialogue and menu rows go to
/// the first, all others to the second.
pub open spec fn route(channel: Option<String>, block_type: Seq<char>) -> (bool, bool) {
    let chan = trim(opt_text(channel));
    if chan == "say"@ {
        (true, false)
    } else if chan == "ui"@ {
        (false, true)
    } else if chan == "both"@ {
        (true, true)
    } else if block_type == "dialogue"@ || block_type == "menu"@ {
        (true, false)
    } else {
        (false, true)
    }
}

fn route_exec(channel: &Option<String>, block_type: &String) -> (r: (bool, bool))
    ensures
        r == route(*channel, block_type@),
{
    let chan: Vec<char> = match channel {
        Some(c) => trim_exec(&chars_of(c.as_str())),
        None => Vec::new(),
    };
    let cs = string_of(&chan);
    proof {
        assert(opt_text(*channel) == match channel {
            Some(c) => c@,
            None => Seq::<char>::empty(),
        });
    }
    if str_eq(cs.as_str(), "say") {
        (true, false)
    } else if str_eq(cs.as_str(), "ui") {
        (false, true)
    } else if str_eq(cs.as_str(), "both") {
        (true, true)
    } else if str_eq(block_type.as_str(), "dialogue") || str_eq(block_type.as_str(), "menu") {
        (true, false)
    } else {
        (false, true)
    }
}

/// What `serde_json::from_str::<Vec<String>>` gives for a text (`.ok()`).
pub uninterp spec fn json_string_array(s: Seq<char>) -> Option<Seq<Seq<char>>>;

/// Calls `serde_json::from_str::<Vec<String>>`; `.ok()` of the result is named
/// `json_string_array` of the text.
#[verifier::external_body]
pub(crate) fn parse_json_string_array(s: &str) -> (r: Option<Vec<String>>)
    ensures
        match r {
            Some(v) => json_string_array(s@) == Some(string_views(v@)),
            None => json_string_array(s@) is None,
        },
{
    serde_json::from_str::<Vec<String>>(s).ok()
}

/// The alternative wordings stored with a row (none when absent or unreadable).
pub open spec fn record_alts(a: Option<String>) -> Seq<Seq<char>> {
    match a {
        Some(j) => match json_string_array(j@) {
            Some(l) => l,
            None => seq![],
        },
        None => seq![],
    }
}

pub open spec fn keys(m: Seq<(Seq<char>, Seq<char>)>) -> Seq<Seq<char>> {
    m.map_values(|p: (Seq<char>, Seq<char>)| p.0)
}

/// Adds `k -> v` unless `k` is already a key.
pub open spec fn insert_new(m: Seq<(Seq<char>, Seq<char>)>, k: Seq<char>, v: Seq<char>) -> Seq<
    (Seq<char>, Seq<char>),
> {
    if keys(m).contains(k) {
        m
    } else {
        m.push((k, v))
    }
}

/// The dictionaries being built: dialogue map, interface map, originals to
/// review, translations skipped for a foreign interpolation.
pub type DictState = (Seq<(Seq<char>, Seq<char>)>, Seq<(Seq<char>, Seq<char>)>, Seq<Seq<char>>, nat);

/// One alternative wording `alt` of a row with translation `t`: added under
/// the row's channels unless empty, equal to the original or the translation,
/// or missing one of the translation's interpolations.
pub open spec fn alt_step(st: DictState, alt: Seq<char>, o: Seq<char>, t: Seq<char>, to_say: bool, to_ui: bool) -> DictState {
    if alt.len() == 0 || alt == o || alt == t || !interps_within(t, alt) {
        st
    } else {
        (
            if to_say { insert_new(st.0, alt, t) } else { st.0 },
            if to_ui { insert_new(st.1, alt, t) } else { st.1 },
            st.2,
            st.3,
        )
    }
}

pub open spec fn alts_fold(st: DictState, alts: Seq<Seq<char>>, o: Seq<char>, t: Seq<char>, to_say: bool, to_ui: bool) -> DictState
    decreases alts.len(),
{
    if alts.len() == 0 {
        st
    } else {
        alt_step(alts_fold(st, alts.drop_last(), o, t, to_say, to_ui), alts.last(), o, t, to_say, to_ui)
    }
}

pub open spec fn add_distinct(r: Seq<Seq<char>>, k: Seq<char>) -> Seq<Seq<char>> {
    if r.contains(k) {
        r
    } else {
        r.push(k)
    }
}

/// One translated row: skipped when its original is empty or equals the
/// translation; counted as bad when the translation needs an interpolation the
/// original lacks; else added under the original to the routed dictionaries
/// (first one wins), its "outdated" status noted for review, and its
/// alternative wordings added.
pub open spec fn record_step(st: DictState, r: DeliveryRecord) -> DictState {
    let o = r.original@;
    let t = r.translation@;
    if o.len() == 0 || o == t {
        st
    } else if !interps_within(t, o) {
        (st.0, st.1, st.2, st.3 + 1)
    } else {
        let to_say = route(r.channel, r.block_type@).0;
        let to_ui = route(r.channel, r.block_type@).1;
        let rev = r.status@ == "outdated"@;
        let say_new = to_say && !keys(st.0).contains(o);
        let s1 = if say_new { st.0.push((o, t)) } else { st.0 };
        let r1 = if say_new && rev { add_distinct(st.2, o) } else { st.2 };
        let ui_new = to_ui && !keys(st.1).contains(o);
        let u1 = if ui_new { st.1.push((o, t)) } else { st.1 };
        let r2 = if ui_new && rev { add_distinct(r1, o) } else { r1 };
        alts_fold((s1, u1, r2, st.3), record_alts(r.alt_texts), o, t, to_say, to_ui)
    }
}

/// The dictionaries built from the rows, in order.
pub open spec fn deliver(rs: Seq<DeliveryRecord>) -> DictState
    decreases rs.len(),
{
    if rs.len() == 0 {
        (seq![], seq![], seq![], 0)
    } else {
        record_step(deliver(rs.drop_last()), rs.last())
    }
}

/// The built dictionaries, in insertion order.
pub struct DeliveryMaps {
    pub say: Vec<(String, String)>,
    pub ui: Vec<(String, String)>,
    pub review: Vec<String>,
    pub skipped_bad: usize,
}

pub open spec fn maps_view(m: DeliveryMaps) -> DictState {
    (pair_views(m.say@), pair_views(m.ui@), string_views(m.review@), m.skipped_bad as nat)
}

fn has_key(m: &Vec<(String, String)>, k: &String) -> (r: bool)
    ensures
        r == keys(pair_views(m@)).contains(k@),
{
    let ghost kv = keys(pair_views(m@));
    let mut i: usize = 0;
    while i < m.len()
        invariant
            i <= m.len(),
            kv == keys(pair_views(m@)),
            forall|j: int| 0 <= j < i ==> kv[j] != k@,
        decreases m.len() - i,
    {
        if m[i].0 == *k {
            assert(kv[i as int] == k@);
            return true;
        }
        i = i + 1;
    }
    false
}

fn insert_new_exec(m: &mut Vec<(String, String)>, k: &String, v: &String)
    ensures
        pair_views(final(m)@) == insert_new(pair_views(old(m)@), k@, v@),
{
    if !has_key(m, k) {
        let ghost before = pair_views(m@);
        m.push((k.clone(), v.clone()));
        assert(pair_views(m@) =~= before.push((k@, v@)));
    }
}

fn add_distinct_exec(r: &mut Vec<String>, k: &String)
    ensures
        string_views(final(r)@) == add_distinct(string_views(old(r)@), k@),
{
    if !contains_string(r, k) {
        let ghost before = string_views(r@);
        r.push(k.clone());
        assert(string_views(r@) =~= before.push(k@));
    }
}

/// Builds the dialogue and interface dictionaries from the translated rows.
pub fn plan_delivery(records: &Vec<DeliveryRecord>) -> (m: DeliveryMaps)
    requires
        records.len() <= usize::MAX,
    ensures
        maps_view(m) == deliver(records@),
{
    let mut say: Vec<(String, String)> = Vec::new();
    let mut ui: Vec<(String, String)> = Vec::new();
    let mut review: Vec<String> = Vec::new();
    let mut skipped: usize = 0;
    let mut i: usize = 0;
    while i < records.len()
        invariant
            i <= records.len(),
            skipped <= i,
            (pair_views(say@), pair_views(ui@), string_views(review@), skipped as nat) == deliver(
                records@.take(i as int),
            ),
        decreases records.len() - i,
    {
        let ghost pre = records@.take(i as int);
        assert(records@.take(i + 1).drop_last() =~= pre);
        assert(records@.take(i + 1).last() == records@[i as int]);
        let r = &records[i];
        let ghost st = deliver(pre);
        if r.original.as_str().is_empty() || r.original == r.translation {
            // nothing to deliver
        } else {
            let oi = extract_interps(r.original.as_str());
            let ti = extract_interps(r.translation.as_str());
            if !interps_subset(&ti, &oi) {
                skipped = skipped + 1;
            } else {
                let (to_say, to_ui) = route_exec(&r.channel, &r.block_type);
                let rev = str_eq(r.status.as_str(), "outdated");
                if to_say && !has_key(&say, &r.original) {
                    let ghost before = pair_views(say@);
                    say.push((r.original.clone(), r.translation.clone()));
                    assert(pair_views(say@) =~= before.push((r.original@, r.translation@)));
                    if rev {
                        add_distinct_exec(&mut review, &r.original);
                    }
                }
                if to_ui && !has_key(&ui, &r.original) {
                    let ghost before = pair_views(ui@);
                    ui.push((r.original.clone(), r.translation.clone()));
                    assert(pair_views(ui@) =~= before.push((r.original@, r.translation@)));
                    if rev {
                        add_distinct_exec(&mut review, &r.original);
                    }
                }
                let ghost mid: DictState = (pair_views(say@), pair_views(ui@), string_views(review@), skipped as nat);
                let alts: Vec<String> = match &r.alt_texts {
                    Some(j) => match parse_json_string_array(j.as_str()) {
                        Some(l) => l,
                        None => Vec::new(),
                    },
                    None => Vec::new(),
                };
                let ghost av = string_views(alts@);
                assert(av == record_alts(r.alt_texts));
                let mut k: usize = 0;
                while k < alts.len()
                    invariant
                        k <= alts.len(),
                        av == string_views(alts@),
                        string_views(ti@) == interps(r.translation@),
                        (pair_views(say@), pair_views(ui@), string_views(review@), skipped as nat)
                            == alts_fold(mid, av.take(k as int), r.original@, r.translation@, to_say, to_ui),
                    decreases alts.len() - k,
                {
                    assert(av.take(k + 1).drop_last() =~= av.take(k as int));
                    assert(av.take(k + 1).last() == alts@[k as int]@);
                    let alt = &alts[k];
                    if alt.as_str().is_empty() || *alt == r.original || *alt == r.translation {
                    } else {
                        let ai = extract_interps(alt.as_str());
                        let ok = interps_subset(&ti, &ai);
                        proof {
                            assert(string_views(ti@) == interps(r.translation@));
                            assert(string_views(ai@) == interps(alt@));
                            assert(ok == interps_within(r.translation@, alt@));
                        }
                        if ok {
                            if to_say {
                                insert_new_exec(&mut say, alt, &r.translation);
                            }
                            if to_ui {
                                insert_new_exec(&mut ui, alt, &r.translation);
                            }
                        }
                    }
                    k = k + 1;
                }
                assert(av.take(k as int) =~= av);
            }
        }
        i = i + 1;
    }
    assert(records@.take(i as int) =~= records@);
    DeliveryMaps { say, ui, review, skipped_bad: skipped }
}

// ---------------------------------------------------------------------------
// Laws of the dictionaries
// ---------------------------------------------------------------------------

/// An entry worth delivering: a non-empty key that differs from its
/// translation, and a translation that needs no interpolation the key lacks.
pub open spec fn entry_ok(p: (Seq<char>, Seq<char>)) -> bool {
    p.0.len() > 0 && p.0 != p.1 && interps_within(p.1, p.0)
}

/// Keys are distinct and every entry is worth delivering.
pub open spec fn good_dict(m: Seq<(Seq<char>, Seq<char>)>) -> bool {
    &&& keys(m).no_duplicates()
    &&& forall|i: int| 0 <= i < m.len() ==> entry_ok(#[trigger] m[i])
}

/// Every original noted for review is a key of one of the dictionaries, once.
pub open spec fn review_ok(st: DictState) -> bool {
    &&& st.2.no_duplicates()
    &&& forall|x: Seq<char>| #[trigger] st.2.contains(x) ==> keys(st.0).contains(x) || keys(st.1).contains(x)
}

proof fn lemma_push_good(m: Seq<(Seq<char>, Seq<char>)>, k: Seq<char>, v: Seq<char>)
    requires
        good_dict(m),
        !keys(m).contains(k),
        entry_ok((k, v)),
    ensures
        good_dict(m.push((k, v))),
        keys(m.push((k, v))) == keys(m).push(k),
{
    assert(keys(m.push((k, v))) =~= keys(m).push(k));
    let ks = keys(m).push(k);
    assert forall|i: int, j: int| 0 <= i < ks.len() && 0 <= j < ks.len() && i != j implies ks[i] != ks[j] by {
        if i == ks.len() - 1 {
            assert(keys(m).contains(ks[j]));
        } else if j == ks.len() - 1 {
            assert(keys(m).contains(ks[i]));
        }
    }
}

proof fn lemma_keys_grow(m: Seq<(Seq<char>, Seq<char>)>, k: Seq<char>, v: Seq<char>, x: Seq<char>)
    requires
        keys(m).contains(x),
    ensures
        keys(insert_new(m, k, v)).contains(x),
        keys(m.push((k, v))).contains(x),
{
    assert(keys(m.push((k, v))) =~= keys(m).push(k));
    let i = choose|i: int| 0 <= i < keys(m).len() && keys(m)[i] == x;
    assert(keys(m.push((k, v)))[i] == x);
}

proof fn lemma_insert_new_good(m: Seq<(Seq<char>, Seq<char>)>, k: Seq<char>, v: Seq<char>)
    requires
        good_dict(m),
        entry_ok((k, v)),
    ensures
        good_dict(insert_new(m, k, v)),
{
    if !keys(m).contains(k) {
        lemma_push_good(m, k, v);
    }
}

proof fn lemma_alts_fold_good(
    st: DictState,
    alts: Seq<Seq<char>>,
    o: Seq<char>,
    t: Seq<char>,
    to_say: bool,
    to_ui: bool,
)
    requires
        good_dict(st.0),
        good_dict(st.1),
        review_ok(st),
    ensures
        good_dict(alts_fold(st, alts, o, t, to_say, to_ui).0),
        good_dict(alts_fold(st, alts, o, t, to_say, to_ui).1),
        review_ok(alts_fold(st, alts, o, t, to_say, to_ui)),
        alts_fold(st, alts, o, t, to_say, to_ui).3 == st.3,
    decreases alts.len(),
{
    if alts.len() > 0 {
        lemma_alts_fold_good(st, alts.drop_last(), o, t, to_say, to_ui);
        let prev = alts_fold(st, alts.drop_last(), o, t, to_say, to_ui);
        let alt = alts.last();
        if !(alt.len() == 0 || alt == o || alt == t || !interps_within(t, alt)) {
            if to_say {
                lemma_insert_new_good(prev.0, alt, t);
            }
            if to_ui {
                lemma_insert_new_good(prev.1, alt, t);
            }
            let next = alt_step(prev, alt, o, t, to_say, to_ui);
            assert forall|x: Seq<char>| #[trigger] next.2.contains(x) implies keys(next.0).contains(x)
                || keys(next.1).contains(x) by {
                if keys(prev.0).contains(x) {
                    lemma_keys_grow(prev.0, alt, t, x);
                } else {
                    lemma_keys_grow(prev.1, alt, t, x);
                }
            }
        }
    }
}

proof fn lemma_add_distinct(r: Seq<Seq<char>>, k: Seq<char>)
    requires
        r.no_duplicates(),
    ensures
        add_distinct(r, k).no_duplicates(),
        forall|x: Seq<char>| #[trigger] add_distinct(r, k).contains(x) ==> r.contains(x) || x == k,
{
    if !r.contains(k) {
        let n = r.push(k);
        assert forall|i: int, j: int| 0 <= i < n.len() && 0 <= j < n.len() && i != j implies n[i] != n[j] by {
            if i == n.len() - 1 {
                assert(r.contains(n[j]));
            } else if j == n.len() - 1 {
                assert(r.contains(n[i]));
            }
        }
        assert forall|x: Seq<char>| #[trigger] n.contains(x) implies r.contains(x) || x == k by {
            let i = choose|i: int| 0 <= i < n.len() && n[i] == x;
            if i < r.len() {
                assert(r[i] == x);
            }
        }
    }
}

/// The delivery dictionaries are sound: in each, keys are distinct, no key is
/// empty or equal to its translation, and no translation needs an
/// interpolation its key lacks; the originals noted for review are distinct
/// keys of the dictionaries.
pub proof fn law_delivery_dictionaries_sound(rs: Seq<DeliveryRecord>)
    ensures
        good_dict(deliver(rs).0),
        good_dict(deliver(rs).1),
        review_ok(deliver(rs)),
        deliver(rs).3 <= rs.len(),
    decreases rs.len(),
{
    if rs.len() > 0 {
        law_delivery_dictionaries_sound(rs.drop_last());
        let st = deliver(rs.drop_last());
        let r = rs.last();
        let o = r.original@;
        let t = r.translation@;
        if !(o.len() == 0 || o == t) && interps_within(t, o) {
            let to_say = route(r.channel, r.block_type@).0;
            let to_ui = route(r.channel, r.block_type@).1;
            let rev = r.status@ == "outdated"@;
            let say_new = to_say && !keys(st.0).contains(o);
            let s1 = if say_new { st.0.push((o, t)) } else { st.0 };
            let r1 = if say_new && rev { add_distinct(st.2, o) } else { st.2 };
            let ui_new = to_ui && !keys(st.1).contains(o);
            let u1 = if ui_new { st.1.push((o, t)) } else { st.1 };
            let r2 = if ui_new && rev { add_distinct(r1, o) } else { r1 };
            if say_new {
                lemma_push_good(st.0, o, t);
            }
            if ui_new {
                lemma_push_good(st.1, o, t);
            }
            if say_new && rev {
                lemma_add_distinct(st.2, o);
            }
            if ui_new && rev {
                lemma_add_distinct(r1, o);
            }
            assert forall|x: Seq<char>| #[trigger] r2.contains(x) implies keys(s1).contains(x)
                || keys(u1).contains(x) by {
                if x == o && say_new {
                    assert(keys(s1) =~= keys(st.0).push(o));
                    assert(keys(s1)[keys(s1).len() - 1] == o);
                } else if x == o && ui_new {
                    assert(keys(u1) =~= keys(st.1).push(o));
                    assert(keys(u1)[keys(u1).len() - 1] == o);
                } else {
                    assert(st.2.contains(x));
                    if keys(st.0).contains(x) {
                        lemma_keys_grow(st.0, o, t, x);
                    } else {
                        lemma_keys_grow(st.1, o, t, x);
                    }
                }
            }
            lemma_alts_fold_good((s1, u1, r2, st.3), record_alts(r.alt_texts), o, t, to_say, to_ui);
        }
    }
}

// ---------------------------------------------------------------------------
// Routing laws
// ---------------------------------------------------------------------------

/// A row's channel names no dictionary explicitly (absent, blank or unknown).
pub open spec fn no_explicit_channel(channel: Option<String>) -> bool {
    let chan = trim(opt_text(channel));
    chan != "say"@ && chan != "ui"@ && chan != "both"@
}

/// Dialogue lines and menu choices without an explicit channel are served by
/// the dialogue/menu filter only; rows of every other kind without one go to
/// the interface dictionary only; the channels `say`, `ui` and `both` decide
/// on their own, whatever the kind.
pub proof fn law_route_by_kind(channel: Option<String>, block_type: Seq<char>)
    ensures
        no_explicit_channel(channel) && (block_type == "dialogue"@ || block_type == "menu"@)
            ==> route(channel, block_type) == (true, false),
        no_explicit_channel(channel) && block_type != "dialogue"@ && block_type != "menu"@
            ==> route(channel, block_type) == (false, true),
        trim(opt_text(channel)) == "say"@ ==> route(channel, block_type) == (true, false),
        trim(opt_text(channel)) == "ui"@ ==> route(channel, block_type) == (false, true),
        trim(opt_text(channel)) == "both"@ ==> route(channel, block_type) == (true, true),
{
    reveal_strlit("say");
    reveal_strlit("ui");
    reveal_strlit("both");
    assert("say"@.len() == 3 && "ui"@.len() == 2 && "both"@.len() == 4);
}

/// A row that is delivered: its original is not empty, differs from the
/// translation, and the translation needs no interpolation the original lacks.
pub open spec fn delivered(r: DeliveryRecord) -> bool {
    r.original@.len() > 0 && r.original@ != r.translation@ && interps_within(r.translation@, r.original@)
}

/// A dialogue line or menu choice without an explicit channel.
pub open spec fn say_kind(r: DeliveryRecord) -> bool {
    no_explicit_channel(r.channel) && (r.block_type@ == "dialogue"@ || r.block_type@ == "menu"@)
}

proof fn lemma_alts_fold_keeps(st: DictState, alts: Seq<Seq<char>>, o: Seq<char>, t: Seq<char>, to_say: bool, to_ui: bool)
    ensures
        alts_fold(st, alts, o, t, to_say, to_ui).0.len() >= st.0.len(),
        forall|k: int| 0 <= k < st.0.len() ==> #[trigger] alts_fold(st, alts, o, t, to_say, to_ui).0[k] == st.0[k],
        !to_ui ==> alts_fold(st, alts, o, t, to_say, to_ui).1 == st.1,
    decreases alts.len(),
{
    if alts.len() > 0 {
        lemma_alts_fold_keeps(st, alts.drop_last(), o, t, to_say, to_ui);
    }
}

proof fn lemma_record_step_keeps(st: DictState, r: DeliveryRecord)
    ensures
        record_step(st, r).0.len() >= st.0.len(),
        forall|k: int| 0 <= k < st.0.len() ==> #[trigger] record_step(st, r).0[k] == st.0[k],
{
    let o = r.original@;
    let t = r.translation@;
    if !(o.len() == 0 || o == t) && interps_within(t, o) {
        let to_say = route(r.channel, r.block_type@).0;
        let to_ui = route(r.channel, r.block_type@).1;
        let rev = r.status@ == "outdated"@;
        let say_new = to_say && !keys(st.0).contains(o);
        let s1 = if say_new { st.0.push((o, t)) } else { st.0 };
        let ui_new = to_ui && !keys(st.1).contains(o);
        let u1 = if ui_new { st.1.push((o, t)) } else { st.1 };
        let r1 = if say_new && rev { add_distinct(st.2, o) } else { st.2 };
        let r2 = if ui_new && rev { add_distinct(r1, o) } else { r1 };
        lemma_alts_fold_keeps((s1, u1, r2, st.3), record_alts(r.alt_texts), o, t, to_say, to_ui);
    }
}

proof fn lemma_keys_prefix(a: Seq<(Seq<char>, Seq<char>)>, b: Seq<(Seq<char>, Seq<char>)>, x: Seq<char>)
    requires
        b.len() >= a.len(),
        forall|k: int| 0 <= k < a.len() ==> #[trigger] b[k] == a[k],
        keys(a).contains(x),
    ensures
        keys(b).contains(x),
{
    let i = choose|i: int| 0 <= i < keys(a).len() && keys(a)[i] == x;
    assert(b[i] == a[i]);
    assert(keys(b)[i] == x);
}

proof fn lemma_deliver_keeps(rs: Seq<DeliveryRecord>, j: int)
    requires
        0 <= j <= rs.len(),
    ensures
        deliver(rs).0.len() >= deliver(rs.take(j)).0.len(),
        forall|k: int| 0 <= k < deliver(rs.take(j)).0.len() ==> #[trigger] deliver(rs).0[k] == deliver(rs.take(j)).0[k],
    decreases rs.len() - j,
{
    if j == rs.len() {
        assert(rs.take(j) =~= rs);
    } else {
        lemma_deliver_keeps(rs, j + 1);
        assert(rs.take(j + 1).drop_last() =~= rs.take(j));
        lemma_record_step_keeps(deliver(rs.take(j)), rs.take(j + 1).last());
    }
}

/// Every delivered dialogue line or menu choice without an explicit channel
/// is a key of the dialogue/menu dictionary, whatever rows come around it.
pub proof fn law_dialogue_rows_reach_say_map(rs: Seq<DeliveryRecord>, i: int)
    requires
        0 <= i < rs.len(),
        say_kind(rs[i]),
        delivered(rs[i]),
    ensures
        keys(deliver(rs).0).contains(rs[i].original@),
{
    law_route_by_kind(rs[i].channel, rs[i].block_type@);
    let r = rs[i];
    let o = r.original@;
    let t = r.translation@;
    let st = deliver(rs.take(i));
    assert(rs.take(i + 1).drop_last() =~= rs.take(i));
    assert(rs.take(i + 1).last() == r);
    let rev = r.status@ == "outdated"@;
    let s1 = if !keys(st.0).contains(o) { st.0.push((o, t)) } else { st.0 };
    assert(keys(s1).contains(o)) by {
        if !keys(st.0).contains(o) {
            assert(keys(s1)[st.0.len() as int] == o);
        }
    }
    let u1 = st.1;
    let r1 = if !keys(st.0).contains(o) && rev { add_distinct(st.2, o) } else { st.2 };
    lemma_alts_fold_keeps((s1, u1, r1, st.3), record_alts(r.alt_texts), o, t, true, false);
    let nx = deliver(rs.take(i + 1));
    assert(nx == alts_fold((s1, u1, r1, st.3), record_alts(r.alt_texts), o, t, true, false));
    lemma_keys_prefix(s1, nx.0, o);
    lemma_deliver_keeps(rs, i + 1);
    lemma_keys_prefix(nx.0, deliver(rs).0, o);
}

/// A delivered dialogue line or menu choice without an explicit channel,
/// delivered on its own, fills the dialogue/menu dictionary with its original
/// and translation and leaves the interface dictionary empty.
pub proof fn law_dialogue_row_skips_ui_map(r: DeliveryRecord)
    requires
        say_kind(r),
        delivered(r),
    ensures
        deliver(seq![r]).0.len() >= 1,
        deliver(seq![r]).0[0] == (r.original@, r.translation@),
        deliver(seq![r]).1.len() == 0,
{
    law_route_by_kind(r.channel, r.block_type@);
    let o = r.original@;
    let t = r.translation@;
    let e: DictState = (seq![], seq![], seq![], 0);
    assert(seq![r].drop_last() =~= Seq::<DeliveryRecord>::empty());
    assert(seq![r].last() == r);
    assert(deliver(Seq::<DeliveryRecord>::empty()) == e);
    assert(!keys(e.0).contains(o));
    let rev = r.status@ == "outdated"@;
    let s1 = e.0.push((o, t));
    let r1 = if rev { add_distinct(e.2, o) } else { e.2 };
    lemma_alts_fold_keeps((s1, e.1, r1, e.3), record_alts(r.alt_texts), o, t, true, false);
    assert(deliver(seq![r]) == alts_fold((s1, e.1, r1, e.3), record_alts(r.alt_texts), o, t, true, false));
}

// ---------------------------------------------------------------------------
// Weaving user hooks
// ---------------------------------------------------------------------------

/// A hook goes into phase `phase` when it is enabled, of that phase, and has
/// code that is not blank.
pub open spec fn hook_woven(h: DeliveryHook, phase: Seq<char>) -> bool {
    h.enabled && h.phase@ == phase && trim(h.code@).len() > 0
}

/// The sandboxed block of one hook: a comment with its name (line breaks
/// turned to spaces), then its code (tabs turned to four spaces) re-indented
/// by eight spaces inside `try: ... except Exception: pass`.
pub open spec fn hook_text(h: DeliveryHook) -> Seq<char> {
    let safe = replace_all(replace_all(h.name@, seq!['\n'], seq![' ']), seq!['\r'], seq![' ']);
    let code = replace_all(h.code@, seq!['\t'], seq![' ', ' ', ' ', ' ']);
    "    # --- RenForge user hook: "@ + safe + " ---\n"@ + "    try:\n"@ + indent_spec(code, 8)
        + "\n    except Exception:\n        pass\n"@
}

/// The blocks of the hooks of one phase, in list order.
pub open spec fn weave_spec(hooks: Seq<DeliveryHook>, phase: Seq<char>) -> Seq<char>
    decreases hooks.len(),
{
    if hooks.len() == 0 {
        seq![]
    } else {
        weave_spec(hooks.drop_last(), phase) + if hook_woven(hooks.last(), phase) {
            hook_text(hooks.last())
        } else {
            seq![]
        }
    }
}

fn one_char(c: char) -> (r: Vec<char>)
    ensures
        r@ == seq![c],
{
    let mut v: Vec<char> = Vec::new();
    v.push(c);
    assert(v@ =~= seq![c]);
    v
}

/// Weaves the enabled hooks of `phase` into `out`, each in its own sandbox.
pub fn weave_hooks(out: &mut String, hooks: &[DeliveryHook], phase: &str)
    ensures
        final(out)@ == old(out)@ + weave_spec(hooks@, phase@),
{
    let mut i: usize = 0;
    assert(weave_spec(hooks@.take(0), phase@) =~= Seq::<char>::empty());
    while i < hooks.len()
        invariant
            i <= hooks.len(),
            out@ == old(out)@ + weave_spec(hooks@.take(i as int), phase@),
        decreases hooks.len() - i,
    {
        assert(hooks@.take(i + 1).drop_last() =~= hooks@.take(i as int));
        assert(hooks@.take(i + 1).last() == hooks@[i as int]);
        let h = &hooks[i];
        let code_v = chars_of(h.code.as_str());
        let blank = trim_exec(&code_v).len() == 0;
        let ghost before = out@;
        if h.enabled && str_eq(h.phase.as_str(), phase) && !blank {
            let name_v = chars_of(h.name.as_str());
            let sp: Vec<char> = one_char(' ');
            let a = replace_all_exec(&name_v, &one_char('\n'), &sp);
            let safe = replace_all_exec(&a, &one_char('\r'), &sp);
            let mut four: Vec<char> = Vec::new();
            four.push(' ');
            four.push(' ');
            four.push(' ');
            four.push(' ');
            assert(four@ =~= seq![' ', ' ', ' ', ' ']);
            let code = replace_all_exec(&code_v, &one_char('\t'), &four);
            let code_s = string_of(&code);
            let mut block: Vec<char> = chars_of("    # --- RenForge user hook: ");
            extend_chars(&mut block, &safe);
            extend_str(&mut block, " ---\n");
            extend_str(&mut block, "    try:\n");
            let ind = indent_block(code_s.as_str(), 8);
            extend_str(&mut block, ind.as_str());
            extend_str(&mut block, "\n    except Exception:\n        pass\n");
            assert(block@ =~= hook_text(*h));
            push_chars(out, &block);
        }
        assert(out@ =~= old(out)@ + weave_spec(hooks@.take(i + 1), phase@));
        i = i + 1;
    }
    assert(hooks@.take(i as int) =~= hooks@);
}

// ---------------------------------------------------------------------------
// The runtime file
// ---------------------------------------------------------------------------

// ---------------------------------------------------------------------------
// Hook storage
// ---------------------------------------------------------------------------

/// The hooks of both stores, the global ones first, each tagged with the
/// store it came from (`global` or `project`).
pub open spec fn loaded_hooks_ok(global: Seq<DeliveryHook>, project: Seq<DeliveryHook>, r: Seq<DeliveryHook>) -> bool {
    &&& r.len() == global.len() + project.len()
    &&& forall|i: int| 0 <= i < r.len() ==> {
        let src = if i < global.len() { global[i] } else { project[i - global.len()] };
        let scope = if i < global.len() { "global"@ } else { "project"@ };
        &&& (#[trigger] r[i]).name == src.name
        &&& r[i].phase == src.phase
        &&& r[i].enabled == src.enabled
        &&& r[i].code == src.code
        &&& r[i].scope matches Some(s) && s@ == scope
    }
}

fn tag_hooks(out: &mut Vec<DeliveryHook>, hooks: Vec<DeliveryHook>, scope: &str)
    ensures
        final(out)@.len() == old(out)@.len() + hooks@.len(),
        forall|i: int| 0 <= i < old(out)@.len() ==> #[trigger] final(out)@[i] == old(out)@[i],
        forall|i: int| 0 <= i < hooks@.len() ==> {
            let h = #[trigger] final(out)@[old(out)@.len() + i];
            &&& h.name == hooks@[i].name
            &&& h.phase == hooks@[i].phase
            &&& h.enabled == hooks@[i].enabled
            &&& h.code == hooks@[i].code
            &&& h.scope matches Some(s) && s@ == scope@
        },
{
    let ghost start = out@;
    let ghost input = hooks@;
    let n: usize = hooks.len();
    let mut rest = hooks;
    let mut i: usize = 0;
    while rest.len() > 0
        invariant
            i <= n,
            input.len() == n,
            rest@ == input.skip(i as int),
            out@.len() == start.len() + i,
            forall|j: int| 0 <= j < start.len() ==> #[trigger] out@[j] == start[j],
            forall|j: int| 0 <= j < i ==> {
                let h = #[trigger] out@[start.len() + j];
                &&& h.name == input[j].name
                &&& h.phase == input[j].phase
                &&& h.enabled == input[j].enabled
                &&& h.code == input[j].code
                &&& h.scope matches Some(s) && s@ == scope@
            },
        decreases rest.len(),
    {
        let h = rest.remove(0);
        assert(h == input[i as int]);
        assert(input.skip(i as int).remove(0) =~= input.skip(i + 1));
        out.push(DeliveryHook { name: h.name, phase: h.phase, enabled: h.enabled, code: h.code, scope: Some(scope.to_string()) });
        i = i + 1;
    }
}

/// All delivery hooks: the global store's first, then the project's, each
/// tagged with its scope.
pub fn load_delivery_hooks(global: Vec<DeliveryHook>, project: Vec<DeliveryHook>) -> (r: Vec<DeliveryHook>)
    ensures
        loaded_hooks_ok(global@, project@, r@),
{
    let ghost g = global@;
    let ghost p = project@;
    let mut out: Vec<DeliveryHook> = Vec::new();
    tag_hooks(&mut out, global, "global");
    tag_hooks(&mut out, project, "project");
    assert forall|i: int| 0 <= i < out@.len() implies {
        let src = if i < g.len() { g[i] } else { p[i - g.len()] };
        let scope = if i < g.len() { "global"@ } else { "project"@ };
        &&& (#[trigger] out@[i]).name == src.name
        &&& out@[i].phase == src.phase
        &&& out@[i].enabled == src.enabled
        &&& out@[i].code == src.code
        &&& out@[i].scope matches Some(s) && s@ == scope
    } by {
        if i >= g.len() {
            assert(out@[g.len() + (i - g.len())] == out@[i]);
        } else {
            assert(out@[0 + i] == out@[i]);
        }
    }
    out
}

/// A hook belongs to the global store when its scope is `global`; every other
/// hook to the project's.
pub open spec fn is_global(h: DeliveryHook) -> bool {
    h.scope matches Some(s) && s@ == "global"@
}

pub open spec fn hooks_where(hs: Seq<DeliveryHook>, global: bool) -> Seq<DeliveryHook>
    decreases hs.len(),
{
    if hs.len() == 0 {
        seq![]
    } else if is_global(hs.last()) == global {
        hooks_where(hs.drop_last(), global).push(hs.last())
    } else {
        hooks_where(hs.drop_last(), global)
    }
}

/// Splits the hooks to save into the global store's and the project's, each
/// in order.
pub fn split_hooks(hooks: Vec<DeliveryHook>) -> (r: (Vec<DeliveryHook>, Vec<DeliveryHook>))
    ensures
        r.0@ == hooks_where(hooks@, true),
        r.1@ == hooks_where(hooks@, false),
{
    let ghost input = hooks@;
    let n: usize = hooks.len();
    let mut rest = hooks;
    let mut g: Vec<DeliveryHook> = Vec::new();
    let mut p: Vec<DeliveryHook> = Vec::new();
    let mut i: usize = 0;
    assert(input.take(0) =~= Seq::<DeliveryHook>::empty());
    while rest.len() > 0
        invariant
            i <= n,
            input.len() == n,
            rest@ == input.skip(i as int),
            g@ == hooks_where(input.take(i as int), true),
            p@ == hooks_where(input.take(i as int), false),
        decreases rest.len(),
    {
        let h = rest.remove(0);
        assert(h == input[i as int]);
        assert(input.skip(i as int).remove(0) =~= input.skip(i + 1));
        assert(input.take(i + 1).drop_last() =~= input.take(i as int));
        assert(input.take(i + 1).last() == h);
        let global = match &h.scope {
            Some(s) => str_eq(s.as_str(), "global"),
            None => false,
        };
        if global {
            g.push(h);
        } else {
            p.push(h);
        }
        i = i + 1;
    }
    assert(input.take(i as int) =~= input);
    (g, p)
}

/// Two hooks with the same name, phase, switch and code.
pub open spec fn same_hook(a: DeliveryHook, b: DeliveryHook) -> bool {
    a.name == b.name && a.phase == b.phase && a.enabled == b.enabled && a.code == b.code
}

proof fn lemma_hooks_where_split(hs: Seq<DeliveryHook>)
    ensures
        hooks_where(hs, true).len() + hooks_where(hs, false).len() == hs.len(),
    decreases hs.len(),
{
    if hs.len() > 0 {
        lemma_hooks_where_split(hs.drop_last());
    }
}

proof fn lemma_hooks_where_has(hs: Seq<DeliveryHook>, j: int)
    requires
        0 <= j < hs.len(),
    ensures
        exists|k: int| 0 <= k < hooks_where(hs, is_global(hs[j])).len() && #[trigger] hooks_where(hs, is_global(hs[j]))[k] == hs[j],
    decreases hs.len(),
{
    let g = is_global(hs[j]);
    if j == hs.len() - 1 {
        let w = hooks_where(hs, g);
        assert(w == hooks_where(hs.drop_last(), g).push(hs.last()));
        assert(w[w.len() - 1] == hs[j]);
    } else {
        assert(hs.drop_last()[j] == hs[j]);
        lemma_hooks_where_has(hs.drop_last(), j);
        let prev = hooks_where(hs.drop_last(), g);
        let k = choose|k: int| 0 <= k < prev.len() && #[trigger] prev[k] == hs[j];
        let w = hooks_where(hs, g);
        assert(w[k] == prev[k]);
    }
}

/// A hook is among the loaded ones: with its fields, in the global store
/// exactly when it is a global one.
pub open spec fn comes_back(loaded: Seq<DeliveryHook>, h: DeliveryHook) -> bool {
    exists|i: int| 0 <= i < loaded.len() && same_hook(#[trigger] loaded[i], h) && (is_global(loaded[i]) <==> is_global(h))
}

/// Saving hooks (each to the store its scope names) and loading them back
/// (the global store first) loses none: as many hooks come back as were saved,
/// and each saved hook comes back with its name, phase, switch and code, in
/// the global store exactly when it was a global one.
pub proof fn law_hooks_save_load(hs: Seq<DeliveryHook>, loaded: Seq<DeliveryHook>)
    requires
        loaded_hooks_ok(hooks_where(hs, true), hooks_where(hs, false), loaded),
    ensures
        loaded.len() == hs.len(),
        forall|j: int| 0 <= j < hs.len() ==> comes_back(loaded, #[trigger] hs[j]),
{
    reveal_strlit("global");
    reveal_strlit("project");
    lemma_hooks_where_split(hs);
    let g = hooks_where(hs, true);
    let p = hooks_where(hs, false);
    assert forall|j: int| 0 <= j < hs.len() implies comes_back(loaded, #[trigger] hs[j]) by {
        lemma_hooks_where_has(hs, j);
        if is_global(hs[j]) {
            let k = choose|k: int| 0 <= k < g.len() && #[trigger] g[k] == hs[j];
            assert(same_hook(loaded[k], hs[j]));
            assert(is_global(loaded[k]));
        } else {
            let k = choose|k: int| 0 <= k < p.len() && #[trigger] p[k] == hs[j];
            let i = g.len() + k;
            assert(loaded[i].scope matches Some(s) && s@ == "project"@);
            assert("project"@ != "global"@) by {
                assert("project"@.len() != "global"@.len());
            }
            assert(same_hook(loaded[i], hs[j]));
        }
    }
}

/// One dictionary line: `u"key": u"value",` with both sides escaped.
pub open spec fn dict_line(p: (Seq<char>, Seq<char>)) -> Seq<char> {
    "        u\""@ + py_escape(p.0) + "\": u\""@ + py_escape(p.1) + "\",\n"@
}

pub open spec fn dict_lines(m: Seq<(Seq<char>, Seq<char>)>) -> Seq<char>
    decreases m.len(),
{
    if m.len() == 0 {
        seq![]
    } else {
        dict_lines(m.drop_last()) + dict_line(m.last())
    }
}

/// Whether any hook will be woven (enabled with non-blank code).
pub open spec fn has_hooks(hooks: Seq<DeliveryHook>) -> bool {
    exists|i: int| 0 <= i < hooks.len() && (#[trigger] hooks[i]).enabled && trim(hooks[i].code@).len() > 0
}

/// The channels of the runtime file, with the `{LANG}` placeholder.
pub open spec fn runtime_template() -> Seq<char> {
    RENFORGE_RUNTIME_HEAD@ + RENFORGE_RUNTIME_LANG_LINE@ + RENFORGE_RUNTIME_TAIL@
}

/// The runtime translation file for the dictionaries `say` and `ui`.
pub open spec fn runtime_text(
    say: Seq<(Seq<char>, Seq<char>)>,
    ui: Seq<(Seq<char>, Seq<char>)>,
    target_lang: Seq<char>,
    diagnostic: bool,
    hooks: Seq<DeliveryHook>,
) -> Seq<char> {
    let head = "# RenForge generated translations (runtime, crash-safe)\n"@ + "python early:\n"@
        + "    _renforge_say_map = {\n"@ + dict_lines(say) + "    }\n"@
        + "    _renforge_ui_map = {\n"@ + dict_lines(ui) + "    }\n"@
        + (if diagnostic { RENFORGE_LOG_DIAG@ } else { RENFORGE_LOG_NOOP@ }) + RENFORGE_EARLY_HOOK@
        + "\n"@;
    let early = if has_hooks(hooks) {
        RENFORGE_HOOK_API_EARLY@ + weave_spec(hooks, "early"@) + "\n"@
    } else {
        seq![]
    };
    let init = "init 1000 python:\n"@ + replace_all(runtime_template(), "{LANG}"@, target_lang);
    let late = if has_hooks(hooks) {
        "\n"@ + RENFORGE_HOOK_API_INIT@ + weave_spec(hooks, "init"@)
    } else {
        seq![]
    };
    head + early + init + late
}

fn push_dict(out: &mut String, m: &Vec<(String, String)>)
    ensures
        final(out)@ == old(out)@ + dict_lines(pair_views(m@)),
{
    let mut i: usize = 0;
    assert(pair_views(m@).take(0) =~= Seq::<(Seq<char>, Seq<char>)>::empty());
    while i < m.len()
        invariant
            i <= m.len(),
            out@ == old(out)@ + dict_lines(pair_views(m@).take(i as int)),
        decreases m.len() - i,
    {
        let ghost pv = pair_views(m@);
        assert(pv.take(i + 1).drop_last() =~= pv.take(i as int));
        assert(pv.take(i + 1).last() == (m@[i as int].0@, m@[i as int].1@));
        let mut line: Vec<char> = chars_of("        u\"");
        extend_chars(&mut line, &py_escape_exec(&chars_of(m[i].0.as_str())));
        extend_str(&mut line, "\": u\"");
        extend_chars(&mut line, &py_escape_exec(&chars_of(m[i].1.as_str())));
        extend_str(&mut line, "\",\n");
        push_chars(out, &line);
        assert(out@ =~= old(out)@ + dict_lines(pv.take(i + 1)));
        i = i + 1;
    }
    assert(pair_views(m@).take(i as int) =~= pair_views(m@));
}

fn any_hooks(hooks: &[DeliveryHook]) -> (r: bool)
    ensures
        r == has_hooks(hooks@),
{
    let mut i: usize = 0;
    while i < hooks.len()
        invariant
            i <= hooks.len(),
            forall|j: int| 0 <= j < i ==> !((#[trigger] hooks@[j]).enabled && trim(hooks@[j].code@).len() > 0),
        decreases hooks.len() - i,
    {
        if hooks[i].enabled && trim_exec(&chars_of(hooks[i].code.as_str())).len() > 0 {
            return true;
        }
        i = i + 1;
    }
    false
}

/// Writes the runtime translation file for built dictionaries: the
/// dictionaries and the early hook under `python early`, the channels (with
/// `{LANG}` replaced by the target language) under `init 1000 python`, and the
/// user hooks of each phase.
pub fn runtime_file(maps: &DeliveryMaps, target_lang: &str, diagnostic: bool, hooks: &[DeliveryHook]) -> (r: String)
    ensures
        r@ == runtime_text(pair_views(maps.say@), pair_views(maps.ui@), target_lang@, diagnostic, hooks@),
{
    proof {
        reveal_strlit("{LANG}");
    }
    let mut out = String::new();
    push_text(&mut out, "# RenForge generated translations (runtime, crash-safe)\n");
    push_text(&mut out, "python early:\n");
    push_text(&mut out, "    _renforge_say_map = {\n");
    push_dict(&mut out, &maps.say);
    push_text(&mut out, "    }\n");
    push_text(&mut out, "    _renforge_ui_map = {\n");
    push_dict(&mut out, &maps.ui);
    push_text(&mut out, "    }\n");
    push_text(&mut out, if diagnostic { RENFORGE_LOG_DIAG } else { RENFORGE_LOG_NOOP });
    push_text(&mut out, RENFORGE_EARLY_HOOK);
    push_text(&mut out, "\n");
    let has = any_hooks(hooks);
    if has {
        push_text(&mut out, RENFORGE_HOOK_API_EARLY);
        weave_hooks(&mut out, hooks, "early");
        push_text(&mut out, "\n");
    }
    push_text(&mut out, "init 1000 python:\n");
    let lang_pat = chars_of("{LANG}");
    let mut template = chars_of(RENFORGE_RUNTIME_HEAD);
    extend_str(&mut template, RENFORGE_RUNTIME_LANG_LINE);
    extend_str(&mut template, RENFORGE_RUNTIME_TAIL);
    let runtime = replace_all_exec(&template, &lang_pat, &chars_of(target_lang));
    push_chars(&mut out, &runtime);
    if has {
        push_text(&mut out, "\n");
        push_text(&mut out, RENFORGE_HOOK_API_INIT);
        weave_hooks(&mut out, hooks, "init");
    }
    assert(out@ =~= runtime_text(pair_views(maps.say@), pair_views(maps.ui@), target_lang@, diagnostic, hooks@));
    out
}

/// The message when no row carries a translation to deliver.
pub const NO_TRANSLATIONS: &'static str = "В базе нет сохраненных переводов!";

/// Builds the runtime translation file from the translated rows: an error when
/// there are none, else the file and its counters.
pub fn build_runtime_rpy(
    records: &Vec<DeliveryRecord>,
    target_lang: &str,
    diagnostic: bool,
    hooks: &[DeliveryHook],
) -> (r: Result<(String, BuildCounts), String>)
    ensures
        records.len() == 0 ==> (r matches Err(e) && e@ == NO_TRANSLATIONS@),
        records.len() > 0 ==> (r matches Ok((text, counts)) && {
            let st = deliver(records@);
            &&& text@ == runtime_text(st.0, st.1, target_lang@, diagnostic, hooks@)
            &&& counts.say == st.0.len()
            &&& counts.ui == st.1.len()
            &&& counts.review == st.2.len()
            &&& counts.skipped_bad == st.3
        }),
{
    if records.len() == 0 {
        return Err(NO_TRANSLATIONS.to_string());
    }
    let maps = plan_delivery(records);
    let text = runtime_file(&maps, target_lang, diagnostic, hooks);
    let counts = BuildCounts {
        say: maps.say.len(),
        ui: maps.ui.len(),
        review: maps.review.len(),
        skipped_bad: maps.skipped_bad,
    };
    Ok((text, counts))
}

// ---------------------------------------------------------------------------
// The target language in the channels
// ---------------------------------------------------------------------------

proof fn lemma_replace_len_mono(s: Seq<char>, pat: Seq<char>, r1: Seq<char>, r2: Seq<char>)
    requires
        r1.len() <= r2.len(),
    ensures
        replace_all(s, pat, r1).len() <= replace_all(s, pat, r2).len(),
    decreases s.len(),
{
    if s.len() > 0 && pat.len() > 0 {
        if has_prefix(s, pat) {
            lemma_replace_len_mono(s.skip(pat.len() as int), pat, r1, r2);
        } else {
            lemma_replace_len_mono(s.skip(1), pat, r1, r2);
        }
    }
}

/// When the pattern occurs in `s`, different replacements give different
/// results.
proof fn lemma_replace_injective(s: Seq<char>, pat: Seq<char>, r1: Seq<char>, r2: Seq<char>)
    requires
        pat.len() > 0,
        has_infix(s, pat),
        replace_all(s, pat, r1) == replace_all(s, pat, r2),
    ensures
        r1 == r2,
    decreases s.len(),
{
    let i = choose|i: int| occurs_at(s, pat, i);
    if has_prefix(s, pat) {
        let rest = s.skip(pat.len() as int);
        let a = replace_all(rest, pat, r1);
        let b = replace_all(rest, pat, r2);
        assert(r1 + a == r2 + b);
        if r1.len() < r2.len() {
            lemma_replace_len_mono(rest, pat, r1, r2);
            assert((r1 + a).len() < (r2 + b).len());
        } else if r2.len() < r1.len() {
            lemma_replace_len_mono(rest, pat, r2, r1);
            assert((r2 + b).len() < (r1 + a).len());
        } else {
            assert(r1 =~= (r1 + a).take(r1.len() as int));
            assert(r2 =~= (r2 + b).take(r2.len() as int));
        }
    } else {
        assert(i > 0);
        assert(occurs_at(s.skip(1), pat, i - 1)) by {
            assert(s.skip(1).subrange(i - 1, i - 1 + pat.len()) =~= s.subrange(i, i + pat.len()));
        }
        let a = replace_all(s.skip(1), pat, r1);
        let b = replace_all(s.skip(1), pat, r2);
        assert(seq![s[0]] + a == seq![s[0]] + b);
        assert(a =~= (seq![s[0]] + a).skip(1));
        assert(b =~= (seq![s[0]] + b).skip(1));
        lemma_replace_injective(s.skip(1), pat, r1, r2);
    }
}

/// When the pattern occurs in `s`, the replacement occurs in the result.
proof fn lemma_replace_shows(s: Seq<char>, pat: Seq<char>, rep: Seq<char>)
    requires
        pat.len() > 0,
        has_infix(s, pat),
    ensures
        has_infix(replace_all(s, pat, rep), rep),
    decreases s.len(),
{
    let i = choose|i: int| occurs_at(s, pat, i);
    if has_prefix(s, pat) {
        let r = replace_all(s, pat, rep);
        assert(r.subrange(0, rep.len() as int) =~= rep);
        assert(occurs_at(r, rep, 0));
    } else {
        assert(i > 0);
        assert(occurs_at(s.skip(1), pat, i - 1)) by {
            assert(s.skip(1).subrange(i - 1, i - 1 + pat.len()) =~= s.subrange(i, i + pat.len()));
        }
        lemma_replace_shows(s.skip(1), pat, rep);
        let a = replace_all(s.skip(1), pat, rep);
        let j = choose|j: int| occurs_at(a, rep, j);
        let r = seq![s[0]] + a;
        assert(r.subrange(j + 1, j + 1 + rep.len()) =~= a.subrange(j, j + rep.len()));
        assert(occurs_at(r, rep, j + 1));
    }
}

/// The channels' template has the `{LANG}` placeholder (in the line that
/// names the language table).
proof fn lemma_template_has_placeholder()
    ensures
        has_infix(runtime_template(), "{LANG}"@),
{
    reveal_strlit("            stl = translator.strings[\"{LANG}\"]\n");
    reveal_strlit("{LANG}");
    let h = RENFORGE_RUNTIME_HEAD@;
    let l = RENFORGE_RUNTIME_LANG_LINE@;
    let t = runtime_template();
    assert(l.subrange(38, 44) =~= "{LANG}"@);
    assert(t.subrange(h.len() as int + 38, h.len() as int + 44) =~= l.subrange(38, 44));
    assert(occurs_at(t, "{LANG}"@, h.len() as int + 38));
}

proof fn lemma_infix_around(a: Seq<char>, b: Seq<char>, c: Seq<char>, p: Seq<char>)
    requires
        has_infix(b, p),
    ensures
        has_infix(a + b + c, p),
{
    let j = choose|j: int| occurs_at(b, p, j);
    assert((a + b + c).subrange(a.len() + j, a.len() + j + p.len()) =~= b.subrange(j, j + p.len()));
    assert(occurs_at(a + b + c, p, a.len() + j));
}

/// The channels name the target language: the runtime file holds the target
/// language's name, and two different target languages give two different
/// files for the same dictionaries and hooks.
pub proof fn law_runtime_names_target(
    say: Seq<(Seq<char>, Seq<char>)>,
    ui: Seq<(Seq<char>, Seq<char>)>,
    lang: Seq<char>,
    other: Seq<char>,
    diagnostic: bool,
    hooks: Seq<DeliveryHook>,
)
    ensures
        has_infix(runtime_text(say, ui, lang, diagnostic, hooks), lang),
        lang != other ==> runtime_text(say, ui, lang, diagnostic, hooks) != runtime_text(say, ui, other, diagnostic, hooks),
{
    reveal_strlit("{LANG}");
    lemma_template_has_placeholder();
    let pat = "{LANG}"@;
    let tpl = runtime_template();
    let head = "# RenForge generated translations (runtime, crash-safe)\n"@ + "python early:\n"@
        + "    _renforge_say_map = {\n"@ + dict_lines(say) + "    }\n"@
        + "    _renforge_ui_map = {\n"@ + dict_lines(ui) + "    }\n"@
        + (if diagnostic { RENFORGE_LOG_DIAG@ } else { RENFORGE_LOG_NOOP@ }) + RENFORGE_EARLY_HOOK@
        + "\n"@;
    let early = if has_hooks(hooks) {
        RENFORGE_HOOK_API_EARLY@ + weave_spec(hooks, "early"@) + "\n"@
    } else {
        seq![]
    };
    let late = if has_hooks(hooks) {
        "\n"@ + RENFORGE_HOOK_API_INIT@ + weave_spec(hooks, "init"@)
    } else {
        seq![]
    };
    let pre = head + early + "init 1000 python:\n"@;
    let i1 = replace_all(tpl, pat, lang);
    let i2 = replace_all(tpl, pat, other);
    assert(runtime_text(say, ui, lang, diagnostic, hooks) =~= pre + i1 + late);
    assert(runtime_text(say, ui, other, diagnostic, hooks) =~= pre + i2 + late);
    lemma_replace_shows(tpl, pat, lang);
    lemma_infix_around(pre, i1, late, lang);
    if lang != other && pre + i1 + late == pre + i2 + late {
        assert(i1.len() == i2.len());
        assert(i1 =~= (pre + i1 + late).subrange(pre.len() as int, pre.len() as int + i1.len()));
        assert(i2 =~= (pre + i2 + late).subrange(pre.len() as int, pre.len() as int + i2.len()));
        lemma_replace_injective(tpl, pat, lang, other);
    }
}

} // verus!
