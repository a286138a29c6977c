//! Speaker codes and the display names of the characters.
use vstd::prelude::*;
use crate::text::{
    index_from, index_of, chars_of, has_infix, has_prefix, lines, lines_exec, pair_views, replace_all,
    replace_all_exec, slice_chars, str_contains, str_starts_with, string_of, trim, trim_exec,
    views,
};

verus! {

/// Text outside `{...}` tags, from a position inside (`in_tag`) or outside a tag.
pub open spec fn untagged(s: Seq<char>, in_tag: bool) -> Seq<char>
    decreases s.len(),
{
    if s.len() == 0 {
        seq![]
    } else if s[0] == '{' {
        untagged(s.skip(1), true)
    } else if s[0] == '}' {
        untagged(s.skip(1), false)
    } else if in_tag {
        untagged(s.skip(1), true)
    } else {
        seq![s[0]] + untagged(s.skip(1), false)
    }
}

/// Removes Ren'Py text tags: `{color=#f00}Text{/color}` becomes `Text`.
pub fn strip_renpy_tags(s: &str) -> (r: String)
    ensures
        r@ == untagged(s@, false),
{
    let v = chars_of(s);
    let mut out: Vec<char> = Vec::new();
    let mut in_tag = false;
    let mut i: usize = 0;
    assert(v@.skip(0) =~= v@);
    while i < v.len()
        invariant
            i <= v.len(),
            v@ == s@,
            out@ + untagged(v@.skip(i as int), in_tag) == untagged(s@, false),
        decreases v.len() - i,
    {
        let ghost before = out@;
        let ghost t = v@.skip(i as int);
        assert(t.skip(1) =~= v@.skip(i + 1));
        let c = v[i];
        if c == '{' {
            in_tag = true;
        } else if c == '}' {
            in_tag = false;
        } else if !in_tag {
            out.push(c);
            assert(before + untagged(t, false) =~= out@ + untagged(v@.skip(i + 1), false));
        }
        i = i + 1;
    }
    assert(out@ + untagged(v@.skip(i as int), in_tag) =~= out@);
    string_of(&out)
}

/// The names recorded for speaker codes in the database, cleaned of tags;
/// codes whose name is empty after cleaning are left out.
pub open spec fn db_names(rows: Seq<(Seq<char>, Seq<char>)>) -> Seq<(Seq<char>, Seq<char>)>
    decreases rows.len(),
{
    if rows.len() == 0 {
        seq![]
    } else {
        let prev = db_names(rows.drop_last());
        let clean = untagged(rows.last().1, false);
        if clean.len() > 0 {
            prev.push((rows.last().0, clean))
        } else {
            prev
        }
    }
}

/// Cleans the (code, name) rows of the character table.
pub fn names_from_rows(rows: &Vec<(String, String)>) -> (r: Vec<(String, String)>)
    ensures
        pair_views(r@) == db_names(pair_views(rows@)),
{
    let ghost rv = pair_views(rows@);
    let mut out: Vec<(String, String)> = Vec::new();
    let mut i: usize = 0;
    while i < rows.len()
        invariant
            i <= rows.len(),
            rv == pair_views(rows@),
            pair_views(out@) == db_names(rv.take(i as int)),
        decreases rows.len() - i,
    {
        assert(rv.take(i + 1).drop_last() =~= rv.take(i as int));
        assert(rv.take(i + 1).last() == rv[i as int]);
        let clean = strip_renpy_tags(rows[i].1.as_str());
        if !clean.as_str().is_empty() {
            let ghost before = pair_views(out@);
            out.push((rows[i].0.clone(), clean));
            assert(pair_views(out@) =~= before.push((rows@[i as int].0@, untagged(rows@[i as int].1@, false))));
        }
        i = i + 1;
    }
    assert(rv.take(i as int) =~= rv);
    out
}

/// The text between the first `q` of `val` and the next `q`.
pub open spec fn quoted_between(val: Seq<char>, q: char) -> Option<Seq<char>> {
    let s = index_of(val, q);
    if s < 0 {
        None
    } else {
        let rest = val.skip(s + 1);
        let e = index_of(rest, q);
        if e < 0 {
            None
        } else {
            Some(rest.take(e))
        }
    }
}

/// The (code, name) a script line defines: `define <code> = Character("Name", ...)`
/// (every "define" removed from the part before `=`, which is then trimmed;
/// the name is between the first pair of double quotes of the value, or of
/// single quotes when the value has no double quote, and is cleaned of tags).
pub open spec fn define_line(line: Seq<char>) -> Option<(Seq<char>, Seq<char>)> {
    let t = trim(line);
    let eq = index_of(t, '=');
    if has_prefix(t, "define "@) && has_infix(t, "Character"@) && eq >= 0 {
        let code = trim(replace_all(t.take(eq), "define"@, seq![]));
        let val = t.skip(eq + 1);
        let q = if index_of(val, '"') >= 0 { '"' } else { '\'' };
        match quoted_between(val, q) {
            Some(n) => Some((code, untagged(n, false))),
            None => None,
        }
    } else {
        None
    }
}

/// The definitions of a script, in order.
pub open spec fn script_defines(ls: Seq<Seq<char>>) -> Seq<(Seq<char>, Seq<char>)>
    decreases ls.len(),
{
    if ls.len() == 0 {
        seq![]
    } else {
        match define_line(ls.last()) {
            Some(d) => script_defines(ls.drop_last()).push(d),
            None => script_defines(ls.drop_last()),
        }
    }
}

fn quoted_between_exec(val: &Vec<char>, q: char) -> (r: Option<Vec<char>>)
    ensures
        match r {
            Some(n) => quoted_between(val@, q) == Some(n@),
            None => quoted_between(val@, q) is None,
        },
{
    assert(val@.skip(0) =~= val@);
    match index_from(val, 0, q) {
        None => None,
        Some(s) => {
            let ghost rest = val@.skip(s + 1);
            match index_from(val, s + 1, q) {
                None => None,
                Some(e) => {
                    let n = slice_chars(val, s + 1, e);
                    assert(n@ =~= rest.take(e - s - 1));
                    Some(n)
                },
            }
        },
    }
}

/// The (code, name) a script line defines, if it is a character definition.
pub fn parse_define_line(line: &Vec<char>) -> (r: Option<(String, String)>)
    ensures
        match r {
            Some(d) => define_line(line@) == Some((d.0@, d.1@)),
            None => define_line(line@) is None,
        },
{
    proof {
        reveal_strlit("define");
    }
    let t = trim_exec(line);
    let ts = string_of(&t);
    if !(str_starts_with(ts.as_str(), "define ") && str_contains(ts.as_str(), "Character")) {
        return None;
    }
    assert(t@.skip(0) =~= t@);
    match index_from(&t, 0, '=') {
        None => None,
        Some(eq) => {
            let left = slice_chars(&t, 0, eq);
            let pat = chars_of("define");
            let empty: Vec<char> = Vec::new();
            let code = trim_exec(&replace_all_exec(&left, &pat, &empty));
            assert(left@ =~= t@.take(eq as int));
            assert(empty@ =~= Seq::<char>::empty());
            let val = slice_chars(&t, eq + 1, t.len());
            assert(val@ =~= t@.skip(eq + 1));
            assert(val@.skip(0) =~= val@);
            let has_dq = index_from(&val, 0, '"').is_some();
            let q = if has_dq { '"' } else { '\'' };
            match quoted_between_exec(&val, q) {
                Some(n) => {
                    let name = crate::characters::strip_renpy_tags(string_of(&n).as_str());
                    Some((string_of(&code), name))
                },
                None => None,
            }
        },
    }
}

/// The character definitions of a `.rpy` script, in order.
pub fn defines_from_script(content: &str) -> (r: Vec<(String, String)>)
    ensures
        pair_views(r@) == script_defines(lines(content@)),
{
    let ls = lines_exec(&chars_of(content));
    let ghost lv = views(ls@);
    let mut out: Vec<(String, String)> = Vec::new();
    let mut i: usize = 0;
    while i < ls.len()
        invariant
            i <= ls.len(),
            lv == views(ls@),
            lv == lines(content@),
            pair_views(out@) == script_defines(lv.take(i as int)),
        decreases ls.len() - i,
    {
        assert(lv.take(i + 1).drop_last() =~= lv.take(i as int));
        assert(lv.take(i + 1).last() == ls@[i as int]@);
        match parse_define_line(&ls[i]) {
            Some(d) => {
                let ghost before = pair_views(out@);
                let ghost dv = (d.0@, d.1@);
                out.push(d);
                assert(pair_views(out@) =~= before.push(dv));
            },
            None => {},
        }
        i = i + 1;
    }
    assert(lv.take(i as int) =~= lv);
    out
}

} // verus!
