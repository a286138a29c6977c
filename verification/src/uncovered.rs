//! Coverage diagnostics: reading back the log of texts the game showed
//! without a translation.
use vstd::prelude::*;
use crate::models::UncoveredEntry;
use crate::text::{chars_of, lines, lines_exec, slice_chars, string_of, views};

verus! {

/// What the runtime logger writes for one character: backslash, line feed,
/// carriage return and tab escaped.
pub open spec fn log_escape_char(c: char) -> Seq<char> {
    if c == '\\' {
        seq!['\\', '\\']
    } else if c == '\n' {
        seq!['\\', 'n']
    } else if c == '\r' {
        seq!['\\', 'r']
    } else if c == '\t' {
        seq!['\\', 't']
    } else {
        seq![c]
    }
}

/// The logger's escape of a whole text.
pub open spec fn log_escape(s: Seq<char>) -> Seq<char>
    decreases s.len(),
{
    if s.len() == 0 {
        seq![]
    } else {
        log_escape_char(s[0]) + log_escape(s.skip(1))
    }
}

/// Reading a logged text back: `\n`, `\r`, `\t`, `\\` become the character;
/// any other escape keeps its backslash; a final lone backslash stays.
pub open spec fn unescape_spec(s: Seq<char>) -> Seq<char>
    decreases s.len(),
{
    if s.len() == 0 {
        seq![]
    } else if s[0] == '\\' {
        if s.len() == 1 {
            seq!['\\']
        } else {
            let o = s[1];
            (if o == 'n' {
                seq!['\n']
            } else if o == 'r' {
                seq!['\r']
            } else if o == 't' {
                seq!['\t']
            } else if o == '\\' {
                seq!['\\']
            } else {
                seq!['\\', o]
            }) + unescape_spec(s.skip(2))
        }
    } else {
        seq![s[0]] + unescape_spec(s.skip(1))
    }
}

/// Reads back a text of the coverage log.
pub fn unescape_log(s: &str) -> (r: String)
    ensures
        r@ == unescape_spec(s@),
{
    let v = chars_of(s);
    let mut out: Vec<char> = Vec::new();
    let mut i: usize = 0;
    assert(v@.skip(0) =~= v@);
    while i < v.len()
        invariant
            i <= v.len(),
            v@ == s@,
            out@ + unescape_spec(v@.skip(i as int)) == unescape_spec(s@),
        decreases v.len() - i,
    {
        let ghost before = out@;
        let ghost t = v@.skip(i as int);
        if v[i] == '\\' {
            if i + 1 == v.len() {
                out.push('\\');
                assert(t =~= seq!['\\']);
                assert(before + unescape_spec(t) =~= out@ + unescape_spec(v@.skip(i + 1)));
                i = i + 1;
            } else {
                let o = v[i + 1];
                if o == 'n' {
                    out.push('\n');
                } else if o == 'r' {
                    out.push('\r');
                } else if o == 't' {
                    out.push('\t');
                } else if o == '\\' {
                    out.push('\\');
                } else {
                    out.push('\\');
                    out.push(o);
                }
                assert(t.skip(2) =~= v@.skip(i + 2));
                assert(before + unescape_spec(t) =~= out@ + unescape_spec(v@.skip(i + 2)));
                i = i + 2;
            }
        } else {
            out.push(v[i]);
            assert(t.skip(1) =~= v@.skip(i + 1));
            assert(before + unescape_spec(t) =~= out@ + unescape_spec(v@.skip(i + 1)));
            i = i + 1;
        }
    }
    assert(out@ + unescape_spec(v@.skip(i as int)) =~= out@);
    string_of(&out)
}

proof fn lemma_unescape_char(c: char, t: Seq<char>)
    ensures
        unescape_spec(log_escape_char(c) + t) == seq![c] + unescape_spec(t),
{
    let e = log_escape_char(c) + t;
    if c == '\\' || c == '\n' || c == '\r' || c == '\t' {
        assert(e.skip(2) =~= t);
    } else {
        assert(e.skip(1) =~= t);
    }
}

/// Reading the log gives back exactly the text the game showed.
pub proof fn law_log_round_trip(s: Seq<char>)
    ensures
        unescape_spec(log_escape(s)) == s,
    decreases s.len(),
{
    if s.len() > 0 {
        law_log_round_trip(s.skip(1));
        lemma_unescape_char(s[0], log_escape(s.skip(1)));
        assert(seq![s[0]] + s.skip(1) =~= s);
    }
}

// ---------------------------------------------------------------------------
// The log
// ---------------------------------------------------------------------------

/// A log line as (channel, text): split at its first tab; none without a tab.
pub open spec fn log_fields(line: Seq<char>) -> Option<(Seq<char>, Seq<char>)> {
    if line.contains('\t') {
        let i = choose|i: int| 0 <= i < line.len() && line[i] == '\t' && !line.take(i).contains('\t');
        Some((line.take(i), unescape_spec(line.skip(i + 1))))
    } else {
        None
    }
}

/// What the database knows of a text: (present, translated); the later row wins.
pub open spec fn db_lookup(db: Seq<(Seq<char>, bool)>, text: Seq<char>) -> Option<bool>
    decreases db.len(),
{
    if db.len() == 0 {
        None
    } else if db.last().0 == text {
        Some(db.last().1)
    } else {
        db_lookup(db.drop_last(), text)
    }
}

pub open spec fn entry_view(e: UncoveredEntry) -> (Seq<char>, Seq<char>, bool, bool) {
    (e.chan@, e.text@, e.in_db, e.translated)
}

/// The entries of the log lines, in order: lines without a tab and repeats of
/// an earlier (channel, text) are left out.
pub open spec fn uncovered_fold(ls: Seq<Seq<char>>, db: Seq<(Seq<char>, bool)>) -> Seq<(Seq<char>, Seq<char>, bool, bool)>
    decreases ls.len(),
{
    if ls.len() == 0 {
        seq![]
    } else {
        let prev = uncovered_fold(ls.drop_last(), db);
        let l = ls.last();
        if l.len() == 0 {
            prev
        } else {
            match log_fields(l) {
                None => prev,
                Some(f) => if exists|k: int| 0 <= k < prev.len() && prev[k].0 == f.0 && prev[k].1 == f.1 {
                    prev
                } else {
                    match db_lookup(db, f.1) {
                        Some(t) => prev.push((f.0, f.1, true, t)),
                        None => prev.push((f.0, f.1, false, false)),
                    }
                },
            }
        }
    }
}

pub open spec fn db_views(db: Seq<(String, bool)>) -> Seq<(Seq<char>, bool)> {
    db.map_values(|x: (String, bool)| (x.0@, x.1))
}

fn db_lookup_exec(db: &Vec<(String, bool)>, text: &String) -> (r: Option<bool>)
    ensures
        r == db_lookup(db_views(db@), text@),
{
    let ghost dv = db_views(db@);
    let mut i: usize = db.len();
    assert(dv.take(i as int) =~= dv);
    while i > 0
        invariant
            i <= db.len(),
            dv == db_views(db@),
            db_lookup(dv.take(i as int), text@) == db_lookup(dv, text@),
        decreases i,
    {
        assert(dv.take(i as int).drop_last() =~= dv.take(i - 1));
        assert(dv.take(i as int).last() == dv[i - 1]);
        if db[i - 1].0 == *text {
            return Some(db[i - 1].1);
        }
        i = i - 1;
    }
    None
}

/// Parses the coverage log: one entry per distinct (channel, text), with
/// whether the database holds the text and whether it is translated there.
pub fn parse_uncovered(content: &str, db: &Vec<(String, bool)>) -> (r: Vec<UncoveredEntry>)
    ensures
        r@.map_values(|e: UncoveredEntry| entry_view(e)) == uncovered_fold(lines(content@), db_views(db@)),
{
    let ls = lines_exec(&chars_of(content));
    let ghost lv = views(ls@);
    let mut out: Vec<UncoveredEntry> = Vec::new();
    let mut i: usize = 0;
    while i < ls.len()
        invariant
            i <= ls.len(),
            lv == views(ls@),
            lv == lines(content@),
            out@.map_values(|e: UncoveredEntry| entry_view(e)) == uncovered_fold(lv.take(i as int), db_views(db@)),
        decreases ls.len() - i,
    {
        assert(lv.take(i + 1).drop_last() =~= lv.take(i as int));
        assert(lv.take(i + 1).last() == ls@[i as int]@);
        let ghost prev = out@.map_values(|e: UncoveredEntry| entry_view(e));
        let l = &ls[i];
        if l.len() > 0 {
            let mut t: usize = 0;
            while t < l.len() && l[t] != '\t'
                invariant
                    t <= l.len(),
                    forall|k: int| 0 <= k < t ==> l@[k] != '\t',
                decreases l.len() - t,
            {
                t = t + 1;
            }
            if t < l.len() {
                proof {
                    assert(l@.contains('\t'));
                    let c = choose|c: int| 0 <= c < l@.len() && l@[c] == '\t' && !l@.take(c).contains('\t');
                    if c < t {
                        assert(l@[c] != '\t');
                    }
                    if t < c {
                        assert(l@.take(c)[t as int] == '\t');
                    }
                    assert(!l@.take(t as int).contains('\t'));
                }
                let chan = string_of(&slice_chars(l, 0, t));
                let rest = slice_chars(l, t + 1, l.len());
                let text = unescape_log(string_of(&rest).as_str());
                assert(chan@ =~= l@.take(t as int));
                assert(rest@ =~= l@.skip(t + 1));
                let mut k: usize = 0;
                let mut dup = false;
                while k < out.len()
                    invariant
                        k <= out.len(),
                        prev == out@.map_values(|e: UncoveredEntry| entry_view(e)),
                        dup == exists|j: int| 0 <= j < k && prev[j].0 == chan@ && prev[j].1 == text@,
                    decreases out.len() - k,
                {
                    assert(prev[k as int] == entry_view(out@[k as int]));
                    if out[k].chan == chan && out[k].text == text {
                        dup = true;
                    }
                    k = k + 1;
                }
                if !dup {
                    let found = db_lookup_exec(db, &text);
                    let (in_db, translated) = match found {
                        Some(tr) => (true, tr),
                        None => (false, false),
                    };
                    out.push(UncoveredEntry { chan, text, in_db, translated });
                    assert(out@.map_values(|e: UncoveredEntry| entry_view(e)) =~= prev.push(
                        (chan@, text@, in_db, translated),
                    ));
                }
            } else {
                assert(!l@.contains('\t'));
            }
        }
        i = i + 1;
    }
    assert(lv.take(i as int) =~= lv);
    out
}

} // verus!
