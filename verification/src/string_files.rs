//! Splitting the strings of a workspace into one export file per script: the
//! files in path order, the strings of each file by line.
use vstd::prelude::*;
use crate::export::ExportRow;
use crate::order::{find_slot, lemma_insert_sorted, strictly_sorted};
use crate::text::{chars_of, string_views, trim, trim_exec};

verus! {

// ---------------------------------------------------------------------------
// Ordering the strings of one file by line
// ---------------------------------------------------------------------------

/// The strings of `s` at line `l`, in order.
pub open spec fn of_line(s: Seq<ExportRow>, l: i64) -> Seq<ExportRow>
    decreases s.len(),
{
    if s.len() == 0 {
        seq![]
    } else if s.last().line == l {
        of_line(s.drop_last(), l).push(s.last())
    } else {
        of_line(s.drop_last(), l)
    }
}

/// `out` is `input` stably sorted by line.
pub open spec fn line_sorted(input: Seq<ExportRow>, out: Seq<ExportRow>) -> bool {
    &&& out.len() == input.len()
    &&& forall|i: int, j: int| 0 <= i < j < out.len() ==> (#[trigger] out[i]).line <= (#[trigger] out[j]).line
    &&& forall|l: i64| #[trigger] of_line(out, l) == of_line(input, l)
}

proof fn lemma_of_line_concat(a: Seq<ExportRow>, b: Seq<ExportRow>, l: i64)
    ensures
        of_line(a + b, l) == of_line(a, l) + of_line(b, l),
    decreases b.len(),
{
    if b.len() == 0 {
        assert(a + b =~= a);
        assert(of_line(a, l) + of_line(b, l) =~= of_line(a, l));
    } else {
        assert((a + b).drop_last() =~= a + b.drop_last());
        assert((a + b).last() == b.last());
        lemma_of_line_concat(a, b.drop_last(), l);
        if b.last().line == l {
            assert(of_line(a, l) + of_line(b.drop_last(), l).push(b.last()) =~= (of_line(a, l) + of_line(
                b.drop_last(),
                l,
            )).push(b.last()));
        }
    }
}

proof fn lemma_of_line_none(b: Seq<ExportRow>, l: i64)
    requires
        forall|j: int| 0 <= j < b.len() ==> (#[trigger] b[j]).line != l,
    ensures
        of_line(b, l) == Seq::<ExportRow>::empty(),
    decreases b.len(),
{
    if b.len() > 0 {
        lemma_of_line_none(b.drop_last(), l);
    }
}

proof fn lemma_of_line_single(y: ExportRow, l: i64)
    ensures
        of_line(seq![y], l) == if y.line == l { seq![y] } else { Seq::<ExportRow>::empty() },
{
    assert(seq![y].drop_last() =~= Seq::<ExportRow>::empty());
    assert(seq![y].last() == y);
    assert(of_line(Seq::<ExportRow>::empty(), l) == Seq::<ExportRow>::empty());
    assert(Seq::<ExportRow>::empty().push(y) =~= seq![y]);
}

/// The strings of one file ordered by line, keeping the order of strings on
/// the same line.
pub fn sort_by_line(rows: Vec<ExportRow>) -> (out: Vec<ExportRow>)
    ensures
        line_sorted(rows@, out@),
{
    let ghost input = rows@;
    let n: usize = rows.len();
    let mut rest = rows;
    let mut out: Vec<ExportRow> = Vec::new();
    let mut i: usize = 0;
    while rest.len() > 0
        invariant
            i <= input.len(),
            input.len() == n,
            rest@ == input.skip(i as int),
            line_sorted(input.take(i as int), out@),
        decreases rest.len(),
    {
        let x = rest.remove(0);
        assert(x == input[i as int]);
        let mut p: usize = 0;
        while p < out.len() && out[p].line <= x.line
            invariant
                p <= out.len(),
                forall|k: int| 0 <= k < p ==> (#[trigger] out@[k]).line <= x.line,
            decreases out.len() - p,
        {
            p = p + 1;
        }
        let ghost old_out = out@;
        let ghost a = old_out.subrange(0, p as int);
        let ghost b = old_out.subrange(p as int, old_out.len() as int);
        proof {
            assert(old_out =~= a + b);
            assert forall|j: int| 0 <= j < b.len() implies (#[trigger] b[j]).line > x.line by {
                assert(b[j] == old_out[p + j]);
                if j > 0 {
                    assert(old_out[p as int].line <= old_out[p + j].line);
                }
            }
        }
        out.insert(p, x);
        proof {
            assert(out@ =~= a + seq![x] + b);
            assert(input.take(i + 1) =~= input.take(i as int).push(x));
            assert(input.take(i as int).push(x).drop_last() =~= input.take(i as int));
            assert(input.skip(i as int).remove(0) =~= input.skip(i + 1));
            assert forall|ii: int, jj: int| 0 <= ii < jj < out@.len() implies (#[trigger] out@[ii]).line <= (
            #[trigger] out@[jj]).line by {
                if ii < p && jj > p {
                    assert(out@[ii] == old_out[ii]);
                    assert(out@[jj] == b[jj - p - 1]);
                } else if jj < p {
                    assert(out@[ii] == old_out[ii]);
                    assert(out@[jj] == old_out[jj]);
                } else if ii > p {
                    assert(out@[ii] == old_out[ii - 1]);
                    assert(out@[jj] == old_out[jj - 1]);
                } else if ii == p {
                    assert(out@[jj] == b[jj - p - 1]);
                } else {
                    assert(out@[ii] == a[ii]);
                }
            }
            assert forall|l: i64| #[trigger] of_line(out@, l) == of_line(input.take(i + 1), l) by {
                lemma_of_line_concat(a + seq![x], b, l);
                lemma_of_line_concat(a, seq![x], l);
                lemma_of_line_single(x, l);
                lemma_of_line_concat(a, b, l);
                if x.line == l {
                    lemma_of_line_none(b, l);
                    assert(of_line(a, l) + seq![x] + Seq::<ExportRow>::empty() =~= of_line(a, l).push(x));
                    assert(of_line(a, l) + Seq::<ExportRow>::empty() =~= of_line(a, l));
                } else {
                    assert(of_line(a, l) + Seq::<ExportRow>::empty() + of_line(b, l) =~= of_line(a, l) + of_line(b, l));
                }
            }
        }
        i = i + 1;
    }
    assert(input.take(i as int) =~= input);
    out
}

// ---------------------------------------------------------------------------
// One file per script
// ---------------------------------------------------------------------------

/// The export file of a string: its script, or `_unknown` when it has none.
pub open spec fn group_key(r: ExportRow) -> Seq<char> {
    if trim(r.file@).len() == 0 {
        "_unknown"@
    } else {
        r.file@
    }
}

/// The strings of `s` that go to file `k`, in order.
pub open spec fn of_key(s: Seq<ExportRow>, k: Seq<char>) -> Seq<ExportRow>
    decreases s.len(),
{
    if s.len() == 0 {
        seq![]
    } else if group_key(s.last()) == k {
        of_key(s.drop_last(), k).push(s.last())
    } else {
        of_key(s.drop_last(), k)
    }
}

proof fn lemma_of_key_none(s: Seq<ExportRow>, k: Seq<char>)
    requires
        forall|j: int| 0 <= j < s.len() ==> group_key(#[trigger] s[j]) != k,
    ensures
        of_key(s, k) == Seq::<ExportRow>::empty(),
    decreases s.len(),
{
    if s.len() > 0 {
        lemma_of_key_none(s.drop_last(), k);
    }
}

proof fn lemma_of_key_nonempty(s: Seq<ExportRow>, i: int)
    requires
        0 <= i < s.len(),
    ensures
        of_key(s, group_key(s[i])).len() > 0,
    decreases s.len(),
{
    if i < s.len() - 1 {
        assert(s.drop_last()[i] == s[i]);
        lemma_of_key_nonempty(s.drop_last(), i);
    }
}

/// The file names of an export, in order.
pub open spec fn file_names(gs: Seq<(String, Vec<ExportRow>)>) -> Seq<Seq<char>> {
    gs.map_values(|g: (String, Vec<ExportRow>)| g.0@)
}

/// The export files of a set of strings: the names in strictly increasing
/// order, one for each script that has strings and only those, each with the
/// strings of its script stably sorted by line.
pub open spec fn export_files(rows: Seq<ExportRow>, gs: Seq<(String, Vec<ExportRow>)>) -> bool {
    &&& strictly_sorted(file_names(gs))
    &&& forall|i: int| 0 <= i < rows.len() ==> file_names(gs).contains(group_key(#[trigger] rows[i]))
    &&& forall|j: int| 0 <= j < gs.len() ==> of_key(rows, (#[trigger] gs[j]).0@).len() > 0
    &&& forall|j: int| 0 <= j < gs.len() ==> line_sorted(of_key(rows, (#[trigger] gs[j]).0@), gs[j].1@)
}

pub open spec fn group_views(gs: Seq<Vec<ExportRow>>) -> Seq<Seq<ExportRow>> {
    gs.map_values(|g: Vec<ExportRow>| g@)
}

/// The message when there is nothing to export.
pub const NO_EXPORT_ROWS: &'static str = "В базе нет строк для экспорта.";

/// The grouping state after some strings: sorted names, and for each name the
/// strings read so far that go to it.
pub open spec fn grouping_ok(rows: Seq<ExportRow>, keys: Seq<Seq<char>>, groups: Seq<Seq<ExportRow>>) -> bool {
    &&& strictly_sorted(keys)
    &&& groups.len() == keys.len()
    &&& forall|i: int| 0 <= i < rows.len() ==> keys.contains(group_key(#[trigger] rows[i]))
    &&& forall|j: int| 0 <= j < keys.len() ==> #[trigger] groups[j] == of_key(rows, keys[j])
    &&& forall|j: int| 0 <= j < keys.len() ==> of_key(rows, #[trigger] keys[j]).len() > 0
}

fn group_key_exec(r: &ExportRow) -> (k: String)
    ensures
        k@ == group_key(*r),
{
    if trim_exec(&chars_of(r.file.as_str())).len() == 0 {
        "_unknown".to_string()
    } else {
        r.file.clone()
    }
}

/// Splits the strings of a workspace into export files: an error when there
/// are none, else one file per script (strings without one go to `_unknown`),
/// the files in name order, the strings of each by line.
pub fn group_export_rows(rows: Vec<ExportRow>) -> (r: Result<Vec<(String, Vec<ExportRow>)>, String>)
    ensures
        rows@.len() == 0 <==> r is Err,
        r matches Err(e) ==> e@ == NO_EXPORT_ROWS@,
        r matches Ok(gs) ==> export_files(rows@, gs@),
{
    if rows.len() == 0 {
        return Err(NO_EXPORT_ROWS.to_string());
    }
    let ghost input = rows@;
    let n: usize = rows.len();
    let mut rest = rows;
    let mut keys: Vec<String> = Vec::new();
    let mut groups: Vec<Vec<ExportRow>> = Vec::new();
    let mut i: usize = 0;
    while rest.len() > 0
        invariant
            i <= input.len(),
            input.len() == n,
            rest@ == input.skip(i as int),
            grouping_ok(input.take(i as int), string_views(keys@), group_views(groups@)),
        decreases rest.len(),
    {
        let ghost pre = input.take(i as int);
        let ghost kv = string_views(keys@);
        let ghost gv = group_views(groups@);
        let x = rest.remove(0);
        assert(x == input[i as int]);
        assert(input.skip(i as int).remove(0) =~= input.skip(i + 1));
        let ghost nxt = input.take(i + 1);
        assert(nxt =~= pre.push(x));
        assert(nxt.drop_last() =~= pre);
        let k = group_key_exec(&x);
        let (p, found) = find_slot(&keys, &k);
        if found {
            let mut g = groups.remove(p);
            g.push(x);
            groups.insert(p, g);
            proof {
                let gv2 = group_views(groups@);
                assert(kv[p as int] == k@);
                assert(gv2 =~= gv.update(p as int, gv[p as int].push(x)));
                assert forall|j: int| 0 <= j < kv.len() implies #[trigger] gv2[j] == of_key(nxt, kv[j]) by {
                    if j != p {
                        assert(kv[j] != k@) by {
                            if j < p {
                                assert(crate::order::lex_lt(kv[j], kv[p as int]));
                            } else {
                                assert(crate::order::lex_lt(kv[p as int], kv[j]));
                            }
                            crate::order::lemma_lex_irreflexive(k@);
                        }
                    }
                }
                assert forall|j: int| 0 <= j < kv.len() implies of_key(nxt, #[trigger] kv[j]).len() > 0 by {
                    assert(of_key(nxt, kv[j]).len() >= of_key(pre, kv[j]).len());
                }
                assert forall|ii: int| 0 <= ii < nxt.len() implies kv.contains(group_key(#[trigger] nxt[ii])) by {
                    if ii < pre.len() {
                        assert(nxt[ii] == pre[ii]);
                    } else {
                        assert(kv[p as int] == group_key(x));
                    }
                }
            }
        } else {
            let ghost ks = k@;
            keys.insert(p, k);
            let mut g: Vec<ExportRow> = Vec::new();
            g.push(x);
            groups.insert(p, g);
            proof {
                let kv2 = string_views(keys@);
                let gv2 = group_views(groups@);
                assert(kv2 =~= kv.insert(p as int, ks));
                assert(gv2 =~= gv.insert(p as int, seq![x]));
                lemma_insert_sorted(kv, p as int, ks);
                assert forall|jj: int| 0 <= jj < pre.len() implies group_key(#[trigger] pre[jj]) != ks by {
                    assert(kv.contains(group_key(pre[jj])));
                }
                lemma_of_key_none(pre, ks);
                assert(of_key(nxt, ks) =~= seq![x]);
                assert forall|j: int| 0 <= j < kv2.len() implies #[trigger] gv2[j] == of_key(nxt, kv2[j]) by {
                    if j < p {
                        assert(kv2[j] == kv[j] && gv2[j] == gv[j]);
                        assert(kv[j] != ks);
                    } else if j > p {
                        assert(kv2[j] == kv[j - 1] && gv2[j] == gv[j - 1]);
                        assert(kv[j - 1] != ks);
                    }
                }
                assert forall|j: int| 0 <= j < kv2.len() implies of_key(nxt, #[trigger] kv2[j]).len() > 0 by {
                    if j < p {
                        assert(kv2[j] == kv[j]);
                        assert(of_key(nxt, kv[j]).len() >= of_key(pre, kv[j]).len());
                    } else if j > p {
                        assert(kv2[j] == kv[j - 1]);
                        assert(of_key(nxt, kv[j - 1]).len() >= of_key(pre, kv[j - 1]).len());
                    }
                }
                assert forall|ii: int| 0 <= ii < nxt.len() implies kv2.contains(group_key(#[trigger] nxt[ii])) by {
                    if ii < pre.len() {
                        assert(nxt[ii] == pre[ii]);
                        let jj = choose|jj: int| 0 <= jj < kv.len() && kv[jj] == group_key(pre[ii]);
                        if jj < p {
                            assert(kv2[jj] == kv[jj]);
                        } else {
                            assert(kv2[jj + 1] == kv[jj]);
                        }
                    } else {
                        assert(kv2[p as int] == ks);
                    }
                }
            }
        }
        i = i + 1;
    }
    assert(input.take(i as int) =~= input);
    let ghost kv = string_views(keys@);
    let ghost gv = group_views(groups@);
    let mut out: Vec<(String, Vec<ExportRow>)> = Vec::new();
    let mut j: usize = 0;
    let m: usize = keys.len();
    while keys.len() > 0
        invariant
            j <= m,
            kv.len() == m,
            string_views(keys@) == kv.skip(j as int),
            group_views(groups@) == gv.skip(j as int),
            grouping_ok(input, kv, gv),
            out@.len() == j,
            groups.len() == keys.len(),
            forall|t: int| 0 <= t < j ==> (#[trigger] out@[t]).0@ == kv[t] && line_sorted(gv[t], out@[t].1@),
        decreases keys.len(),
    {
        let ghost old_keys = keys@;
        let ghost old_groups = groups@;
        assert(string_views(old_keys).len() == old_keys.len());
        assert(j < m);
        let k = keys.remove(0);
        let g = groups.remove(0);
        assert(keys@ =~= old_keys.skip(1));
        assert(groups@ =~= old_groups.skip(1));
        assert(string_views(keys@) =~= kv.skip(j + 1)) by {
            assert forall|t: int| 0 <= t < keys@.len() implies string_views(keys@)[t] == kv.skip(j + 1)[t] by {
                assert(string_views(old_keys)[t + 1] == kv.skip(j as int)[t + 1]);
                assert(string_views(old_keys)[t + 1] == old_keys[t + 1]@);
                assert(keys@[t] == old_keys[t + 1]);
            }
        }
        assert(group_views(groups@) =~= gv.skip(j + 1)) by {
            assert forall|t: int| 0 <= t < groups@.len() implies #[trigger] group_views(groups@)[t] == gv.skip(j + 1)[t] by {
                assert(group_views(old_groups)[t + 1] == gv.skip(j as int)[t + 1]);
            }
        }
        assert(k@ == kv.skip(j as int)[0]);
        assert(g@ == gv.skip(j as int)[0]);
        let sorted = sort_by_line(g);
        out.push((k, sorted));
        j = j + 1;
    }
    proof {
        assert(file_names(out@) =~= kv);
        assert forall|t: int| 0 <= t < out@.len() implies line_sorted(of_key(input, (#[trigger] out@[t]).0@), out@[t].1@) by {
            assert(gv[t] == of_key(input, kv[t]));
        }
        assert forall|t: int| 0 <= t < out@.len() implies of_key(input, (#[trigger] out@[t]).0@).len() > 0 by {
            assert(out@[t].0@ == kv[t]);
        }
    }
    Ok(out)
}

} // verus!
