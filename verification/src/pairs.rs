//! Language-pair workspaces: their names, their flags, their order, and the
//! propagation of a saved translation to identical originals.
use vstd::prelude::*;
use crate::models::{DbEntry, PairInfo};
use crate::text::{
    alphanumeric, char_is_alphanumeric, chars_of, extend_chars, lowercase, str_eq,
    str_to_lowercase, string_of, trim, trim_str, pair_views,
};

verus! {

// ---------------------------------------------------------------------------
// Pair names
// ---------------------------------------------------------------------------

/// Letters and digits kept, everything else `_`.
pub open spec fn token_chars(s: Seq<char>) -> Seq<char> {
    s.map_values(|c: char| if alphanumeric(c) { c } else { '_' })
}

/// A language name made safe for a file name: trimmed, lower-cased, letters
/// and digits kept and everything else `_`; `x` when nothing is left.
pub open spec fn sanitize(s: Seq<char>) -> Seq<char> {
    let m = token_chars(lowercase(trim(s)));
    if m.len() == 0 {
        seq!['x']
    } else {
        m
    }
}

/// The file-safe token of a language name.
pub fn sanitize_token(s: &str) -> (r: String)
    ensures
        r@ == sanitize(s@),
{
    let t = trim_str(s);
    let l = chars_of(str_to_lowercase(t.as_str()).as_str());
    let mut out: Vec<char> = Vec::new();
    let mut i: usize = 0;
    while i < l.len()
        invariant
            i <= l.len(),
            l@ == lowercase(trim(s@)),
            out@ == token_chars(l@).take(i as int),
        decreases l.len() - i,
    {
        let c = l[i];
        out.push(if char_is_alphanumeric(c) { c } else { '_' });
        i = i + 1;
        assert(out@ =~= token_chars(l@).take(i as int));
    }
    assert(token_chars(l@).take(i as int) =~= token_chars(l@));
    if out.len() == 0 {
        out.push('x');
        assert(out@ =~= seq!['x']);
    }
    string_of(&out)
}

/// The name of the pair source -> target, e.g. "english-russian".
pub open spec fn pair_name_spec(source: Seq<char>, target: Seq<char>) -> Seq<char> {
    sanitize(source) + seq!['-'] + sanitize(target)
}

/// The workspace name of the pair source -> target (without extension).
pub fn pair_name(source: &str, target: &str) -> (r: String)
    ensures
        r@ == pair_name_spec(source@, target@),
{
    let mut v = chars_of(sanitize_token(source).as_str());
    v.push('-');
    extend_chars(&mut v, &chars_of(sanitize_token(target).as_str()));
    string_of(&v)
}

/// A token is never empty and holds only letters, digits, `_` or the `x` of an
/// empty name; a pair name is two such tokens around a `-`.
pub proof fn law_pair_name_shape(source: Seq<char>, target: Seq<char>)
    ensures
        sanitize(source).len() > 0,
        forall|i: int|
            0 <= i < sanitize(source).len() ==> {
                let c = #[trigger] sanitize(source)[i];
                alphanumeric(c) || c == '_' || c == 'x'
            },
        pair_name_spec(source, target) == sanitize(source) + seq!['-'] + sanitize(target),
        pair_name_spec(source, target)[sanitize(source).len() as int] == '-',
{
    let m = token_chars(lowercase(trim(source)));
    assert forall|i: int| 0 <= i < sanitize(source).len() implies {
        let c = #[trigger] sanitize(source)[i];
        alphanumeric(c) || c == '_' || c == 'x'
    } by {
        if m.len() > 0 {
            assert(sanitize(source)[i] == m[i]);
        }
    }
}

/// The database file of the active workspace, from the `active` pointer's
/// content: `<pair>.db` for the (trimmed) pair it names, or none (the legacy
/// database) when there is no pointer or it is blank.
pub fn active_db_file(pointer: &Option<String>) -> (r: Option<String>)
    ensures
        match *pointer {
            None => r is None,
            Some(p) => if trim(p@).len() == 0 {
                r is None
            } else {
                r matches Some(f) && f@ == trim(p@) + ".db"@
            },
        },
{
    match pointer {
        None => None,
        Some(p) => {
            let mut v = crate::text::trim_exec(&chars_of(p.as_str()));
            if v.len() == 0 {
                None
            } else {
                crate::text::extend_str(&mut v, ".db");
                Some(string_of(&v))
            }
        },
    }
}

// ---------------------------------------------------------------------------
// Pair flags and order
// ---------------------------------------------------------------------------

/// A workspace is active when it is the pair the pointer names (the legacy
/// database when the pointer is empty); it is built when the built pointer
/// names it (empty for the legacy database).
pub open spec fn pair_flags_spec(pair: Seq<char>, is_legacy: bool, active: Seq<char>, built: Option<Seq<char>>) -> (bool, bool) {
    let is_active = if is_legacy { active.len() == 0 } else { pair == active };
    let is_built = match built {
        Some(b) => if is_legacy { b.len() == 0 } else { pair == b },
        None => false,
    };
    (is_active, is_built)
}

/// Whether a workspace is the active one and whether its mod is the one built.
pub fn pair_flags(pair: &str, is_legacy: bool, active: &str, built: &Option<String>) -> (r: (bool, bool))
    ensures
        r == pair_flags_spec(
            pair@,
            is_legacy,
            active@,
            match built {
                Some(b) => Some(b@),
                None => None,
            },
        ),
{
    let is_active = if is_legacy { active.is_empty() } else { str_eq(pair, active) };
    let is_built = match built {
        Some(b) => if is_legacy { b.as_str().is_empty() } else { str_eq(pair, b.as_str()) },
        None => false,
    };
    (is_active, is_built)
}

/// `a` is listed before `b`: active first, then more strings first.
pub open spec fn listed_before(a: PairInfo, b: PairInfo) -> bool {
    (a.is_active && !b.is_active) || (a.is_active == b.is_active && a.total > b.total)
}

pub open spec fn same_rank(a: PairInfo, b: PairInfo) -> bool {
    a.is_active == b.is_active && a.total == b.total
}

/// The workspaces of the same rank as `x`, in order.
pub open spec fn of_rank(s: Seq<PairInfo>, x: PairInfo) -> Seq<PairInfo>
    decreases s.len(),
{
    if s.len() == 0 {
        seq![]
    } else if same_rank(s.last(), x) {
        of_rank(s.drop_last(), x).push(s.last())
    } else {
        of_rank(s.drop_last(), x)
    }
}

/// `out` is `input` stably sorted by rank: nothing is listed before an earlier
/// entry, and the entries of each rank keep their order.
pub open spec fn stably_ranked(input: Seq<PairInfo>, out: Seq<PairInfo>) -> bool {
    &&& forall|i: int, j: int| 0 <= i < j < out.len() ==> !listed_before(#[trigger] out[j], #[trigger] out[i])
    &&& forall|x: PairInfo| #[trigger] of_rank(out, x) == of_rank(input, x)
}

proof fn lemma_of_rank_concat(a: Seq<PairInfo>, b: Seq<PairInfo>, x: PairInfo)
    ensures
        of_rank(a + b, x) == of_rank(a, x) + of_rank(b, x),
    decreases b.len(),
{
    if b.len() == 0 {
        assert(a + b =~= a);
        assert(of_rank(a, x) + of_rank(b, x) =~= of_rank(a, x));
    } else {
        assert((a + b).drop_last() =~= a + b.drop_last());
        assert((a + b).last() == b.last());
        lemma_of_rank_concat(a, b.drop_last(), x);
        if same_rank(b.last(), x) {
            assert(of_rank(a, x) + of_rank(b.drop_last(), x).push(b.last()) =~= (of_rank(a, x) + of_rank(
                b.drop_last(),
                x,
            )).push(b.last()));
        }
    }
}

proof fn lemma_of_rank_none(b: Seq<PairInfo>, x: PairInfo)
    requires
        forall|k: int| 0 <= k < b.len() ==> !same_rank(#[trigger] b[k], x),
    ensures
        of_rank(b, x) == Seq::<PairInfo>::empty(),
    decreases b.len(),
{
    if b.len() > 0 {
        lemma_of_rank_none(b.drop_last(), x);
    }
}

proof fn lemma_of_rank_single(y: PairInfo, x: PairInfo)
    ensures
        of_rank(seq![y], x) == if same_rank(y, x) { seq![y] } else { Seq::<PairInfo>::empty() },
{
    assert(seq![y].drop_last() =~= Seq::<PairInfo>::empty());
    assert(seq![y].last() == y);
    assert(of_rank(Seq::<PairInfo>::empty(), x) == Seq::<PairInfo>::empty());
    assert(Seq::<PairInfo>::empty().push(y) =~= seq![y]);
}

fn copy_pair(p: &PairInfo) -> (c: PairInfo)
    ensures
        c == *p,
{
    PairInfo {
        pair: p.pair.clone(),
        source: p.source.clone(),
        target: p.target.clone(),
        total: p.total,
        translated: p.translated,
        is_active: p.is_active,
        is_legacy: p.is_legacy,
        is_built: p.is_built,
        is_dirty: p.is_dirty,
    }
}

fn precedes(a: &PairInfo, b: &PairInfo) -> (r: bool)
    ensures
        r == listed_before(*a, *b),
{
    (a.is_active && !b.is_active) || (a.is_active == b.is_active && a.total > b.total)
}

/// Orders workspaces for display: active first, then by number of strings,
/// keeping the discovery order among equals.
pub fn rank_pairs(input: &Vec<PairInfo>) -> (out: Vec<PairInfo>)
    ensures
        out@.len() == input@.len(),
        stably_ranked(input@, out@),
{
    let mut out: Vec<PairInfo> = Vec::new();
    let mut i: usize = 0;
    while i < input.len()
        invariant
            i <= input.len(),
            out@.len() == i,
            stably_ranked(input@.take(i as int), out@),
        decreases input.len() - i,
    {
        let x = copy_pair(&input[i]);
        let mut p: usize = 0;
        while p < out.len() && !precedes(&x, &out[p])
            invariant
                p <= out.len(),
                forall|k: int| 0 <= k < p ==> !listed_before(x, #[trigger] out@[k]),
            decreases out.len() - p,
        {
            p = p + 1;
        }
        let ghost old_out = out@;
        let ghost a = old_out.subrange(0, p as int);
        let ghost b = old_out.subrange(p as int, old_out.len() as int);
        out.insert(p, x);
        assert(out@ =~= a + seq![x] + b);
        proof {
            assert(input@.take(i + 1) =~= input@.take(i as int).push(x));
            assert(input@.take(i as int).push(x).drop_last() =~= input@.take(i as int));
            assert(old_out =~= a + b);
            // everything after the insertion point follows x
            assert forall|k: int| 0 <= k < b.len() implies listed_before(x, #[trigger] b[k]) || !same_rank(b[k], x) && !listed_before(b[k], x) by {
                assert(b[k] == old_out[p + k]);
                if p < old_out.len() {
                    assert(listed_before(x, old_out[p as int]));
                    if k > 0 {
                        assert(!listed_before(old_out[p + k], old_out[p as int]));
                    }
                }
            }
            assert forall|ii: int, jj: int| 0 <= ii < jj < out@.len() implies !listed_before(#[trigger] out@[jj], #[trigger] out@[ii]) by {
                if ii < p && jj > p {
                    assert(out@[ii] == old_out[ii]);
                    assert(out@[jj] == old_out[jj - 1]);
                } else if jj < p {
                    assert(out@[ii] == old_out[ii]);
                    assert(out@[jj] == old_out[jj]);
                } else if ii > p {
                    assert(out@[ii] == old_out[ii - 1]);
                    assert(out@[jj] == old_out[jj - 1]);
                } else if ii == p {
                    assert(out@[jj] == b[jj - p - 1]);
                } else {
                    assert(out@[ii] == a[ii]);
                }
            }
            assert forall|y: PairInfo| #[trigger] of_rank(out@, y) == of_rank(input@.take(i + 1), y) by {
                lemma_of_rank_concat(a + seq![x], b, y);
                lemma_of_rank_concat(a, seq![x], y);
                lemma_of_rank_single(x, y);
                lemma_of_rank_concat(a, b, y);
                assert(of_rank(input@.take(i + 1), y) == if same_rank(x, y) {
                    of_rank(input@.take(i as int), y).push(x)
                } else {
                    of_rank(input@.take(i as int), y)
                });
                if same_rank(x, y) {
                    lemma_of_rank_none(b, y);
                    assert(of_rank(a, y) + seq![x] + Seq::<PairInfo>::empty() =~= of_rank(a, y).push(x));
                    assert(of_rank(a, y) + Seq::<PairInfo>::empty() =~= of_rank(a, y));
                } else {
                    assert(of_rank(a, y) + Seq::<PairInfo>::empty() + of_rank(b, y) =~= of_rank(a, y) + of_rank(b, y));
                }
            }
        }
        i = i + 1;
    }
    assert(input@.take(i as int) =~= input@);
    out
}

/// The workspaces worth listing: those with strings.
pub open spec fn with_strings(s: Seq<PairInfo>) -> Seq<PairInfo>
    decreases s.len(),
{
    if s.len() == 0 {
        seq![]
    } else if s.last().total > 0 {
        with_strings(s.drop_last()).push(s.last())
    } else {
        with_strings(s.drop_last())
    }
}

/// The workspaces to show: those with strings, active first, then by size.
pub fn order_pairs(infos: &Vec<PairInfo>) -> (r: Vec<PairInfo>)
    ensures
        r@.len() == with_strings(infos@).len(),
        stably_ranked(with_strings(infos@), r@),
{
    let mut kept: Vec<PairInfo> = Vec::new();
    let mut i: usize = 0;
    while i < infos.len()
        invariant
            i <= infos.len(),
            kept@ == with_strings(infos@.take(i as int)),
        decreases infos.len() - i,
    {
        assert(infos@.take(i + 1).drop_last() =~= infos@.take(i as int));
        assert(infos@.take(i + 1).last() == infos@[i as int]);
        if infos[i].total > 0 {
            kept.push(copy_pair(&infos[i]));
        }
        i = i + 1;
    }
    assert(infos@.take(i as int) =~= infos@);
    rank_pairs(&kept)
}

// ---------------------------------------------------------------------------
// Propagating saved translations
// ---------------------------------------------------------------------------

/// A saved row that spreads its translation: translated and not empty.
pub open spec fn spreads(e: DbEntry) -> bool {
    e.status@ == "translated"@ && e.translation@.len() > 0
}

/// For each original, the translation of the last saved row that spreads it.
pub open spec fn propagate_map(es: Seq<DbEntry>) -> Map<Seq<char>, Seq<char>>
    decreases es.len(),
{
    if es.len() == 0 {
        Map::empty()
    } else if spreads(es.last()) {
        propagate_map(es.drop_last()).insert(es.last().original@, es.last().translation@)
    } else {
        propagate_map(es.drop_last())
    }
}

/// `v` lists the map `m`: each key once, with its value.
pub open spec fn lists_map(v: Seq<(Seq<char>, Seq<char>)>, m: Map<Seq<char>, Seq<char>>) -> bool {
    &&& forall|i: int, j: int| 0 <= i < j < v.len() ==> (#[trigger] v[i]).0 != (#[trigger] v[j]).0
    &&& forall|i: int| 0 <= i < v.len() ==> m.contains_key((#[trigger] v[i]).0) && m[v[i].0] == v[i].1
    &&& forall|k: Seq<char>| #[trigger] m.contains_key(k) ==> exists|i: int| 0 <= i < v.len() && v[i].0 == k
}

/// The (original, translation) pairs a batch save spreads to untranslated
/// duplicates: one per original, the last saved translation winning.
pub fn propagation_pairs(entries: &Vec<DbEntry>) -> (r: Vec<(String, String)>)
    ensures
        lists_map(pair_views(r@), propagate_map(entries@)),
{
    let mut r: Vec<(String, String)> = Vec::new();
    let mut i: usize = 0;
    while i < entries.len()
        invariant
            i <= entries.len(),
            lists_map(pair_views(r@), propagate_map(entries@.take(i as int))),
        decreases entries.len() - i,
    {
        assert(entries@.take(i + 1).drop_last() =~= entries@.take(i as int));
        assert(entries@.take(i + 1).last() == entries@[i as int]);
        let e = &entries[i];
        if str_eq(e.status.as_str(), "translated") && !e.translation.as_str().is_empty() {
            let ghost m0 = propagate_map(entries@.take(i as int));
            let ghost v0 = pair_views(r@);
            let mut j: usize = 0;
            while j < r.len() && r[j].0 != e.original
                invariant
                    j <= r.len(),
                    v0 == pair_views(r@),
                    forall|k: int| 0 <= k < j ==> (#[trigger] v0[k]).0 != e.original@,
                decreases r.len() - j,
            {
                j = j + 1;
            }
            let ghost m1 = m0.insert(e.original@, e.translation@);
            if j < r.len() {
                r.set(j, (e.original.clone(), e.translation.clone()));
                let ghost v1 = pair_views(r@);
                assert(v1 =~= v0.update(j as int, (e.original@, e.translation@)));
                assert forall|a: int, b: int| 0 <= a < b < v1.len() implies (#[trigger] v1[a]).0 != (#[trigger] v1[b]).0 by {
                    assert(v1[a].0 == v0[a].0);
                    assert(v1[b].0 == v0[b].0);
                }
                assert forall|k: Seq<char>| #[trigger] m1.contains_key(k) implies exists|a: int| 0 <= a < v1.len() && v1[a].0 == k by {
                    if k == e.original@ {
                        assert(v1[j as int].0 == k);
                    } else {
                        let a = choose|a: int| 0 <= a < v0.len() && v0[a].0 == k;
                        assert(v1[a].0 == k);
                    }
                }
                assert(v0[j as int].0 == e.original@);
                assert forall|a: int| 0 <= a < v1.len() implies m1.contains_key((#[trigger] v1[a]).0) && m1[v1[a].0] == v1[a].1 by {
                    if a != j {
                        assert(v1[a] == v0[a]);
                        if a < j {
                            assert(v0[a].0 != v0[j as int].0);
                        } else {
                            assert(v0[j as int].0 != v0[a].0);
                        }
                    }
                }
            } else {
                r.push((e.original.clone(), e.translation.clone()));
                let ghost v1 = pair_views(r@);
                assert(v1 =~= v0.push((e.original@, e.translation@)));
                assert forall|a: int, b: int| 0 <= a < b < v1.len() implies (#[trigger] v1[a]).0 != (#[trigger] v1[b]).0 by {
                    if b == v1.len() - 1 {
                        assert(v0[a].0 != e.original@);
                    } else {
                        assert(v1[a] == v0[a] && v1[b] == v0[b]);
                    }
                }
                assert forall|k: Seq<char>| #[trigger] m1.contains_key(k) implies exists|a: int| 0 <= a < v1.len() && v1[a].0 == k by {
                    if k == e.original@ {
                        assert(v1[v1.len() - 1].0 == k);
                    } else {
                        let a = choose|a: int| 0 <= a < v0.len() && v0[a].0 == k;
                        assert(v1[a].0 == k);
                    }
                }
                assert forall|a: int| 0 <= a < v1.len() implies m1.contains_key((#[trigger] v1[a]).0) && m1[v1[a].0] == v1[a].1 by {
                    if a < v0.len() {
                        assert(v1[a] == v0[a]);
                        assert(v0[a].0 != e.original@);
                    }
                }
            }
        }
        i = i + 1;
    }
    assert(entries@.take(i as int) =~= entries@);
    r
}

} // verus!
