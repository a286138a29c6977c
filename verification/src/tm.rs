//! The translation memory: which saved translations go into it, which
//! untranslated strings it fills, searching it, and checking manual entries.
use vstd::prelude::*;
use crate::text::{chars_of, extend_str, pair_views, string_of, trim, trim_exec};

verus! {

// ---------------------------------------------------------------------------
// Contributing
// ---------------------------------------------------------------------------

/// The translated pairs (original, translation) of a workspace that go into
/// the memory: none when the target language is blank, else those whose
/// original is not blank, in order.
pub open spec fn contribution(target: Seq<char>, pairs: Seq<(Seq<char>, Seq<char>)>) -> Seq<(Seq<char>, Seq<char>)>
    decreases pairs.len(),
{
    if trim(target).len() == 0 || pairs.len() == 0 {
        seq![]
    } else {
        let prev = contribution(target, pairs.drop_last());
        if trim(pairs.last().0).len() == 0 {
            prev
        } else {
            prev.push(pairs.last())
        }
    }
}

/// The pairs of a workspace's translated strings to store in the memory for a
/// target language; their number is the count the contribution reports.
pub fn tm_contribution(target: &str, pairs: &Vec<(String, String)>) -> (r: Vec<(String, String)>)
    ensures
        pair_views(r@) == contribution(target@, pair_views(pairs@)),
{
    let ghost pv = pair_views(pairs@);
    let mut out: Vec<(String, String)> = Vec::new();
    if trim_exec(&chars_of(target)).len() == 0 {
        assert(pair_views(out@) =~= contribution(target@, pv));
        return out;
    }
    let mut i: usize = 0;
    assert(pv.take(0) =~= Seq::<(Seq<char>, Seq<char>)>::empty());
    while i < pairs.len()
        invariant
            i <= pairs.len(),
            pv == pair_views(pairs@),
            trim(target@).len() > 0,
            pair_views(out@) == contribution(target@, pv.take(i as int)),
        decreases pairs.len() - i,
    {
        assert(pv.take(i + 1).drop_last() =~= pv.take(i as int));
        assert(pv.take(i + 1).last() == (pairs@[i as int].0@, pairs@[i as int].1@));
        if trim_exec(&chars_of(pairs[i].0.as_str())).len() > 0 {
            out.push((pairs[i].0.clone(), pairs[i].1.clone()));
            assert(pair_views(out@) =~= contribution(target@, pv.take(i + 1)));
        }
        i = i + 1;
    }
    assert(pv.take(i as int) =~= pv);
    out
}

// ---------------------------------------------------------------------------
// Filling
// ---------------------------------------------------------------------------

/// The memory of a target language as a map from original to translation
/// (a later record for the same original wins).
pub open spec fn memory_map(tm: Seq<(Seq<char>, Seq<char>)>) -> Map<Seq<char>, Seq<char>>
    decreases tm.len(),
{
    if tm.len() == 0 {
        Map::empty()
    } else {
        memory_map(tm.drop_last()).insert(tm.last().0, tm.last().1)
    }
}

proof fn lemma_memory_tail(v: Seq<(Seq<char>, Seq<char>)>, i: int, k: Seq<char>)
    requires
        0 <= i <= v.len(),
        forall|j: int| i <= j < v.len() ==> (#[trigger] v[j]).0 != k,
    ensures
        memory_map(v).contains_key(k) == memory_map(v.take(i)).contains_key(k),
        memory_map(v).contains_key(k) ==> memory_map(v)[k] == memory_map(v.take(i))[k],
    decreases v.len() - i,
{
    if i < v.len() {
        assert(v.drop_last().take(i) =~= v.take(i));
        assert forall|j: int| i <= j < v.drop_last().len() implies (#[trigger] v.drop_last()[j]).0 != k by {
            assert(v.drop_last()[j] == v[j]);
        }
        lemma_memory_tail(v.drop_last(), i, k);
        assert(v[v.len() - 1].0 != k);
    } else {
        assert(v.take(i) =~= v);
    }
}

/// Looks an original up in the memory.
fn memory_get(tm: &Vec<(String, String)>, k: &String) -> (r: Option<String>)
    ensures
        match r {
            Some(t) => memory_map(pair_views(tm@)).contains_key(k@) && memory_map(pair_views(tm@))[k@] == t@,
            None => !memory_map(pair_views(tm@)).contains_key(k@),
        },
{
    let ghost tv = pair_views(tm@);
    let mut i: usize = tm.len();
    while i > 0
        invariant
            i <= tm.len(),
            tv == pair_views(tm@),
            forall|j: int| i <= j < tv.len() ==> (#[trigger] tv[j]).0 != k@,
        decreases i,
    {
        if tm[i - 1].0 == *k {
            proof {
                assert(tv[i - 1].0 == k@);
                lemma_memory_tail(tv, i as int, k@);
                assert(tv.take(i as int).drop_last() =~= tv.take(i - 1));
                assert(tv.take(i as int).last() == tv[i - 1]);
            }
            return Some(tm[i - 1].1.clone());
        }
        i = i - 1;
    }
    proof {
        lemma_memory_tail(tv, 0, k@);
        assert(tv.take(0) =~= Seq::<(Seq<char>, Seq<char>)>::empty());
    }
    None
}

pub open spec fn triple_views(v: Seq<(String, String, String)>) -> Seq<(Seq<char>, Seq<char>, Seq<char>)> {
    v.map_values(|t: (String, String, String)| (t.0@, t.1@, t.2@))
}

/// The untranslated strings (id, original) the memory can fill, with the
/// translation it holds for their original, in order.
pub open spec fn fill_candidates(
    m: Map<Seq<char>, Seq<char>>,
    rows: Seq<(Seq<char>, Seq<char>)>,
) -> Seq<(Seq<char>, Seq<char>, Seq<char>)>
    decreases rows.len(),
{
    if rows.len() == 0 {
        seq![]
    } else {
        let prev = fill_candidates(m, rows.drop_last());
        let r = rows.last();
        if m.contains_key(r.1) {
            prev.push((r.0, r.1, m[r.1]))
        } else {
            prev
        }
    }
}

/// For the untranslated strings (id, original) of a workspace, those whose
/// original the memory (original, translation records of the target language)
/// holds, with the translation to put in: (id, original, translation).
pub fn tm_fill_candidates(tm: &Vec<(String, String)>, rows: &Vec<(String, String)>) -> (r: Vec<(String, String, String)>)
    ensures
        triple_views(r@) == fill_candidates(memory_map(pair_views(tm@)), pair_views(rows@)),
{
    let ghost m = memory_map(pair_views(tm@));
    let ghost rv = pair_views(rows@);
    let mut out: Vec<(String, String, String)> = Vec::new();
    let mut i: usize = 0;
    assert(rv.take(0) =~= Seq::<(Seq<char>, Seq<char>)>::empty());
    while i < rows.len()
        invariant
            i <= rows.len(),
            m == memory_map(pair_views(tm@)),
            rv == pair_views(rows@),
            triple_views(out@) == fill_candidates(m, rv.take(i as int)),
        decreases rows.len() - i,
    {
        assert(rv.take(i + 1).drop_last() =~= rv.take(i as int));
        assert(rv.take(i + 1).last() == (rows@[i as int].0@, rows@[i as int].1@));
        match memory_get(tm, &rows[i].1) {
            Some(t) => {
                out.push((rows[i].0.clone(), rows[i].1.clone(), t));
                assert(triple_views(out@) =~= fill_candidates(m, rv.take(i + 1)));
            },
            None => {},
        }
        i = i + 1;
    }
    assert(rv.take(i as int) =~= rv);
    out
}

// ---------------------------------------------------------------------------
// Searching and manual entries
// ---------------------------------------------------------------------------

/// The `LIKE` pattern that finds a text anywhere: `%text%`.
pub open spec fn like_pattern_spec(q: Seq<char>) -> Seq<char> {
    "%"@ + q + "%"@
}

/// The `LIKE` pattern of a search text.
pub fn like_pattern(q: &str) -> (r: String)
    ensures
        r@ == like_pattern_spec(q@),
{
    let mut v: Vec<char> = chars_of("%");
    extend_str(&mut v, q);
    extend_str(&mut v, "%");
    string_of(&v)
}

/// The memory search for a query: none (list everything) when the query is
/// blank, else the pattern of the trimmed query.
pub fn tm_search_pattern(query: &str) -> (r: Option<String>)
    ensures
        trim(query@).len() == 0 <==> r is None,
        r matches Some(p) ==> p@ == like_pattern_spec(trim(query@)),
{
    let qv = trim_exec(&chars_of(query));
    if qv.len() == 0 {
        None
    } else {
        let q = string_of(&qv);
        Some(like_pattern(q.as_str()))
    }
}

/// The message when a manual memory entry lacks its language or original.
pub const TM_ENTRY_INCOMPLETE: &'static str = "target_lang и original обязательны";

/// Checks a manual memory entry: its target language and original must not be
/// blank.
pub fn check_tm_entry(target_lang: &str, original: &str) -> (r: Result<(), String>)
    ensures
        r is Ok <==> (trim(target_lang@).len() > 0 && trim(original@).len() > 0),
        r matches Err(e) ==> e@ == TM_ENTRY_INCOMPLETE@,
{
    if trim_exec(&chars_of(target_lang)).len() == 0 || trim_exec(&chars_of(original)).len() == 0 {
        return Err(TM_ENTRY_INCOMPLETE.to_string());
    }
    Ok(())
}

} // verus!
