//! The order of strings (by character, which is the byte order of their
//! UTF-8 encoding) and sorted key lists.
use vstd::prelude::*;
use crate::text::string_views;

verus! {

/// `a` comes before `b` in lexicographic character order.
pub open spec fn lex_lt(a: Seq<char>, b: Seq<char>) -> bool
    decreases a.len(),
{
    if b.len() == 0 {
        false
    } else if a.len() == 0 {
        true
    } else if a[0] != b[0] {
        a[0] < b[0]
    } else {
        lex_lt(a.skip(1), b.skip(1))
    }
}

pub proof fn lemma_lex_irreflexive(a: Seq<char>)
    ensures
        !lex_lt(a, a),
    decreases a.len(),
{
    if a.len() > 0 {
        lemma_lex_irreflexive(a.skip(1));
    }
}

pub proof fn lemma_lex_trans(a: Seq<char>, b: Seq<char>, c: Seq<char>)
    requires
        lex_lt(a, b),
        lex_lt(b, c),
    ensures
        lex_lt(a, c),
    decreases a.len(),
{
    if a.len() > 0 && b.len() > 0 && c.len() > 0 {
        if a[0] == b[0] && b[0] == c[0] {
            lemma_lex_trans(a.skip(1), b.skip(1), c.skip(1));
        }
    }
}

pub proof fn lemma_lex_total(a: Seq<char>, b: Seq<char>)
    requires
        a != b,
    ensures
        lex_lt(a, b) || lex_lt(b, a),
    decreases a.len(),
{
    if a.len() > 0 && b.len() > 0 && a[0] == b[0] {
        if a.skip(1) == b.skip(1) {
            assert(a =~= seq![a[0]] + a.skip(1));
            assert(b =~= seq![b[0]] + b.skip(1));
        }
        lemma_lex_total(a.skip(1), b.skip(1));
    } else if a.len() == 0 && b.len() == 0 {
        assert(a =~= b);
    }
}

pub proof fn lemma_lex_asym(a: Seq<char>, b: Seq<char>)
    requires
        lex_lt(a, b),
    ensures
        !lex_lt(b, a),
{
    if lex_lt(b, a) {
        lemma_lex_trans(a, b, a);
        lemma_lex_irreflexive(a);
    }
}

/// Whether `a` comes before `b` (the order of `String`'s `<`).
pub fn lex_less(a: &String, b: &String) -> (r: bool)
    ensures
        r == lex_lt(a@, b@),
{
    let av = crate::text::chars_of(a.as_str());
    let bv = crate::text::chars_of(b.as_str());
    let mut i: usize = 0;
    assert(av@.skip(0) =~= av@);
    assert(bv@.skip(0) =~= bv@);
    while i < av.len() && i < bv.len() && av[i] == bv[i]
        invariant
            i <= av.len(),
            i <= bv.len(),
            lex_lt(av@.skip(i as int), bv@.skip(i as int)) == lex_lt(a@, b@),
            av@ == a@,
            bv@ == b@,
        decreases av.len() - i,
    {
        assert(av@.skip(i as int).skip(1) =~= av@.skip(i + 1));
        assert(bv@.skip(i as int).skip(1) =~= bv@.skip(i + 1));
        i = i + 1;
    }
    if i == bv.len() {
        false
    } else if i == av.len() {
        true
    } else {
        av[i] < bv[i]
    }
}

/// Keys in strictly increasing order.
pub open spec fn strictly_sorted(keys: Seq<Seq<char>>) -> bool {
    forall|i: int, j: int| 0 <= i < j < keys.len() ==> lex_lt(#[trigger] keys[i], #[trigger] keys[j])
}

/// Where `k` belongs in sorted keys: `(p, true)` when `keys[p] == k`, else
/// `(p, false)` with every key before `p` smaller and every key from `p` on
/// larger.
pub fn find_slot(keys: &Vec<String>, k: &String) -> (r: (usize, bool))
    requires
        strictly_sorted(string_views(keys@)),
    ensures
        r.0 <= keys.len(),
        r.1 ==> r.0 < keys.len() && keys@[r.0 as int]@ == k@,
        !r.1 ==> forall|i: int| 0 <= i < r.0 ==> lex_lt(#[trigger] keys@[i]@, k@),
        !r.1 ==> forall|i: int| r.0 <= i < keys.len() ==> lex_lt(k@, #[trigger] keys@[i]@),
        !r.1 ==> !string_views(keys@).contains(k@),
{
    let ghost kv = string_views(keys@);
    let mut p: usize = 0;
    while p < keys.len() && lex_less(&keys[p], k)
        invariant
            p <= keys.len(),
            kv == string_views(keys@),
            strictly_sorted(kv),
            forall|i: int| 0 <= i < p ==> lex_lt(#[trigger] keys@[i]@, k@),
        decreases keys.len() - p,
    {
        p = p + 1;
    }
    if p < keys.len() && keys[p] == *k {
        return (p, true);
    }
    proof {
        if p < keys.len() {
            assert(kv[p as int] == keys@[p as int]@);
            lemma_lex_total(keys@[p as int]@, k@);
            assert forall|i: int| p <= i < keys.len() implies lex_lt(k@, #[trigger] keys@[i]@) by {
                if i > p {
                    assert(kv[i] == keys@[i]@);
                    assert(lex_lt(kv[p as int], kv[i]));
                    lemma_lex_trans(k@, keys@[p as int]@, keys@[i]@);
                }
            }
        }
        assert forall|i: int| 0 <= i < kv.len() implies kv[i] != k@ by {
            assert(kv[i] == keys@[i]@);
            if i < p {
                lemma_lex_irreflexive(k@);
            } else {
                lemma_lex_irreflexive(k@);
            }
        }
    }
    (p, false)
}

/// Inserting a key at its slot keeps the keys strictly sorted.
pub proof fn lemma_insert_sorted(keys: Seq<Seq<char>>, p: int, k: Seq<char>)
    requires
        strictly_sorted(keys),
        0 <= p <= keys.len(),
        forall|i: int| 0 <= i < p ==> lex_lt(#[trigger] keys[i], k),
        forall|i: int| p <= i < keys.len() ==> lex_lt(k, #[trigger] keys[i]),
    ensures
        strictly_sorted(keys.insert(p, k)),
{
    let n = keys.insert(p, k);
    assert forall|i: int, j: int| 0 <= i < j < n.len() implies lex_lt(#[trigger] n[i], #[trigger] n[j]) by {
        if i < p && j < p {
            assert(n[i] == keys[i] && n[j] == keys[j]);
        } else if i < p && j == p {
            assert(n[i] == keys[i]);
        } else if i < p && j > p {
            assert(n[i] == keys[i] && n[j] == keys[j - 1]);
        } else if i == p {
            assert(n[j] == keys[j - 1]);
        } else {
            assert(n[i] == keys[i - 1] && n[j] == keys[j - 1]);
        }
    }
}

} // verus!
