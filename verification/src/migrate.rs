//! Carrying translations over to a new version of a game: exact matches by
//! id, fuzzy matches by similar text in the same file.
use vstd::prelude::*;
use crate::models::MigrationReport;
use crate::text::chars_of;

verus! {

/// A row of the old version's database (translation empty when absent).
pub struct OldRow {
    pub id: String,
    pub file: String,
    pub original: String,
    pub translation: String,
}

/// An untranslated row of the new version.
pub struct NewRow {
    pub id: String,
    pub file: String,
    pub original: String,
}

/// A translation to write into the new version.
pub struct MigrationUpdate {
    pub id: String,
    pub translation: String,
    pub status: String,
    pub prev_original: Option<String>,
}

// ---------------------------------------------------------------------------
// Similarity
// ---------------------------------------------------------------------------

/// What `strsim::levenshtein` returns for two strings.
pub uninterp spec fn levenshtein_of(a: Seq<char>, b: Seq<char>) -> nat;

/// Calls `strsim::levenshtein`; the distance is named `levenshtein_of`.
#[verifier::external_body]
fn levenshtein(a: &str, b: &str) -> (r: usize)
    ensures
        r == levenshtein_of(a@, b@),
{
    strsim::levenshtein(a, b)
}

/// The normalized Levenshtein similarity of `a` and `b` as `(d, m)`, meaning
/// `1 - d/m`: two empty strings are identical, otherwise `d` is the distance
/// and `m` the longer length.
pub open spec fn sim(a: Seq<char>, b: Seq<char>) -> (nat, nat) {
    if a.len() == 0 && b.len() == 0 {
        (0, 1)
    } else {
        (levenshtein_of(a, b), if a.len() >= b.len() { a.len() } else { b.len() })
    }
}

/// Similarity above 0.7: `1 - d/m > 7/10`.
pub open spec fn similar(a: Seq<char>, b: Seq<char>) -> bool {
    10 * sim(a, b).0 < 3 * sim(a, b).1
}

/// `b1` is strictly more similar to `a` than `b2` is.
pub open spec fn more_similar(a: Seq<char>, b1: Seq<char>, b2: Seq<char>) -> bool {
    sim(a, b1).0 * sim(a, b2).1 < sim(a, b2).0 * sim(a, b1).1
}

fn sim_exec(a: &String, b: &String) -> (r: (u128, u128))
    ensures
        r.0 == sim(a@, b@).0,
        r.1 == sim(a@, b@).1,
        r.0 < 0x1_0000_0000_0000_0000,
        r.1 < 0x1_0000_0000_0000_0000,
        r.1 > 0,
{
    let la = chars_of(a.as_str()).len();
    let lb = chars_of(b.as_str()).len();
    if la == 0 && lb == 0 {
        (0, 1)
    } else {
        let d = levenshtein(a.as_str(), b.as_str());
        let m = if la >= lb { la } else { lb };
        (d as u128, m as u128)
    }
}

proof fn lemma_products_fit(a: u128, b: u128)
    requires
        a < 0x1_0000_0000_0000_0000,
        b < 0x1_0000_0000_0000_0000,
    ensures
        a * b < 0x1_0000_0000_0000_0000_0000_0000_0000_0000,
{
    assert(a * b < 0x1_0000_0000_0000_0000_0000_0000_0000_0000) by (nonlinear_arith)
        requires
            a < 0x1_0000_0000_0000_0000,
            b < 0x1_0000_0000_0000_0000,
    ;
}

proof fn lemma_ratio_trans(a: nat, b: nat, c: nat, d: nat, e: nat, f: nat)
    requires
        b > 0,
        d > 0,
        f > 0,
        a * d < c * b,
        c * f < e * d,
    ensures
        a * f < e * b,
{
    assert(a * f < e * b) by (nonlinear_arith)
        requires
            b > 0,
            d > 0,
            f > 0,
            a * d < c * b,
            c * f < e * d,
    ;
}

proof fn lemma_ratio_trans_le(a: nat, b: nat, c: nat, d: nat, e: nat, f: nat)
    requires
        b > 0,
        d > 0,
        f > 0,
        a * d < c * b,
        c * f <= e * d,
    ensures
        a * f < e * b,
{
    assert(a * f < e * b) by (nonlinear_arith)
        requires
            b > 0,
            d > 0,
            f > 0,
            a * d < c * b,
            c * f <= e * d,
    ;
}

proof fn lemma_ratio_threshold(a: nat, b: nat, c: nat, d: nat)
    requires
        b > 0,
        d > 0,
        a * d < c * b,
        10 * c < 3 * d,
    ensures
        10 * a < 3 * b,
{
    assert(10 * a < 3 * b) by (nonlinear_arith)
        requires
            b > 0,
            d > 0,
            a * d < c * b,
            10 * c < 3 * d,
    ;
}

// ---------------------------------------------------------------------------
// The old version
// ---------------------------------------------------------------------------

/// The old translation of `id`: the last translated row with that id.
pub open spec fn trans_by_id(old: Seq<OldRow>, id: Seq<char>) -> Option<Seq<char>>
    decreases old.len(),
{
    if old.len() == 0 {
        None
    } else if old.last().id@ == id && old.last().translation@.len() > 0 {
        Some(old.last().translation@)
    } else {
        trans_by_id(old.drop_last(), id)
    }
}

pub open spec fn has_id(old: Seq<OldRow>, id: Seq<char>) -> bool {
    exists|i: int| 0 <= i < old.len() && (#[trigger] old[i]).id@ == id
}

/// The translated rows of the old version, in order: the fuzzy candidates.
pub open spec fn translated_rows(old: Seq<OldRow>) -> Seq<OldRow>
    decreases old.len(),
{
    if old.len() == 0 {
        seq![]
    } else if old.last().translation@.len() > 0 {
        translated_rows(old.drop_last()).push(old.last())
    } else {
        translated_rows(old.drop_last())
    }
}

/// How many distinct values `ids` holds.
pub open spec fn distinct_count(ids: Seq<Seq<char>>) -> nat
    decreases ids.len(),
{
    if ids.len() == 0 {
        0
    } else if ids.drop_last().contains(ids.last()) {
        distinct_count(ids.drop_last())
    } else {
        distinct_count(ids.drop_last()) + 1
    }
}

pub open spec fn row_ids(rows: Seq<OldRow>) -> Seq<Seq<char>> {
    rows.map_values(|r: OldRow| r.id@)
}

/// Candidate `j` may take a fuzzy match for `r`: same file, not taken yet, and
/// similar enough.
pub open spec fn eligible(cands: Seq<OldRow>, used: Seq<bool>, r: NewRow, j: int) -> bool {
    &&& 0 <= j < cands.len()
    &&& j < used.len()
    &&& cands[j].file@ == r.file@
    &&& !used[j]
    &&& similar(r.original@, cands[j].original@)
}

/// Candidate `j` is the fuzzy match of `r`: eligible, no eligible candidate
/// more similar, every earlier eligible candidate less similar.
pub open spec fn is_best(cands: Seq<OldRow>, used: Seq<bool>, r: NewRow, j: int) -> bool {
    &&& eligible(cands, used, r, j)
    &&& forall|k: int|
        #![trigger cands[k]]
        eligible(cands, used, r, k) ==> !more_similar(r.original@, cands[k].original@, cands[j].original@)
    &&& forall|k: int|
        #![trigger cands[k]]
        0 <= k < j && eligible(cands, used, r, k) ==> more_similar(
            r.original@,
            cands[j].original@,
            cands[k].original@,
        )
}

/// Some row of the old version, in the same file, has a similar original.
pub open spec fn changed_known(old: Seq<OldRow>, r: NewRow) -> bool {
    exists|k: int|
        0 <= k < old.len() && (#[trigger] old[k]).file@ == r.file@ && similar(r.original@, old[k].original@)
}

/// Counters (exact, fuzzy, new, still untranslated), the taken candidates, and
/// the updates as (id, translation, status, previous original).
pub type MigState = (
    nat,
    nat,
    nat,
    nat,
    Seq<bool>,
    Seq<(Seq<char>, Seq<char>, Seq<char>, Option<Seq<char>>)>,
);

/// One untranslated new row: its old translation by id, else (an id the old
/// version had untranslated) still untranslated, else the best fuzzy
/// candidate, else still untranslated when a similar old text exists, else new.
pub open spec fn mig_step(old: Seq<OldRow>, st: MigState, r: NewRow) -> MigState {
    let cands = translated_rows(old);
    match trans_by_id(old, r.id@) {
        Some(t) => (st.0 + 1, st.1, st.2, st.3, st.4, st.5.push((r.id@, t, "translated"@, None))),
        None => if has_id(old, r.id@) {
            (st.0, st.1, st.2, st.3 + 1, st.4, st.5)
        } else if exists|j: int| is_best(cands, st.4, r, j) {
            let j = choose|j: int| is_best(cands, st.4, r, j);
            (
                st.0,
                st.1 + 1,
                st.2,
                st.3,
                st.4.update(j, true),
                st.5.push((r.id@, cands[j].translation@, "outdated"@, Some(cands[j].original@))),
            )
        } else if changed_known(old, r) {
            (st.0, st.1, st.2, st.3 + 1, st.4, st.5)
        } else {
            (st.0, st.1, st.2 + 1, st.3, st.4, st.5)
        },
    }
}

pub open spec fn migrate_spec(old: Seq<OldRow>, news: Seq<NewRow>) -> MigState
    decreases news.len(),
{
    if news.len() == 0 {
        (0, 0, 0, 0, Seq::new(translated_rows(old).len(), |i: int| false), seq![])
    } else {
        mig_step(old, migrate_spec(old, news.drop_last()), news.last())
    }
}

pub open spec fn update_view(u: MigrationUpdate) -> (Seq<char>, Seq<char>, Seq<char>, Option<Seq<char>>) {
    (
        u.id@,
        u.translation@,
        u.status@,
        match u.prev_original {
            Some(p) => Some(p@),
            None => None,
        },
    )
}

// ---------------------------------------------------------------------------
// Executable pieces
// ---------------------------------------------------------------------------

fn trans_by_id_exec(old: &Vec<OldRow>, id: &String) -> (r: Option<String>)
    ensures
        match r {
            Some(t) => trans_by_id(old@, id@) == Some(t@),
            None => trans_by_id(old@, id@) is None,
        },
{
    let mut i: usize = old.len();
    assert(old@.take(i as int) =~= old@);
    while i > 0
        invariant
            i <= old.len(),
            trans_by_id(old@.take(i as int), id@) == trans_by_id(old@, id@),
        decreases i,
    {
        let ghost pre = old@.take(i as int);
        assert(pre.drop_last() =~= old@.take(i - 1));
        assert(pre.last() == old@[i - 1]);
        let row = &old[i - 1];
        if row.id == *id && !row.translation.as_str().is_empty() {
            return Some(row.translation.clone());
        }
        i = i - 1;
    }
    None
}

fn has_id_exec(old: &Vec<OldRow>, id: &String) -> (r: bool)
    ensures
        r == has_id(old@, id@),
{
    let mut i: usize = 0;
    while i < old.len()
        invariant
            i <= old.len(),
            forall|j: int| 0 <= j < i ==> (#[trigger] old@[j]).id@ != id@,
        decreases old.len() - i,
    {
        if old[i].id == *id {
            assert(old@[i as int].id@ == id@);
            return true;
        }
        i = i + 1;
    }
    false
}

fn copy_row(r: &OldRow) -> (c: OldRow)
    ensures
        c == *r,
{
    OldRow {
        id: r.id.clone(),
        file: r.file.clone(),
        original: r.original.clone(),
        translation: r.translation.clone(),
    }
}

fn translated_rows_exec(old: &Vec<OldRow>) -> (r: Vec<OldRow>)
    ensures
        r@ == translated_rows(old@),
{
    let mut r: Vec<OldRow> = Vec::new();
    let mut i: usize = 0;
    while i < old.len()
        invariant
            i <= old.len(),
            r@ == translated_rows(old@.take(i as int)),
        decreases old.len() - i,
    {
        assert(old@.take(i + 1).drop_last() =~= old@.take(i as int));
        assert(old@.take(i + 1).last() == old@[i as int]);
        if !old[i].translation.as_str().is_empty() {
            r.push(copy_row(&old[i]));
        }
        i = i + 1;
    }
    assert(old@.take(i as int) =~= old@);
    r
}

fn distinct_count_exec(rows: &Vec<OldRow>) -> (n: u64)
    requires
        rows.len() <= u64::MAX,
    ensures
        n == distinct_count(row_ids(rows@)),
{
    let ghost ids = row_ids(rows@);
    let mut n: u64 = 0;
    let mut i: usize = 0;
    while i < rows.len()
        invariant
            i <= rows.len() <= u64::MAX,
            ids == row_ids(rows@),
            n == distinct_count(ids.take(i as int)),
            n <= i,
        decreases rows.len() - i,
    {
        assert(ids.take(i + 1).drop_last() =~= ids.take(i as int));
        assert(ids.take(i + 1).last() == rows@[i as int].id@);
        let mut seen = false;
        let mut k: usize = 0;
        while k < i
            invariant
                k <= i < rows.len(),
                ids == row_ids(rows@),
                seen == exists|j: int| 0 <= j < k && ids[j] == ids[i as int],
            decreases i - k,
        {
            assert(ids[k as int] == rows@[k as int].id@);
            assert(ids[i as int] == rows@[i as int].id@);
            if rows[k].id == rows[i].id {
                seen = true;
            }
            k = k + 1;
        }
        assert(seen == ids.take(i as int).contains(ids[i as int])) by {
            if seen {
                let j = choose|j: int| 0 <= j < k && ids[j] == ids[i as int];
                assert(ids.take(i as int)[j] == ids[i as int]);
            }
        }
        if !seen {
            n = n + 1;
        }
        i = i + 1;
    }
    assert(ids.take(i as int) =~= ids);
    n
}

fn changed_known_exec(old: &Vec<OldRow>, r: &NewRow) -> (b: bool)
    ensures
        b == changed_known(old@, *r),
{
    let mut k: usize = 0;
    while k < old.len()
        invariant
            k <= old.len(),
            forall|j: int|
                0 <= j < k ==> !((#[trigger] old@[j]).file@ == r.file@ && similar(r.original@, old@[j].original@)),
        decreases old.len() - k,
    {
        if old[k].file == r.file {
            let (d, m) = sim_exec(&r.original, &old[k].original);
            if 10 * d < 3 * m {
                assert(old@[k as int].file@ == r.file@ && similar(r.original@, old@[k as int].original@));
                return true;
            }
        }
        k = k + 1;
    }
    false
}

/// The best fuzzy candidate for `r` among those not taken yet.
fn best_candidate(cands: &Vec<OldRow>, used: &Vec<bool>, r: &NewRow) -> (b: Option<usize>)
    requires
        used.len() == cands.len(),
    ensures
        match b {
            Some(j) => is_best(cands@, used@, *r, j as int),
            None => !exists|j: int| is_best(cands@, used@, *r, j),
        },
{
    let mut best: Option<usize> = None;
    let mut bd: u128 = 0;
    let mut bm: u128 = 1;
    let mut i: usize = 0;
    while i < cands.len()
        invariant
            used.len() == cands.len(),
            i <= cands.len(),
            bd < 0x1_0000_0000_0000_0000,
            bm < 0x1_0000_0000_0000_0000,
            bm > 0,
            match best {
                Some(j) => {
                    &&& j < i
                    &&& eligible(cands@, used@, *r, j as int)
                    &&& bd == sim(r.original@, cands@[j as int].original@).0
                    &&& bm == sim(r.original@, cands@[j as int].original@).1
                    &&& forall|k: int|
                        #![trigger cands@[k]]
                        0 <= k < i && eligible(cands@, used@, *r, k) ==> !more_similar(
                            r.original@,
                            cands@[k].original@,
                            cands@[j as int].original@,
                        )
                    &&& forall|k: int|
                        #![trigger cands@[k]]
                        0 <= k < j && eligible(cands@, used@, *r, k) ==> more_similar(
                            r.original@,
                            cands@[j as int].original@,
                            cands@[k].original@,
                        )
                },
                None => forall|k: int| #![trigger cands@[k]] 0 <= k < i ==> !eligible(cands@, used@, *r, k),
            },
        decreases cands.len() - i,
    {
        if cands[i].file == r.file && !used[i] {
            let (d, m) = sim_exec(&r.original, &cands[i].original);
            proof {
                lemma_products_fit(d, bm);
                lemma_products_fit(bd, m);
            }
            let take = match best {
                None => 10 * d < 3 * m,
                Some(_) => d * bm < bd * m,
            };
            proof {
                match best {
                    Some(j) => {
                        if take {
                            lemma_ratio_threshold(
                                d as nat,
                                m as nat,
                                bd as nat,
                                bm as nat,
                            );
                        }
                    },
                    None => {},
                }
            }
            if take {
                proof {
                    assert(eligible(cands@, used@, *r, i as int));
                    match best {
                        Some(j) => {
                            assert forall|k: int|
                                #![trigger cands@[k]]
                                0 <= k < i + 1 && eligible(cands@, used@, *r, k) implies !more_similar(
                                r.original@,
                                cands@[k].original@,
                                cands@[i as int].original@,
                            ) by {
                                if k < i {
                                    let kd = sim(r.original@, cands@[k].original@).0;
                                    let km = sim(r.original@, cands@[k].original@).1;
                                    if kd * (m as nat) < (d as nat) * km {
                                        lemma_ratio_trans(kd, km, d as nat, m as nat, bd as nat, bm as nat);
                                    }
                                }
                            }
                            assert forall|k: int|
                                #![trigger cands@[k]]
                                0 <= k < i && eligible(cands@, used@, *r, k) implies more_similar(
                                r.original@,
                                cands@[i as int].original@,
                                cands@[k].original@,
                            ) by {
                                let kd = sim(r.original@, cands@[k].original@).0;
                                let km = sim(r.original@, cands@[k].original@).1;
                                assert(!more_similar(r.original@, cands@[k].original@, cands@[j as int].original@));
                                lemma_ratio_trans_le(d as nat, m as nat, bd as nat, bm as nat, kd, km);
                            }
                        },
                        None => {},
                    }
                }
                best = Some(i);
                bd = d;
                bm = m;
            } else {
                proof {
                    match best {
                        Some(j) => {
                            assert(!more_similar(r.original@, cands@[i as int].original@, cands@[j as int].original@));
                        },
                        None => {
                            assert(!eligible(cands@, used@, *r, i as int));
                        },
                    }
                }
            }
        }
        i = i + 1;
    }
    proof {
        match best {
            Some(j) => {},
            None => {
                assert forall|j: int| !is_best(cands@, used@, *r, j) by {
                    if 0 <= j < cands@.len() {
                        assert(!eligible(cands@, used@, *r, j));
                    }
                }
            },
        }
    }
    best
}

/// Plans a migration: the updates to write into the new version and the
/// report.
pub fn plan_migration(old: &Vec<OldRow>, news: &Vec<NewRow>) -> (r: (
    MigrationReport,
    Vec<MigrationUpdate>,
))
    requires
        old.len() <= u32::MAX,
        news.len() <= u32::MAX,
    ensures
        ({
            let st = migrate_spec(old@, news@);
            let carried = st.0 + st.1;
            let total = distinct_count(row_ids(translated_rows(old@)));
            &&& r.0.carried_exact == st.0
            &&& r.0.carried_fuzzy == st.1
            &&& r.0.new_strings == st.2
            &&& r.0.still_untranslated == st.3
            &&& r.0.old_unused == if total >= carried { (total - carried) as nat } else { 0 }
            &&& r.1@.map_values(|u: MigrationUpdate| update_view(u)) == st.5
        }),
{
    let cands = translated_rows_exec(old);
    let mut used: Vec<bool> = Vec::new();
    while used.len() < cands.len()
        invariant
            used.len() <= cands.len(),
            forall|k: int| 0 <= k < used.len() ==> !used@[k],
        decreases cands.len() - used.len(),
    {
        used.push(false);
    }
    assert(used@ =~= Seq::new(translated_rows(old@).len(), |i: int| false));
    let mut exact: u32 = 0;
    let mut fuzzy: u32 = 0;
    let mut fresh: u32 = 0;
    let mut still: u32 = 0;
    let mut updates: Vec<MigrationUpdate> = Vec::new();
    let mut i: usize = 0;
    while i < news.len()
        invariant
            i <= news.len() <= u32::MAX,
            cands@ == translated_rows(old@),
            used.len() == cands.len(),
            exact + fuzzy + fresh + still == i,
            ({
                let st = migrate_spec(old@, news@.take(i as int));
                &&& exact == st.0
                &&& fuzzy == st.1
                &&& fresh == st.2
                &&& still == st.3
                &&& used@ == st.4
                &&& updates@.map_values(|u: MigrationUpdate| update_view(u)) == st.5
            }),
        decreases news.len() - i,
    {
        assert(news@.take(i + 1).drop_last() =~= news@.take(i as int));
        assert(news@.take(i + 1).last() == news@[i as int]);
        let r = &news[i];
        let ghost before = updates@.map_values(|u: MigrationUpdate| update_view(u));
        match trans_by_id_exec(old, &r.id) {
            Some(t) => {
                updates.push(
                    MigrationUpdate {
                        id: r.id.clone(),
                        translation: t,
                        status: "translated".to_string(),
                        prev_original: None,
                    },
                );
                assert(updates@.map_values(|u: MigrationUpdate| update_view(u)) =~= before.push(
                    (r.id@, trans_by_id(old@, r.id@)->0, "translated"@, None),
                ));
                exact = exact + 1;
            },
            None => {
                if has_id_exec(old, &r.id) {
                    still = still + 1;
                } else {
                    match best_candidate(&cands, &used, r) {
                        Some(j) => {
                            proof {
                                let c = choose|c: int| is_best(cands@, used@, *r, c);
                                lemma_best_unique(cands@, used@, *r, c, j as int);
                            }
                            updates.push(
                                MigrationUpdate {
                                    id: r.id.clone(),
                                    translation: cands[j].translation.clone(),
                                    status: "outdated".to_string(),
                                    prev_original: Some(cands[j].original.clone()),
                                },
                            );
                            assert(updates@.map_values(|u: MigrationUpdate| update_view(u)) =~= before.push(
                                (r.id@, cands@[j as int].translation@, "outdated"@, Some(cands@[j as int].original@)),
                            ));
                            used.set(j, true);
                            fuzzy = fuzzy + 1;
                        },
                        None => {
                            if changed_known_exec(old, r) {
                                still = still + 1;
                            } else {
                                fresh = fresh + 1;
                            }
                        },
                    }
                }
            },
        }
        i = i + 1;
    }
    assert(news@.take(i as int) =~= news@);
    let total = distinct_count_exec(&cands);
    let carried: u64 = exact as u64 + fuzzy as u64;
    let unused: u64 = if total >= carried { total - carried } else { 0 };
    proof {
        lemma_distinct_count_bound(row_ids(cands@));
        lemma_translated_len(old@);
    }
    let report = MigrationReport {
        carried_exact: exact,
        carried_fuzzy: fuzzy,
        new_strings: fresh,
        still_untranslated: still,
        old_unused: unused as u32,
    };
    (report, updates)
}

proof fn lemma_best_unique(cands: Seq<OldRow>, used: Seq<bool>, r: NewRow, a: int, b: int)
    requires
        is_best(cands, used, r, a),
        is_best(cands, used, r, b),
    ensures
        a == b,
{
    if a < b {
        assert(more_similar(r.original@, cands[b].original@, cands[a].original@));
    }
    if b < a {
        assert(more_similar(r.original@, cands[a].original@, cands[b].original@));
    }
}

proof fn lemma_distinct_count_bound(ids: Seq<Seq<char>>)
    ensures
        distinct_count(ids) <= ids.len(),
    decreases ids.len(),
{
    if ids.len() > 0 {
        lemma_distinct_count_bound(ids.drop_last());
    }
}

proof fn lemma_translated_len(old: Seq<OldRow>)
    ensures
        translated_rows(old).len() <= old.len(),
    decreases old.len(),
{
    if old.len() > 0 {
        lemma_translated_len(old.drop_last());
    }
}

/// How many entries are `true`.
pub open spec fn count_true(s: Seq<bool>) -> nat
    decreases s.len(),
{
    if s.len() == 0 {
        0
    } else {
        count_true(s.drop_last()) + if s.last() { 1nat } else { 0nat }
    }
}

proof fn lemma_count_true_set(s: Seq<bool>, j: int)
    requires
        0 <= j < s.len(),
        !s[j],
    ensures
        count_true(s.update(j, true)) == count_true(s) + 1,
    decreases s.len(),
{
    let t = s.update(j, true);
    if j == s.len() - 1 {
        assert(t.drop_last() =~= s.drop_last());
    } else {
        assert(t.drop_last() =~= s.drop_last().update(j, true));
        lemma_count_true_set(s.drop_last(), j);
    }
}

proof fn lemma_count_true_all_false(n: nat)
    ensures
        count_true(Seq::new(n, |i: int| false)) == 0,
    decreases n,
{
    if n > 0 {
        assert(Seq::new(n, |i: int| false).drop_last() =~= Seq::new((n - 1) as nat, |i: int| false));
        lemma_count_true_all_false((n - 1) as nat);
    }
}

/// Every untranslated row of the new version is counted exactly once (carried
/// exactly, carried fuzzily, new, or still untranslated); every carried row
/// gets one update; and an old translation is carried fuzzily at most once:
/// the candidates taken are as many as the fuzzy carries.
pub proof fn law_migration_accounts(old: Seq<OldRow>, news: Seq<NewRow>)
    ensures
        ({
            let st = migrate_spec(old, news);
            &&& st.0 + st.1 + st.2 + st.3 == news.len()
            &&& st.5.len() == st.0 + st.1
            &&& st.4.len() == translated_rows(old).len()
            &&& count_true(st.4) == st.1
        }),
    decreases news.len(),
{
    if news.len() == 0 {
        lemma_count_true_all_false(translated_rows(old).len());
    } else {
        law_migration_accounts(old, news.drop_last());
        let st = migrate_spec(old, news.drop_last());
        let r = news.last();
        let cands = translated_rows(old);
        if trans_by_id(old, r.id@) is None && !has_id(old, r.id@) && exists|j: int|
            is_best(cands, st.4, r, j) {
            let j = choose|j: int| is_best(cands, st.4, r, j);
            lemma_count_true_set(st.4, j);
        }
    }
}

} // verus!
