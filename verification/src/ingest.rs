//! Turning the extractor's report into table rows: the garbage filter, the
//! character definitions and the unique row ids.
use vstd::prelude::*;
use vstd::seq_lib::*;
use vstd::set_lib::*;
use crate::models::{ExtractedData, ExtractedString};
use crate::text::{
    alphabetic, char_is_alphabetic, chars_of, extend_str, opt_text, opt_view, pair_views, zero_pad, zero_padded, clone_opt, contains_char, decimal, decimal_exec,
    digit_char, extend_chars, has_prefix, is_digit, starts_with, str_eq, string_of, trim,
    trim_end_char, trim_end_char_exec, trim_exec, trim_start_matches, trim_start_matches_exec,
};

verus! {

// ---------------------------------------------------------------------------
// The garbage filter
// ---------------------------------------------------------------------------

/// A string that is not worth translating: empty after trimming, a bare
/// interpolation such as `[name]`, a single non-letter (or one of H, S, V), or
/// a number of two or more digits.
pub open spec fn is_garbage(what: Seq<char>) -> bool {
    let t = trim(what);
    ||| t.len() == 0
    ||| (t.len() > 0 && t[0] == '[' && t.last() == ']' && !t.contains(' ') && !t.contains('"'))
    ||| (t.len() == 1 && (!alphabetic(t[0]) || t[0] == 'H' || t[0] == 'S' || t[0] == 'V'))
    ||| (t.len() > 1 && forall|i: int| 0 <= i < t.len() ==> is_digit(t[i]))
}

fn all_digits(t: &Vec<char>) -> (r: bool)
    ensures
        r == forall|i: int| 0 <= i < t@.len() ==> is_digit(t@[i]),
{
    let mut i: usize = 0;
    while i < t.len()
        invariant
            i <= t.len(),
            forall|j: int| 0 <= j < i ==> is_digit(t@[j]),
        decreases t.len() - i,
    {
        if !(t[i] >= '0' && t[i] <= '9') {
            return false;
        }
        i = i + 1;
    }
    true
}

/// Whether the extractor's text is garbage (see `is_garbage`).
pub fn is_garbage_text(what: &str) -> (r: bool)
    ensures
        r == is_garbage(what@),
{
    let w = chars_of(what);
    let t = trim_exec(&w);
    let n = t.len();
    if n == 0 {
        return true;
    }
    if t[0] == '[' && t[n - 1] == ']' && !contains_char(&t, ' ') && !contains_char(&t, '"') {
        return true;
    }
    if n == 1 {
        let ch = t[0];
        if !char_is_alphabetic(ch) || ch == 'H' || ch == 'S' || ch == 'V' {
            return true;
        }
    }
    n > 1 && all_digits(&t)
}

// ---------------------------------------------------------------------------
// Character definitions
// ---------------------------------------------------------------------------


/// The variable code of a `[DEFINE: code]` speaker tag on a python string.
pub open spec fn define_code(e: ExtractedString) -> Option<Seq<char>> {
    let who = opt_text(e.who);
    if e.block_type@ == "python"@ && has_prefix(who, "[DEFINE:"@) {
        let code = trim(trim_end_char(trim_start_matches(who, "[DEFINE:"@), ']'));
        if code.len() > 0 {
            Some(code)
        } else {
            None
        }
    } else {
        None
    }
}

/// A character definition to record: code, name, file, line.
pub struct CharacterDef {
    pub code: String,
    pub name: String,
    pub file: String,
    pub line: i32,
}

fn define_code_exec(e: &ExtractedString) -> (r: Option<String>)
    ensures
        match r {
            Some(c) => define_code(*e) == Some(c@),
            None => define_code(*e) is None,
        },
{
    proof {
        reveal_strlit("python");
        reveal_strlit("[DEFINE:");
    }
    if !str_eq(e.block_type.as_str(), "python") {
        return None;
    }
    let who: Vec<char> = match &e.who {
        Some(w) => chars_of(w.as_str()),
        None => Vec::new(),
    };
    assert(who@ == opt_text(e.who));
    let tag = chars_of("[DEFINE:");
    if !starts_with(&who, &tag) {
        return None;
    }
    let a = trim_start_matches_exec(&who, &tag);
    let b = trim_end_char_exec(&a, ']');
    let c = trim_exec(&b);
    if c.len() > 0 {
        Some(string_of(&c))
    } else {
        None
    }
}

// ---------------------------------------------------------------------------
// Unique row ids
// ---------------------------------------------------------------------------

/// The `k`-th candidate id for `id`: `id` itself, then `id_1`, `id_2`, ...
pub open spec fn id_candidate(id: Seq<char>, k: nat) -> Seq<char> {
    if k == 0 {
        id
    } else {
        id + seq!['_'] + decimal(k)
    }
}

/// `k` is the first candidate that `seen` does not hold yet.
pub open spec fn is_first_free(id: Seq<char>, seen: Seq<Seq<char>>, k: nat) -> bool {
    &&& !seen.contains(id_candidate(id, k))
    &&& forall|j: nat| j < k ==> seen.contains(#[trigger] id_candidate(id, j))
}

/// The id a string gets: its first candidate not used before.
pub open spec fn fresh_id(id: Seq<char>, seen: Seq<Seq<char>>) -> Seq<char> {
    id_candidate(id, choose|k: nat| is_first_free(id, seen, k))
}

/// The ids given to strings with the ids `ids`, in order.
pub open spec fn assign_ids(ids: Seq<Seq<char>>) -> Seq<Seq<char>>
    decreases ids.len(),
{
    if ids.len() == 0 {
        seq![]
    } else {
        let prev = assign_ids(ids.drop_last());
        prev.push(fresh_id(ids.last(), prev))
    }
}

proof fn lemma_decimal_len(n: nat)
    ensures
        decimal(n).len() >= 1,
        n >= 10 ==> decimal(n).len() >= 2,
    decreases n,
{
    if n >= 10 {
        lemma_decimal_len(n / 10);
    }
}

proof fn lemma_digit_injective(a: nat, b: nat)
    requires
        a < 10,
        b < 10,
        digit_char(a) == digit_char(b),
    ensures
        a == b,
{
    let d = seq!['0', '1', '2', '3', '4', '5', '6', '7', '8', '9'];
    assert(d[0] == '0' && d[1] == '1' && d[2] == '2' && d[3] == '3' && d[4] == '4');
    assert(d[5] == '5' && d[6] == '6' && d[7] == '7' && d[8] == '8' && d[9] == '9');
}

proof fn lemma_decimal_injective(a: nat, b: nat)
    requires
        decimal(a) == decimal(b),
    ensures
        a == b,
    decreases a,
{
    lemma_decimal_len(a);
    lemma_decimal_len(b);
    if a < 10 && b < 10 {
        assert(decimal(a)[0] == digit_char(a));
        assert(decimal(b)[0] == digit_char(b));
        lemma_digit_injective(a, b);
    } else if a >= 10 && b >= 10 {
        assert(decimal(a).drop_last() == decimal(a / 10));
        assert(decimal(b).drop_last() == decimal(b / 10));
        lemma_decimal_injective(a / 10, b / 10);
        assert(decimal(a).last() == digit_char(a % 10));
        assert(decimal(b).last() == digit_char(b % 10));
        lemma_digit_injective(a % 10, b % 10);
    }
}

proof fn lemma_candidates_distinct(id: Seq<char>, a: nat, b: nat)
    requires
        a != b,
    ensures
        id_candidate(id, a) != id_candidate(id, b),
{
    lemma_decimal_len(a);
    lemma_decimal_len(b);
    if a > 0 && b > 0 {
        if id_candidate(id, a) == id_candidate(id, b) {
            let n: int = (id.len() + 1) as int;
            assert(id_candidate(id, a).skip(n) =~= decimal(a));
            assert(id_candidate(id, b).skip(n) =~= decimal(b));
            lemma_decimal_injective(a, b);
        }
    }
}

/// If the first `k` candidates are all taken, `seen` has at least `k` entries.
proof fn lemma_taken_bound(id: Seq<char>, seen: Seq<Seq<char>>, k: nat)
    requires
        forall|j: nat| j < k ==> seen.contains(#[trigger] id_candidate(id, j)),
    ensures
        k <= seen.len(),
{
    let cands = Seq::new(k, |j: int| id_candidate(id, j as nat));
    assert(cands.no_duplicates()) by {
        assert forall|i: int, j: int| 0 <= i < cands.len() && 0 <= j < cands.len() && i != j implies
            cands[i] != cands[j] by {
            lemma_candidates_distinct(id, i as nat, j as nat);
        }
    }
    cands.unique_seq_to_set();
    seen.lemma_cardinality_of_set();
    assert(cands.to_set().subset_of(seen.to_set())) by {
        assert forall|x: Seq<char>| cands.to_set().contains(x) implies seen.to_set().contains(x) by {
            let i = choose|i: int| 0 <= i < cands.len() && cands[i] == x;
            assert(seen.contains(id_candidate(id, i as nat)));
        }
    }
    seq_to_set_is_finite(seen);
    lemma_len_subset(cands.to_set(), seen.to_set());
}

proof fn lemma_first_free_unique(id: Seq<char>, seen: Seq<Seq<char>>, a: nat, b: nat)
    requires
        is_first_free(id, seen, a),
        is_first_free(id, seen, b),
    ensures
        a == b,
{
    if a < b {
        assert(seen.contains(id_candidate(id, a)));
    }
    if b < a {
        assert(seen.contains(id_candidate(id, b)));
    }
}

proof fn lemma_first_free_exists(id: Seq<char>, seen: Seq<Seq<char>>)
    ensures
        exists|k: nat| is_first_free(id, seen, k),
{
    lemma_first_free_search(id, seen, 0);
}

proof fn lemma_first_free_search(id: Seq<char>, seen: Seq<Seq<char>>, k: nat)
    requires
        forall|j: nat| j < k ==> seen.contains(#[trigger] id_candidate(id, j)),
    ensures
        exists|m: nat| is_first_free(id, seen, m),
    decreases seen.len() + 1 - k,
{
    lemma_taken_bound(id, seen, k);
    if !seen.contains(id_candidate(id, k)) {
        assert(is_first_free(id, seen, k));
    } else {
        assert forall|j: nat| j < k + 1 implies seen.contains(#[trigger] id_candidate(id, j)) by {}
        lemma_taken_bound(id, seen, k + 1);
        lemma_first_free_search(id, seen, k + 1);
    }
}

/// The id given to a string is one that was not given before.
pub proof fn lemma_fresh_id_is_new(id: Seq<char>, seen: Seq<Seq<char>>)
    ensures
        !seen.contains(fresh_id(id, seen)),
        has_prefix(fresh_id(id, seen), id),
{
    lemma_first_free_exists(id, seen);
    let k = choose|k: nat| is_first_free(id, seen, k);
    assert(fresh_id(id, seen).subrange(0, id.len() as int) =~= id);
}

/// Row ids are pairwise distinct, and each begins with the extractor's id.
pub proof fn law_assigned_ids_unique(ids: Seq<Seq<char>>)
    ensures
        assign_ids(ids).len() == ids.len(),
        assign_ids(ids).no_duplicates(),
        forall|i: int| 0 <= i < ids.len() ==> has_prefix(#[trigger] assign_ids(ids)[i], ids[i]),
    decreases ids.len(),
{
    if ids.len() > 0 {
        let prev = assign_ids(ids.drop_last());
        law_assigned_ids_unique(ids.drop_last());
        lemma_fresh_id_is_new(ids.last(), prev);
        let all = assign_ids(ids);
        assert(all == prev.push(fresh_id(ids.last(), prev)));
        assert forall|i: int, j: int| 0 <= i < all.len() && 0 <= j < all.len() && i != j implies
            all[i] != all[j] by {
            if i == all.len() - 1 {
                assert(prev.contains(all[j]));
            } else if j == all.len() - 1 {
                assert(prev.contains(all[i]));
            }
        }
        assert forall|i: int| 0 <= i < ids.len() implies has_prefix(#[trigger] all[i], ids[i]) by {
            if i < ids.len() - 1 {
                assert(all[i] == prev[i]);
                assert(ids.drop_last()[i] == ids[i]);
            }
        }
    }
}

fn vec_contains_string(v: &Vec<String>, s: &String) -> (r: bool)
    ensures
        r == v@.map_values(|x: String| x@).contains(s@),
{
    let ghost vv = v@.map_values(|x: String| x@);
    let mut i: usize = 0;
    while i < v.len()
        invariant
            i <= v.len(),
            vv == v@.map_values(|x: String| x@),
            forall|j: int| 0 <= j < i ==> vv[j] != s@,
        decreases v.len() - i,
    {
        if v[i] == *s {
            assert(vv[i as int] == s@);
            return true;
        }
        i = i + 1;
    }
    false
}

fn candidate_string(id: &String, k: u64) -> (r: String)
    ensures
        r@ == id_candidate(id@, k as nat),
{
    if k == 0 {
        return id.clone();
    }
    let mut v = chars_of(id.as_str());
    v.push('_');
    let d = decimal_exec(k);
    extend_chars(&mut v, &d);
    string_of(&v)
}

/// The first candidate of `id` that `seen` does not hold.
fn fresh_id_exec(id: &String, seen: &Vec<String>) -> (r: String)
    ensures
        r@ == fresh_id(id@, seen@.map_values(|x: String| x@)),
{
    let ghost sv = seen@.map_values(|x: String| x@);
    let mut k: u64 = 0;
    let mut cand = id.clone();
    while vec_contains_string(seen, &cand)
        invariant
            sv == seen@.map_values(|x: String| x@),
            cand@ == id_candidate(id@, k as nat),
            forall|j: nat| j < k ==> sv.contains(#[trigger] id_candidate(id@, j)),
            k <= seen.len(),
        decreases seen.len() - k,
    {
        assert forall|j: nat| j < k + 1 implies sv.contains(#[trigger] id_candidate(id@, j)) by {}
        proof {
            lemma_taken_bound(id@, sv, (k + 1) as nat);
        }
        k = k + 1;
        cand = candidate_string(id, k);
    }
    proof {
        assert(is_first_free(id@, sv, k as nat));
        let c = choose|m: nat| is_first_free(id@, sv, m);
        lemma_first_free_unique(id@, sv, c, k as nat);
    }
    cand
}

// ---------------------------------------------------------------------------
// The plan
// ---------------------------------------------------------------------------

/// The extractor strings that survive the garbage filter, in order.
pub open spec fn kept(s: Seq<ExtractedString>) -> Seq<ExtractedString>
    decreases s.len(),
{
    if s.len() == 0 {
        seq![]
    } else if is_garbage(s.last().what@) {
        kept(s.drop_last())
    } else {
        kept(s.drop_last()).push(s.last())
    }
}

pub open spec fn ids_of(s: Seq<ExtractedString>) -> Seq<Seq<char>> {
    s.map_values(|e: ExtractedString| e.id@)
}

/// The character definitions among the kept strings: code, trimmed text, file, line.
pub open spec fn character_defs(s: Seq<ExtractedString>) -> Seq<
    (Seq<char>, Seq<char>, Seq<char>, i32),
>
    decreases s.len(),
{
    if s.len() == 0 {
        seq![]
    } else {
        let prev = character_defs(s.drop_last());
        let e = s.last();
        match define_code(e) {
            Some(code) => prev.push((code, trim(e.what@), e.file@, e.line)),
            None => prev,
        }
    }
}

/// What `serde_json::to_string` gives for a list of strings.
pub uninterp spec fn json_string_list(items: Seq<Seq<char>>) -> Option<Seq<char>>;

/// Calls `serde_json::to_string` on a list of strings; `.ok()` of the result
/// is named `json_string_list` of the strings.
#[verifier::external_body]
pub(crate) fn to_json_string_list(items: &Vec<String>) -> (r: Option<String>)
    ensures
        match r {
            Some(t) => json_string_list(items@.map_values(|x: String| x@)) == Some(t@),
            None => json_string_list(items@.map_values(|x: String| x@)) is None,
        },
{
    serde_json::to_string(items).ok()
}

/// The text stored in the `alt_texts` column for a string: none when it has
/// no alternative wordings, else their JSON array.
pub open spec fn alt_json(e: ExtractedString) -> Option<Seq<char>> {
    if e.alt_texts@.len() == 0 {
        None
    } else {
        json_string_list(e.alt_texts@.map_values(|x: String| x@))
    }
}


/// A row to write into `translations` (translation empty, status "untranslated").
pub struct IngestRow {
    pub id: String,
    pub block_type: String,
    pub file: String,
    pub line: i32,
    pub who: Option<String>,
    pub original: String,
    pub prefix: Option<String>,
    pub source: Option<String>,
    pub alt_json: Option<String>,
}

/// What a report turns into: rows, character definitions and the number of
/// strings dropped as garbage.
pub struct IngestPlan {
    pub rows: Vec<IngestRow>,
    pub characters: Vec<CharacterDef>,
    pub skipped_garbage: u32,
}

/// Row `r` carries string `e` under the id `id`.
pub open spec fn row_of(r: IngestRow, e: ExtractedString, id: Seq<char>) -> bool {
    &&& r.id@ == id
    &&& r.block_type@ == e.block_type@
    &&& r.file@ == e.file@
    &&& r.line == e.line
    &&& opt_view(r.who) == opt_view(e.who)
    &&& r.original@ == e.what@
    &&& opt_view(r.prefix) == opt_view(e.prefix)
    &&& opt_view(r.source) == opt_view(e.source)
    &&& opt_view(r.alt_json) == alt_json(e)
}

pub open spec fn def_view(d: CharacterDef) -> (Seq<char>, Seq<char>, Seq<char>, i32) {
    (d.code@, d.name@, d.file@, d.line)
}

proof fn lemma_kept_len(s: Seq<ExtractedString>)
    ensures
        kept(s).len() <= s.len(),
    decreases s.len(),
{
    if s.len() > 0 {
        lemma_kept_len(s.drop_last());
    }
}

/// Filters the extractor's strings and gives every kept one a unique id.
pub fn plan_ingest(strings: &Vec<ExtractedString>) -> (p: IngestPlan)
    requires
        strings.len() <= u32::MAX,
    ensures
        p.rows.len() == kept(strings@).len(),
        forall|i: int|
            0 <= i < p.rows.len() ==> row_of(
                #[trigger] p.rows@[i],
                kept(strings@)[i],
                assign_ids(ids_of(kept(strings@)))[i],
            ),
        p.characters@.map_values(|d: CharacterDef| def_view(d)) == character_defs(kept(strings@)),
        p.skipped_garbage == strings.len() - kept(strings@).len(),
{
    let mut rows: Vec<IngestRow> = Vec::new();
    let mut characters: Vec<CharacterDef> = Vec::new();
    let mut seen: Vec<String> = Vec::new();
    let mut skipped: u32 = 0;
    let mut i: usize = 0;
    while i < strings.len()
        invariant
            i <= strings.len() <= u32::MAX,
            rows.len() == kept(strings@.take(i as int)).len(),
            seen@.map_values(|x: String| x@) == assign_ids(ids_of(kept(strings@.take(i as int)))),
            forall|j: int|
                0 <= j < rows.len() ==> row_of(
                    #[trigger] rows@[j],
                    kept(strings@.take(i as int))[j],
                    assign_ids(ids_of(kept(strings@.take(i as int))))[j],
                ),
            characters@.map_values(|d: CharacterDef| def_view(d)) == character_defs(
                kept(strings@.take(i as int)),
            ),
            skipped == i - kept(strings@.take(i as int)).len(),
        decreases strings.len() - i,
    {
        let ghost pre = strings@.take(i as int);
        let ghost post = strings@.take(i + 1);
        assert(post.drop_last() =~= pre);
        assert(post.last() == strings@[i as int]);
        proof {
            lemma_kept_len(pre);
        }
        let e = &strings[i];
        if is_garbage_text(e.what.as_str()) {
            skipped = skipped + 1;
        } else {
            let ghost kp = kept(pre);
            assert(kept(post) == kp.push(*e));
            assert(kept(post).drop_last() =~= kp);
            assert(kept(post).last() == *e);
            assert(ids_of(kept(post)) =~= ids_of(kp).push(e.id@));
            let ghost ip = ids_of(kept(post));
            assert(ip.drop_last() =~= ids_of(kp));
            assert(ip.last() == e.id@);
            proof {
                law_assigned_ids_unique(ids_of(kp));
            }
            assert(assign_ids(ip) == assign_ids(ids_of(kp)).push(
                fresh_id(e.id@, assign_ids(ids_of(kp))),
            ));
            match define_code_exec(e) {
                Some(code) => {
                    let wv = chars_of(e.what.as_str());
                    let name = string_of(&trim_exec(&wv));
                    let ghost before = characters@.map_values(|d: CharacterDef| def_view(d));
                    characters.push(CharacterDef { code, name, file: e.file.clone(), line: e.line });
                    assert(characters@.map_values(|d: CharacterDef| def_view(d)) =~= before.push(
                        (define_code(*e)->0, trim(e.what@), e.file@, e.line),
                    ));
                },
                None => {},
            }
            let fid = fresh_id_exec(&e.id, &seen);
            let alt = if e.alt_texts.len() == 0 {
                None
            } else {
                to_json_string_list(&e.alt_texts)
            };
            let row = IngestRow {
                id: fid.clone(),
                block_type: e.block_type.clone(),
                file: e.file.clone(),
                line: e.line,
                who: clone_opt(&e.who),
                original: e.what.clone(),
                prefix: clone_opt(&e.prefix),
                source: clone_opt(&e.source),
                alt_json: alt,
            };
            let ghost seen_before = seen@.map_values(|x: String| x@);
            rows.push(row);
            seen.push(fid);
            assert(seen@.map_values(|x: String| x@) =~= seen_before.push(fid@));
            assert forall|j: int| 0 <= j < rows.len() implies row_of(
                #[trigger] rows@[j],
                kept(post)[j],
                assign_ids(ids_of(kept(post)))[j],
            ) by {
                if j < rows.len() - 1 {
                    assert(kept(post)[j] == kp[j]);
                    assert(assign_ids(ids_of(kept(post)))[j] == assign_ids(ids_of(kp))[j]);
                }
            }
        }
        i = i + 1;
    }
    assert(strings@.take(i as int) =~= strings@);
    IngestPlan { rows, characters, skipped_garbage: skipped }
}

// ---------------------------------------------------------------------------
// Engine strings, metadata, report
// ---------------------------------------------------------------------------


/// The engine's own interface strings, added when no row holds them yet.
pub open spec fn engine_string(i: int) -> Seq<char> {
    if i == 0 {
        "Are you sure you want to quit?"@
    } else if i == 1 {
        "Are you sure you want to return to the main menu?\nThis will lose unsaved progress."@
    } else if i == 2 {
        "Are you sure you want to overwrite your save?"@
    } else if i == 3 {
        "Are you sure you want to delete this save?"@
    } else if i == 4 {
        "Loading will lose unsaved progress.\nAre you sure you want to do this?"@
    } else if i == 5 {
        "Are you sure you want to continue where you left off?"@
    } else if i == 6 {
        "Skip unseen dialogue to the next choice?"@
    } else if i == 7 {
        "Skip Mode"@
    } else if i == 8 {
        "Empty Slot."@
    } else if i == 9 {
        "Previous"@
    } else {
        "Next"@
    }
}

pub open spec fn engine_id(i: nat) -> Seq<char> {
    "engine_sup_"@ + zero_pad(decimal(i), 4)
}

fn engine_text(i: usize) -> (r: String)
    requires
        i < 11,
    ensures
        r@ == engine_string(i as int),
{
    if i == 0 {
        "Are you sure you want to quit?".to_string()
    } else if i == 1 {
        "Are you sure you want to return to the main menu?\nThis will lose unsaved progress.".to_string()
    } else if i == 2 {
        "Are you sure you want to overwrite your save?".to_string()
    } else if i == 3 {
        "Are you sure you want to delete this save?".to_string()
    } else if i == 4 {
        "Loading will lose unsaved progress.\nAre you sure you want to do this?".to_string()
    } else if i == 5 {
        "Are you sure you want to continue where you left off?".to_string()
    } else if i == 6 {
        "Skip unseen dialogue to the next choice?".to_string()
    } else if i == 7 {
        "Skip Mode".to_string()
    } else if i == 8 {
        "Empty Slot.".to_string()
    } else if i == 9 {
        "Previous".to_string()
    } else {
        "Next".to_string()
    }
}

/// The engine supplement rows: `(engine_sup_NNNN, text)` for each engine string.
pub fn engine_supplement() -> (r: Vec<(String, String)>)
    ensures
        r.len() == 11,
        forall|i: int|
            0 <= i < 11 ==> (#[trigger] r@[i]).0@ == engine_id(i as nat) && r@[i].1@
                == engine_string(i),
{
    let mut r: Vec<(String, String)> = Vec::new();
    let mut i: usize = 0;
    while i < 11
        invariant
            i <= 11,
            r.len() == i,
            forall|j: int|
                0 <= j < i ==> (#[trigger] r@[j]).0@ == engine_id(j as nat) && r@[j].1@
                    == engine_string(j),
        decreases 11 - i,
    {
        let mut id = chars_of("engine_sup_");
        let pad = zero_padded(i as u64, 4);
        extend_chars(&mut id, &pad);
        r.push((string_of(&id), engine_text(i)));
        i = i + 1;
    }
    r
}

/// Whether a game-information value is worth recording.
pub open spec fn meta_value_present(v: Option<String>) -> bool {
    match v {
        Some(s) => trim(s@).len() > 0,
        None => false,
    }
}

/// The language entries of the metadata: the JSON list of available
/// languages, then the source language, when the report has the list.
pub open spec fn meta_languages(d: ExtractedData) -> Seq<(Seq<char>, Seq<char>)> {
    match d.available_languages {
        Some(l) => {
            let j = match json_string_list(l@.map_values(|x: String| x@)) {
                Some(t) => t,
                None => seq![],
            };
            let first = seq![("available_languages"@, j)];
            match d.source_language {
                Some(src) => first.push(("source_language"@, src@)),
                None => first,
            }
        },
        None => seq![],
    }
}

pub open spec fn meta_head(d: ExtractedData) -> Seq<(Seq<char>, Seq<char>)> {
    let legacy = match d.is_legacy_format {
        Some(true) => "true"@,
        _ => "false"@,
    };
    meta_languages(d).push(("is_legacy"@, legacy))
}

pub open spec fn with_info(s: Seq<(Seq<char>, Seq<char>)>, key: Seq<char>, v: Option<String>) -> Seq<
    (Seq<char>, Seq<char>),
> {
    if meta_value_present(v) {
        s.push((key, opt_text(v)))
    } else {
        s
    }
}

/// The `project_meta` entries an extraction report sets, in order.
pub open spec fn ingest_meta_spec(d: ExtractedData) -> Seq<(Seq<char>, Seq<char>)> {
    with_info(
        with_info(with_info(meta_head(d), "game_name"@, d.game_name), "game_version"@, d.game_version),
        "engine_version"@,
        d.engine_version,
    )
}

/// The value the metadata records under `key` (its first entry), if any.
pub open spec fn meta_value(m: Seq<(Seq<char>, Seq<char>)>, key: Seq<char>) -> Option<Seq<char>>
    decreases m.len(),
{
    if m.len() == 0 {
        None
    } else if m[0].0 == key {
        Some(m[0].1)
    } else {
        meta_value(m.skip(1), key)
    }
}

proof fn lemma_meta_value_push(m: Seq<(Seq<char>, Seq<char>)>, p: (Seq<char>, Seq<char>), key: Seq<char>)
    ensures
        meta_value(m.push(p), key) == if meta_value(m, key) is Some {
            meta_value(m, key)
        } else if p.0 == key {
            Some(p.1)
        } else {
            None::<Seq<char>>
        },
    decreases m.len(),
{
    if m.len() > 0 {
        assert(m.push(p)[0] == m[0]);
        assert(m.push(p).skip(1) =~= m.skip(1).push(p));
        lemma_meta_value_push(m.skip(1), p, key);
    } else {
        assert(m.push(p)[0] == p);
        assert(m.push(p).skip(1) =~= Seq::<(Seq<char>, Seq<char>)>::empty());
        assert(meta_value(Seq::<(Seq<char>, Seq<char>)>::empty(), key) is None);
    }
}

/// The metadata of a report records the engine format once: `is_legacy` is
/// `true` exactly when the report says the format is the legacy one
/// (`Some(true)`), and `false` for a modern report or one that does not say;
/// the source language is recorded only with the list of languages.
pub proof fn law_meta_legacy_flag(d: ExtractedData)
    ensures
        meta_value(ingest_meta_spec(d), "is_legacy"@) == Some(if d.is_legacy_format == Some(true) { "true"@ } else { "false"@ }),
        d.available_languages is None ==> meta_value(ingest_meta_spec(d), "source_language"@) is None,
{
    reveal_strlit("is_legacy");
    reveal_strlit("available_languages");
    reveal_strlit("source_language");
    reveal_strlit("game_name");
    reveal_strlit("game_version");
    reveal_strlit("engine_version");
    let key = "is_legacy"@;
    assert("available_languages"@ != key) by { assert("available_languages"@.len() != key.len()); }
    assert("source_language"@ != key) by { assert("source_language"@.len() != key.len()); }
    assert("game_name"@ != key) by { assert("game_name"@[0] != key[0]); }
    assert("game_version"@ != key) by { assert("game_version"@.len() != key.len()); }
    assert("engine_version"@ != key) by { assert("engine_version"@.len() != key.len()); }
    assert("game_name"@ != "source_language"@) by { assert("game_name"@.len() != "source_language"@.len()); }
    assert("game_version"@ != "source_language"@) by { assert("game_version"@.len() != "source_language"@.len()); }
    assert("engine_version"@ != "source_language"@) by { assert("engine_version"@.len() != "source_language"@.len()); }
    assert(key != "source_language"@);
    let legacy = if d.is_legacy_format == Some(true) { "true"@ } else { "false"@ };
    let langs = meta_languages(d);
    assert(meta_value(langs, key) is None) by {
        match d.available_languages {
            Some(l) => {
                let j = match json_string_list(l@.map_values(|x: String| x@)) {
                    Some(t) => t,
                    None => seq![],
                };
                let first = seq![("available_languages"@, j)];
                lemma_meta_value_push(Seq::<(Seq<char>, Seq<char>)>::empty(), ("available_languages"@, j), key);
                assert(Seq::<(Seq<char>, Seq<char>)>::empty().push(("available_languages"@, j)) =~= first);
                match d.source_language {
                    Some(src) => {
                        lemma_meta_value_push(first, ("source_language"@, src@), key);
                    },
                    None => {},
                }
            },
            None => {},
        }
    }
    assert(meta_head(d) == langs.push((key, legacy)));
    lemma_meta_value_push(langs, (key, legacy), key);
    let h = meta_head(d);
    let a = with_info(h, "game_name"@, d.game_name);
    let b = with_info(a, "game_version"@, d.game_version);
    let c = with_info(b, "engine_version"@, d.engine_version);
    lemma_meta_value_push(h, ("game_name"@, opt_text(d.game_name)), key);
    lemma_meta_value_push(a, ("game_version"@, opt_text(d.game_version)), key);
    lemma_meta_value_push(b, ("engine_version"@, opt_text(d.engine_version)), key);
    let sk = "source_language"@;
    if d.available_languages is None {
        assert(langs =~= Seq::<(Seq<char>, Seq<char>)>::empty());
        lemma_meta_value_push(langs, (key, legacy), sk);
        lemma_meta_value_push(h, ("game_name"@, opt_text(d.game_name)), sk);
        lemma_meta_value_push(a, ("game_version"@, opt_text(d.game_version)), sk);
        lemma_meta_value_push(b, ("engine_version"@, opt_text(d.engine_version)), sk);
    }
}

fn push_info(out: &mut Vec<(String, String)>, key: &str, v: &Option<String>)
    ensures
        pair_views(final(out)@) == with_info(pair_views(old(out)@), key@, *v),
{
    let ghost before = pair_views(out@);
    match v {
        Some(s) => {
            let t = trim_exec(&chars_of(s.as_str()));
            if t.len() > 0 {
                out.push((key.to_string(), s.clone()));
                assert(pair_views(out@) =~= before.push((key@, s@)));
            }
        },
        None => {},
    }
}

/// The `project_meta` entries to set after an extraction.
pub fn ingest_meta(d: &ExtractedData) -> (r: Vec<(String, String)>)
    ensures
        pair_views(r@) == ingest_meta_spec(*d),
        meta_value(pair_views(r@), "is_legacy"@) == Some(if d.is_legacy_format == Some(true) { "true"@ } else { "false"@ }),
{
    proof {
        law_meta_legacy_flag(*d);
    }
    let mut out: Vec<(String, String)> = Vec::new();
    match &d.available_languages {
        Some(l) => {
            let j = match to_json_string_list(l) {
                Some(t) => t,
                None => String::new(),
            };
            out.push(("available_languages".to_string(), j));
            match &d.source_language {
                Some(src) => {
                    out.push(("source_language".to_string(), src.clone()));
                },
                None => {},
            }
            assert(pair_views(out@) =~= meta_languages(*d));
        },
        None => {},
    }
    let legacy = match d.is_legacy_format {
        Some(true) => "true".to_string(),
        _ => "false".to_string(),
    };
    let ghost before = pair_views(out@);
    assert(before =~= meta_languages(*d));
    out.push(("is_legacy".to_string(), legacy));
    assert(pair_views(out@) =~= meta_head(*d));
    push_info(&mut out, "game_name", &d.game_name);
    push_info(&mut out, "game_version", &d.game_version);
    push_info(&mut out, "engine_version", &d.engine_version);
    out
}

/// The report an extraction ends with.
pub open spec fn ingest_message_spec(extracted: nat, skipped: nat, legacy: bool) -> Seq<char> {
    let base = "Извлечено строк: "@ + decimal(extracted) + " (отфильтровано мусора: "@ + decimal(
        skipped,
    ) + ")"@;
    if legacy {
        base + LEGACY_WARNING@
    } else {
        base
    }
}

pub const LEGACY_WARNING: &'static str = " \nВнимание: обнаружен старый движок Ren'Py! Внедрение переводов для этой версии может потребовать ручной адаптации.";

/// The report an extraction ends with: rows written, strings dropped, and a
/// warning for the old engine format.
pub fn ingest_message(extracted: u64, skipped: u64, legacy: bool) -> (r: String)
    ensures
        r@ == ingest_message_spec(extracted as nat, skipped as nat, legacy),
{
    let mut v = chars_of("Извлечено строк: ");
    extend_chars(&mut v, &decimal_exec(extracted));
    extend_str(&mut v, " (отфильтровано мусора: ");
    extend_chars(&mut v, &decimal_exec(skipped));
    extend_str(&mut v, ")");
    if legacy {
        extend_str(&mut v, LEGACY_WARNING);
    }
    string_of(&v)
}

// ---------------------------------------------------------------------------
// Languages the extractor reports
// ---------------------------------------------------------------------------

/// The line of the extractor's listing that carries the languages.
pub open spec fn langs_line(l: Seq<char>) -> bool {
    has_prefix(trim(l), "RENFORGE_LANGS:"@)
}

/// The languages of the first `RENFORGE_LANGS:` line among `ls` (a JSON array
/// of strings after the marker; none when it does not parse), or none.
pub open spec fn langs_from_lines(ls: Seq<Seq<char>>) -> Seq<Seq<char>>
    decreases ls.len(),
{
    if ls.len() == 0 {
        seq![]
    } else if langs_line(ls[0]) {
        match crate::delivery::json_string_array(trim(trim(ls[0]).skip(15))) {
            Some(v) => v,
            None => seq![],
        }
    } else {
        langs_from_lines(ls.skip(1))
    }
}

/// The source languages the extractor's language listing (its standard
/// output) reports.
pub fn languages_from_output(stdout: &str) -> (r: Vec<String>)
    ensures
        crate::text::string_views(r@) == langs_from_lines(crate::text::lines(stdout@)),
{
    proof {
        reveal_strlit("RENFORGE_LANGS:");
    }
    let ls = crate::text::lines_exec(&chars_of(stdout));
    let ghost lv = crate::text::views(ls@);
    let marker = chars_of("RENFORGE_LANGS:");
    let mut i: usize = 0;
    assert(lv.skip(0) =~= lv);
    while i < ls.len()
        invariant
            i <= ls.len(),
            lv == crate::text::views(ls@),
            lv == crate::text::lines(stdout@),
            marker@ == "RENFORGE_LANGS:"@,
            marker@.len() == 15,
            langs_from_lines(lv.skip(i as int)) == langs_from_lines(lv),
        decreases ls.len() - i,
    {
        let ghost rest = lv.skip(i as int);
        assert(rest[0] == ls@[i as int]@);
        assert(rest.skip(1) =~= lv.skip(i + 1));
        let line = trim_exec(&ls[i]);
        if starts_with(&line, &marker) {
            let tail = trim_exec(&crate::text::slice_chars(&line, 15, line.len()));
            assert(line@.subrange(15, line@.len() as int) =~= line@.skip(15));
            let text = string_of(&tail);
            return match crate::delivery::parse_json_string_array(text.as_str()) {
                Some(v) => v,
                None => Vec::new(),
            };
        }
        i = i + 1;
    }
    assert(lv.skip(i as int).len() == 0);
    Vec::new()
}

} // verus!
