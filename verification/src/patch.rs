//! The game patch: which font files to copy into the game, which game font is
//! drawn with which copy, and the text of the patch script.
use vstd::prelude::*;
use crate::models::FontRemap;
use crate::templates::{FONT_MAP_CLOSE, FONT_MAP_OPEN, PATCH_HEAD_CLOSE, PATCH_HEAD_OPEN};
use crate::text::{chars_eq, chars_of, decimal, decimal_exec, extend_chars, extend_str, opt_view, push_chars, push_text, string_of};

verus! {

// ---------------------------------------------------------------------------
// Choosing and deduplicating the copied fonts
// ---------------------------------------------------------------------------

/// The file name, inside `game/`, of the `k`-th copied font.
pub open spec fn font_file_name(k: nat) -> Seq<char> {
    "renforge_font_"@ + decimal(k) + ".ttf"@
}

/// The font file drawn for a remap: its own target when that file exists, else
/// the engine's fallback font (if there is one).
pub open spec fn remap_src(rm: FontRemap, target_exists: bool, fallback: Option<Seq<char>>) -> Option<Seq<char>> {
    if rm.target is Some && target_exists {
        Some(rm.target->0@)
    } else {
        fallback
    }
}

/// The planning state: the distinct source files in the order they are first
/// needed, and for each placed remap its game font and the index of its copy.
pub type FontPlanState = (Seq<Seq<char>>, Seq<(Seq<char>, int)>);

pub open spec fn plan_step(st: FontPlanState, rm: FontRemap, target_exists: bool, fallback: Option<Seq<char>>) -> FontPlanState {
    match remap_src(rm, target_exists, fallback) {
        None => st,
        Some(s) => if st.0.contains(s) {
            (st.0, st.1.push((rm.source@, st.0.index_of(s))))
        } else {
            (st.0.push(s), st.1.push((rm.source@, st.0.len() as int)))
        },
    }
}

/// The font plan of a list of remaps (`exists[i]`: whether the target of the
/// `i`-th remap exists): each source file is copied once, under the name of
/// its rank among the distinct sources.
pub open spec fn plan_fonts(remaps: Seq<FontRemap>, exists: Seq<bool>, fallback: Option<Seq<char>>) -> FontPlanState
    decreases remaps.len(),
{
    if remaps.len() == 0 {
        (seq![], seq![])
    } else {
        plan_step(
            plan_fonts(remaps.drop_last(), exists.take(remaps.len() - 1), fallback),
            remaps.last(),
            exists[remaps.len() - 1],
            fallback,
        )
    }
}

/// A font plan: the copies to make (source file, name in `game/`) and, for
/// each remap that has a font, its game font and the index of its copy.
pub struct FontPlan {
    pub copies: Vec<(String, String)>,
    pub entries: Vec<(String, usize)>,
}

/// The plan as the mathematical state it stands for.
pub open spec fn plan_matches(p: FontPlan, st: FontPlanState) -> bool {
    &&& p.copies@.len() == st.0.len()
    &&& forall|k: int| 0 <= k < st.0.len() ==> {
        &&& (#[trigger] p.copies@[k]).0@ == st.0[k]
        &&& p.copies@[k].1@ == font_file_name(k as nat)
    }
    &&& p.entries@.len() == st.1.len()
    &&& forall|i: int| 0 <= i < st.1.len() ==> {
        &&& (#[trigger] p.entries@[i]).0@ == st.1[i].0
        &&& p.entries@[i].1 == st.1[i].1
    }
}

/// Whether a planning state is well formed: no source is copied twice and each
/// entry names an existing copy.
pub open spec fn plan_state_ok(st: FontPlanState) -> bool {
    &&& st.0.no_duplicates()
    &&& forall|i: int| 0 <= i < st.1.len() ==> 0 <= (#[trigger] st.1[i]).1 < st.0.len()
}

proof fn lemma_plan_step_ok(st: FontPlanState, rm: FontRemap, ex: bool, fb: Option<Seq<char>>)
    requires
        plan_state_ok(st),
    ensures
        plan_state_ok(plan_step(st, rm, ex, fb)),
        plan_step(st, rm, ex, fb).0.len() >= st.0.len(),
        forall|k: int| 0 <= k < st.0.len() ==> #[trigger] plan_step(st, rm, ex, fb).0[k] == st.0[k],
        forall|i: int| 0 <= i < st.1.len() ==> #[trigger] plan_step(st, rm, ex, fb).1[i] == st.1[i],
        match remap_src(rm, ex, fb) {
            None => plan_step(st, rm, ex, fb) == st,
            Some(s) => {
                let nx = plan_step(st, rm, ex, fb);
                &&& nx.1.len() == st.1.len() + 1
                &&& nx.1.last().0 == rm.source@
                &&& nx.0[nx.1.last().1] == s
            },
        },
{
    match remap_src(rm, ex, fb) {
        None => {},
        Some(s) => {
            if st.0.contains(s) {
                let j = st.0.index_of(s);
                assert(0 <= j < st.0.len() && st.0[j] == s);
            } else {
                let nx = plan_step(st, rm, ex, fb);
                assert forall|a: int, b: int| 0 <= a < nx.0.len() && 0 <= b < nx.0.len() && a != b implies nx.0[a] != nx.0[b] by {
                    if a == st.0.len() as int {
                        assert(st.0[b] == nx.0[b]);
                    } else if b == st.0.len() as int {
                        assert(st.0[a] == nx.0[a]);
                    }
                }
            }
        },
    }
}

proof fn lemma_plan_fonts_ok(remaps: Seq<FontRemap>, exists: Seq<bool>, fb: Option<Seq<char>>)
    requires
        remaps.len() == exists.len(),
    ensures
        plan_state_ok(plan_fonts(remaps, exists, fb)),
    decreases remaps.len(),
{
    if remaps.len() > 0 {
        let n = remaps.len() - 1;
        lemma_plan_fonts_ok(remaps.drop_last(), exists.take(n), fb);
        lemma_plan_step_ok(plan_fonts(remaps.drop_last(), exists.take(n), fb), remaps.last(), exists[n], fb);
    }
}

/// The remaps that have a font file, in order: (game font, file to draw it with).
pub open spec fn with_font(remaps: Seq<FontRemap>, exists: Seq<bool>, fallback: Option<Seq<char>>) -> Seq<(Seq<char>, Seq<char>)>
    decreases remaps.len(),
{
    if remaps.len() == 0 {
        seq![]
    } else {
        let prev = with_font(remaps.drop_last(), exists.take(remaps.len() - 1), fallback);
        match remap_src(remaps.last(), exists[remaps.len() - 1], fallback) {
            Some(s) => prev.push((remaps.last().source@, s)),
            None => prev,
        }
    }
}

/// The `k`-th entry of a plan is the game font `e.0`, drawn with the copy of
/// file `e.1`.
pub open spec fn entry_draws(st: FontPlanState, e: (Seq<char>, Seq<char>), k: int) -> bool {
    st.1[k].0 == e.0 && st.0[st.1[k].1] == e.1
}

/// Each source file is copied once, every copied file is one some remap asks
/// for, and the entries are, in order, the remaps that have a font file, each
/// drawn with the copy of exactly that file.
pub proof fn law_font_copies_deduplicated(remaps: Seq<FontRemap>, exists: Seq<bool>, fallback: Option<Seq<char>>)
    requires
        remaps.len() == exists.len(),
    ensures
        plan_state_ok(plan_fonts(remaps, exists, fallback)),
        forall|s: Seq<char>| plan_fonts(remaps, exists, fallback).0.contains(s) ==>
            exists|i: int| 0 <= i < remaps.len() && remap_src(#[trigger] remaps[i], exists[i], fallback) == Some(s),
        plan_fonts(remaps, exists, fallback).1.len() == with_font(remaps, exists, fallback).len(),
        forall|k: int| 0 <= k < with_font(remaps, exists, fallback).len() ==>
            entry_draws(plan_fonts(remaps, exists, fallback), #[trigger] with_font(remaps, exists, fallback)[k], k),
    decreases remaps.len(),
{
    lemma_plan_fonts_ok(remaps, exists, fallback);
    if remaps.len() > 0 {
        let n = remaps.len() - 1;
        let prev = plan_fonts(remaps.drop_last(), exists.take(n), fallback);
        law_font_copies_deduplicated(remaps.drop_last(), exists.take(n), fallback);
        lemma_plan_step_ok(prev, remaps.last(), exists[n], fallback);
        let st = plan_fonts(remaps, exists, fallback);
        assert forall|s: Seq<char>| st.0.contains(s) implies
            exists|i: int| 0 <= i < remaps.len() && remap_src(#[trigger] remaps[i], exists[i], fallback) == Some(s) by {
            let k = choose|k: int| 0 <= k < st.0.len() && st.0[k] == s;
            if k < prev.0.len() {
                assert(prev.0[k] == s);
                assert(prev.0.contains(s));
                let i = choose|i: int| 0 <= i < remaps.drop_last().len()
                    && remap_src(#[trigger] remaps.drop_last()[i], exists.take(n)[i], fallback) == Some(s);
                assert(remaps.drop_last()[i] == remaps[i]);
                assert(exists.take(n)[i] == exists[i]);
            } else {
                assert(remap_src(remaps[n], exists[n], fallback) == Some(s));
            }
        }
        let wp = with_font(remaps.drop_last(), exists.take(n), fallback);
        let w = with_font(remaps, exists, fallback);
        assert forall|k: int| 0 <= k < w.len() implies entry_draws(st, #[trigger] w[k], k) by {
            if k < wp.len() {
                assert(w[k] == wp[k]);
                assert(st.1[k] == prev.1[k]);
                assert(0 <= prev.1[k].1 < prev.0.len());
                assert(st.0[prev.1[k].1] == prev.0[prev.1[k].1]);
            }
        }
    }
}

/// The name of the `k`-th copied font.
fn font_file_name_exec(k: usize) -> (r: String)
    ensures
        r@ == font_file_name(k as nat),
{
    let mut v: Vec<char> = chars_of("renforge_font_");
    extend_chars(&mut v, &decimal_exec(k as u64));
    extend_str(&mut v, ".ttf");
    string_of(&v)
}

/// Index of the copy of `s` among the planned copies, if it is planned.
fn find_copy(copies: &Vec<(String, String)>, s: &Vec<char>) -> (r: Option<usize>)
    ensures
        match r {
            Some(j) => j < copies.len() && copies@[j as int].0@ == s@,
            None => forall|k: int| 0 <= k < copies.len() ==> (#[trigger] copies@[k]).0@ != s@,
        },
{
    let mut j: usize = 0;
    while j < copies.len()
        invariant
            j <= copies.len(),
            forall|k: int| 0 <= k < j ==> (#[trigger] copies@[k]).0@ != s@,
        decreases copies.len() - j,
    {
        if chars_eq(&chars_of(copies[j].0.as_str()), s) {
            return Some(j);
        }
        j = j + 1;
    }
    None
}

/// Plans the font copies of a patch: for each remap (`target_exists[i]` tells
/// whether its target file exists) the font file to draw with, falling back to
/// `fallback`; each distinct file is copied once, as `renforge_font_{k}.ttf`
/// for its rank `k` among the distinct files.
pub fn plan_font_copies(remaps: &Vec<FontRemap>, target_exists: &Vec<bool>, fallback: &Option<String>) -> (p: FontPlan)
    requires
        remaps.len() == target_exists.len(),
    ensures
        plan_matches(p, plan_fonts(remaps@, target_exists@, opt_view(*fallback))),
{
    let ghost fb = opt_view(*fallback);
    let mut copies: Vec<(String, String)> = Vec::new();
    let mut entries: Vec<(String, usize)> = Vec::new();
    let mut i: usize = 0;
    assert(remaps@.take(0) =~= Seq::<FontRemap>::empty());
    while i < remaps.len()
        invariant
            i <= remaps.len(),
            remaps.len() == target_exists.len(),
            fb == opt_view(*fallback),
            plan_matches(FontPlan { copies, entries }, plan_fonts(remaps@.take(i as int), target_exists@.take(i as int), fb)),
            plan_state_ok(plan_fonts(remaps@.take(i as int), target_exists@.take(i as int), fb)),
        decreases remaps.len() - i,
    {
        let ghost pre = remaps@.take(i as int);
        let ghost ex = target_exists@.take(i as int);
        let ghost st = plan_fonts(pre, ex, fb);
        assert(remaps@.take(i + 1).drop_last() =~= pre);
        assert(target_exists@.take(i + 1).take(i as int) =~= ex);
        assert(remaps@.take(i + 1).last() == remaps@[i as int]);
        proof {
            lemma_plan_step_ok(st, remaps@[i as int], target_exists@[i as int], fb);
        }
        let rm = &remaps[i];
        let src: Option<String> = match &rm.target {
            Some(p) => if target_exists[i] { Some(p.clone()) } else { fallback.clone() },
            None => fallback.clone(),
        };
        match src {
            None => {},
            Some(s) => {
                assert(remap_src(remaps@[i as int], target_exists@[i as int], fb) == Some(s@));
                let sv = chars_of(s.as_str());
                match find_copy(&copies, &sv) {
                    Some(j) => {
                        assert(st.0[j as int] == s@);
                        assert(st.0.contains(s@));
                        let ghost jj = st.0.index_of(s@);
                        assert(0 <= jj < st.0.len() && st.0[jj] == s@);
                        assert(jj == j as int);
                        entries.push((rm.source.clone(), j));
                    },
                    None => {
                        assert(!st.0.contains(s@)) by {
                            if st.0.contains(s@) {
                                let k = choose|k: int| 0 <= k < st.0.len() && st.0[k] == s@;
                                assert(copies@[k].0@ == s@);
                            }
                        }
                        let k = copies.len();
                        let name = font_file_name_exec(k);
                        copies.push((s, name));
                        entries.push((rm.source.clone(), k));
                    },
                }
            },
        }
        let ghost nx = plan_fonts(remaps@.take(i + 1), target_exists@.take(i + 1), fb);
        assert(nx == plan_step(st, remaps@[i as int], target_exists@[i as int], fb));
        assert(plan_matches(FontPlan { copies, entries }, nx));
        i = i + 1;
    }
    assert(remaps@.take(i as int) =~= remaps@);
    assert(target_exists@.take(i as int) =~= target_exists@);
    FontPlan { copies, entries }
}

/// The placed remaps: for each planned entry whose copy is present in `game/`
/// (`present[k]` for the `k`-th copy), its game font and the copy's name.
pub open spec fn placed(entries: Seq<(Seq<char>, int)>, names: Seq<Seq<char>>, present: Seq<bool>) -> Seq<(Seq<char>, Seq<char>)>
    decreases entries.len(),
{
    if entries.len() == 0 {
        seq![]
    } else {
        let prev = placed(entries.drop_last(), names, present);
        let e = entries.last();
        if 0 <= e.1 < names.len() && e.1 < present.len() && present[e.1] {
            prev.push((e.0, names[e.1]))
        } else {
            prev
        }
    }
}

pub open spec fn entry_views(p: FontPlan) -> Seq<(Seq<char>, int)> {
    p.entries@.map_values(|e: (String, usize)| (e.0@, e.1 as int))
}

pub open spec fn copy_names(p: FontPlan) -> Seq<Seq<char>> {
    p.copies@.map_values(|c: (String, String)| c.1@)
}

/// The remaps whose copy made it into `game/` (`present[k]`: whether the
/// `k`-th copy exists there), as (game font, copied file name), in plan order.
pub fn placed_fonts(plan: &FontPlan, present: &Vec<bool>) -> (r: Vec<(String, String)>)
    ensures
        crate::text::pair_views(r@) == placed(entry_views(*plan), copy_names(*plan), present@),
{
    let mut out: Vec<(String, String)> = Vec::new();
    let mut i: usize = 0;
    let ghost ev = entry_views(*plan);
    let ghost nm = copy_names(*plan);
    assert(ev.take(0) =~= Seq::<(Seq<char>, int)>::empty());
    while i < plan.entries.len()
        invariant
            i <= plan.entries.len(),
            ev == entry_views(*plan),
            nm == copy_names(*plan),
            crate::text::pair_views(out@) == placed(ev.take(i as int), nm, present@),
        decreases plan.entries.len() - i,
    {
        assert(ev.take(i + 1).drop_last() =~= ev.take(i as int));
        assert(ev.take(i + 1).last() == (plan.entries@[i as int].0@, plan.entries@[i as int].1 as int));
        let k = plan.entries[i].1;
        if k < plan.copies.len() && k < present.len() && present[k] {
            out.push((plan.entries[i].0.clone(), plan.copies[k].1.clone()));
            assert(crate::text::pair_views(out@) =~= placed(ev.take(i + 1), nm, present@));
        }
        i = i + 1;
    }
    assert(ev.take(i as int) =~= ev);
    out
}

// ---------------------------------------------------------------------------
// The patch script
// ---------------------------------------------------------------------------

/// A character inside a `u"..."` literal of the font map: `\` and `"` escaped.
pub open spec fn font_quote_char(c: char) -> Seq<char> {
    if c == '\\' {
        seq!['\\', '\\']
    } else if c == '"' {
        seq!['\\', '"']
    } else {
        seq![c]
    }
}

pub open spec fn font_quote(s: Seq<char>) -> Seq<char>
    decreases s.len(),
{
    if s.len() == 0 {
        seq![]
    } else {
        font_quote(s.drop_last()) + font_quote_char(s.last())
    }
}

/// One line of the font map: `u"game font": u"copy",`.
pub open spec fn font_map_line(e: (Seq<char>, Seq<char>)) -> Seq<char> {
    "        u\""@ + font_quote(e.0) + "\": u\""@ + font_quote(e.1) + "\",\n"@
}

pub open spec fn font_map_lines(es: Seq<(Seq<char>, Seq<char>)>) -> Seq<char>
    decreases es.len(),
{
    if es.len() == 0 {
        seq![]
    } else {
        font_map_lines(es.drop_last()) + font_map_line(es.last())
    }
}

/// The patch script for a target language and the placed font remaps: the
/// language guard, then (when any font is placed) the render remap block.
pub open spec fn patch_text(target_lang: Seq<char>, placed: Seq<(Seq<char>, Seq<char>)>) -> Seq<char> {
    PATCH_HEAD_OPEN@ + target_lang + PATCH_HEAD_CLOSE@ + if placed.len() == 0 {
        seq![]
    } else {
        FONT_MAP_OPEN@ + font_map_lines(placed) + FONT_MAP_CLOSE@
    }
}

fn font_quote_exec(s: &str) -> (r: Vec<char>)
    ensures
        r@ == font_quote(s@),
{
    let v = chars_of(s);
    let mut out: Vec<char> = Vec::new();
    let mut i: usize = 0;
    assert(v@.take(0) =~= Seq::<char>::empty());
    while i < v.len()
        invariant
            i <= v.len(),
            v@ == s@,
            out@ == font_quote(v@.take(i as int)),
        decreases v.len() - i,
    {
        assert(v@.take(i + 1).drop_last() =~= v@.take(i as int));
        let c = v[i];
        if c == '\\' {
            out.push('\\');
            out.push('\\');
        } else if c == '"' {
            out.push('\\');
            out.push('"');
        } else {
            out.push(c);
        }
        assert(out@ =~= font_quote(v@.take(i + 1)));
        i = i + 1;
    }
    assert(v@.take(i as int) =~= v@);
    out
}

/// Writes the patch script `00_renforge_patch.rpy` for a target language and
/// the placed font remaps (game font, copied file name).
pub fn renforge_patch_text(target_lang: &str, placed: &Vec<(String, String)>) -> (r: String)
    ensures
        r@ == patch_text(target_lang@, crate::text::pair_views(placed@)),
{
    let mut out = String::new();
    push_text(&mut out, PATCH_HEAD_OPEN);
    push_text(&mut out, target_lang);
    push_text(&mut out, PATCH_HEAD_CLOSE);
    if placed.len() > 0 {
        let ghost before = out@;
        push_text(&mut out, FONT_MAP_OPEN);
        let ghost pv = crate::text::pair_views(placed@);
        let ghost mid = out@;
        let mut i: usize = 0;
        assert(pv.take(0) =~= Seq::<(Seq<char>, Seq<char>)>::empty());
        while i < placed.len()
            invariant
                i <= placed.len(),
                pv == crate::text::pair_views(placed@),
                out@ == mid + font_map_lines(pv.take(i as int)),
            decreases placed.len() - i,
        {
            assert(pv.take(i + 1).drop_last() =~= pv.take(i as int));
            assert(pv.take(i + 1).last() == (placed@[i as int].0@, placed@[i as int].1@));
            let mut line: Vec<char> = chars_of("        u\"");
            extend_chars(&mut line, &font_quote_exec(placed[i].0.as_str()));
            extend_str(&mut line, "\": u\"");
            extend_chars(&mut line, &font_quote_exec(placed[i].1.as_str()));
            extend_str(&mut line, "\",\n");
            push_chars(&mut out, &line);
            assert(out@ =~= mid + font_map_lines(pv.take(i + 1)));
            i = i + 1;
        }
        assert(pv.take(i as int) =~= pv);
        push_text(&mut out, FONT_MAP_CLOSE);
    }
    assert(out@ =~= patch_text(target_lang@, crate::text::pair_views(placed@)));
    out
}

} // verus!
