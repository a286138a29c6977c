//! Which writing systems a font covers, and the font list of a game.
use vstd::prelude::*;
use crate::models::FontInfo;
use crate::order::{lemma_lex_asym, lemma_lex_irreflexive, lemma_lex_total, lemma_lex_trans, lex_less, lex_lt};
use crate::text::string_views;

verus! {

// ---------------------------------------------------------------------------
// Script coverage
// ---------------------------------------------------------------------------

/// The writing systems a font is probed for, each with two typical letters: a
/// script counts as covered when the font has a glyph for both.
pub open spec fn script_probe_table() -> Seq<(Seq<char>, char, char)> {
    seq![
        ("latin"@, 'A', 'z'),
        ("vietnamese"@, '\u{01A1}', '\u{1EA7}'),
        ("cyrillic"@, '\u{0410}', '\u{044F}'),
        ("greek"@, '\u{0391}', '\u{03C9}'),
        ("armenian"@, '\u{0531}', '\u{0561}'),
        ("georgian"@, '\u{10D0}', '\u{10D1}'),
        ("hebrew"@, '\u{05D0}', '\u{05EA}'),
        ("arabic"@, '\u{0627}', '\u{0628}'),
        ("devanagari"@, '\u{0905}', '\u{0915}'),
        ("bengali"@, '\u{0985}', '\u{0995}'),
        ("gurmukhi"@, '\u{0A05}', '\u{0A15}'),
        ("gujarati"@, '\u{0A85}', '\u{0A95}'),
        ("tamil"@, '\u{0B85}', '\u{0B95}'),
        ("telugu"@, '\u{0C05}', '\u{0C15}'),
        ("kannada"@, '\u{0C85}', '\u{0C95}'),
        ("malayalam"@, '\u{0D05}', '\u{0D15}'),
        ("sinhala"@, '\u{0D85}', '\u{0D9A}'),
        ("thai"@, '\u{0E01}', '\u{0E17}'),
        ("lao"@, '\u{0E81}', '\u{0E82}'),
        ("tibetan"@, '\u{0F40}', '\u{0F41}'),
        ("myanmar"@, '\u{1000}', '\u{1001}'),
        ("khmer"@, '\u{1780}', '\u{1781}'),
        ("ethiopic"@, '\u{1200}', '\u{1208}'),
        ("japanese"@, '\u{3042}', '\u{30AB}'),
        ("chinese"@, '\u{4E2D}', '\u{6587}'),
        ("korean"@, '\u{AC00}', '\u{D55C}')
    ]
}

/// The probe table, in the order the scripts are reported.
pub fn script_probes() -> (r: Vec<(&'static str, char, char)>)
    ensures
        r@.len() == script_probe_table().len(),
        forall|k: int| 0 <= k < r@.len() ==> ((#[trigger] r@[k]).0@, r@[k].1, r@[k].2) == script_probe_table()[k],
{
    let mut v: Vec<(&'static str, char, char)> = Vec::new();
    v.push(("latin", 'A', 'z'));
    v.push(("vietnamese", '\u{01A1}', '\u{1EA7}'));
    v.push(("cyrillic", '\u{0410}', '\u{044F}'));
    v.push(("greek", '\u{0391}', '\u{03C9}'));
    v.push(("armenian", '\u{0531}', '\u{0561}'));
    v.push(("georgian", '\u{10D0}', '\u{10D1}'));
    v.push(("hebrew", '\u{05D0}', '\u{05EA}'));
    v.push(("arabic", '\u{0627}', '\u{0628}'));
    v.push(("devanagari", '\u{0905}', '\u{0915}'));
    v.push(("bengali", '\u{0985}', '\u{0995}'));
    v.push(("gurmukhi", '\u{0A05}', '\u{0A15}'));
    v.push(("gujarati", '\u{0A85}', '\u{0A95}'));
    v.push(("tamil", '\u{0B85}', '\u{0B95}'));
    v.push(("telugu", '\u{0C05}', '\u{0C15}'));
    v.push(("kannada", '\u{0C85}', '\u{0C95}'));
    v.push(("malayalam", '\u{0D05}', '\u{0D15}'));
    v.push(("sinhala", '\u{0D85}', '\u{0D9A}'));
    v.push(("thai", '\u{0E01}', '\u{0E17}'));
    v.push(("lao", '\u{0E81}', '\u{0E82}'));
    v.push(("tibetan", '\u{0F40}', '\u{0F41}'));
    v.push(("myanmar", '\u{1000}', '\u{1001}'));
    v.push(("khmer", '\u{1780}', '\u{1781}'));
    v.push(("ethiopic", '\u{1200}', '\u{1208}'));
    v.push(("japanese", '\u{3042}', '\u{30AB}'));
    v.push(("chinese", '\u{4E2D}', '\u{6587}'));
    v.push(("korean", '\u{AC00}', '\u{D55C}'));
    assert(v@.len() == script_probe_table().len());
    v
}

/// Whether the font data parses as a font (its first face) that maps `c` to a glyph.
pub uninterp spec fn font_maps_char(data: Seq<u8>, c: char) -> bool;

/// `ttf_parser::Face::parse` on the data (face 0), then `Face::glyph_index`
/// on `c`: true when the data parses and the face's Unicode character maps
/// give `c` a glyph, false when it does not parse or has no such glyph. The
/// outcome depends on the bytes and the character alone; what ttf-parser makes
/// of particular bytes is left to it and not stated here.
#[verifier::external_body]
fn font_has_glyph(data: &[u8], c: char) -> (r: bool)
    ensures
        r == font_maps_char(data@, c),
{
    match ttf_parser::Face::parse(data, 0) {
        Ok(face) => face.glyph_index(c).is_some(),
        Err(_) => false,
    }
}

/// The codes of the scripts whose two probe letters are both present
/// (`glyphs[k]` for the `k`-th script of the table), in table order.
pub open spec fn scripts_with(table: Seq<(Seq<char>, char, char)>, glyphs: Seq<(bool, bool)>) -> Seq<Seq<char>>
    decreases table.len(),
{
    if table.len() == 0 {
        seq![]
    } else {
        let prev = scripts_with(table.drop_last(), glyphs);
        let k = table.len() - 1;
        if k < glyphs.len() && glyphs[k].0 && glyphs[k].1 {
            prev.push(table.last().0)
        } else {
            prev
        }
    }
}

/// The glyph presence of the probe letters in a font.
pub open spec fn probe_glyphs(data: Seq<u8>) -> Seq<(bool, bool)> {
    Seq::new(
        script_probe_table().len(),
        |k: int| (font_maps_char(data, script_probe_table()[k].1), font_maps_char(data, script_probe_table()[k].2)),
    )
}

/// The scripts covered, given for each script of the probe table whether its
/// two letters have glyphs.
pub fn covered_scripts(glyphs: &Vec<(bool, bool)>) -> (r: Vec<String>)
    ensures
        string_views(r@) == scripts_with(script_probe_table(), glyphs@),
{
    let probes = script_probes();
    let ghost table = script_probe_table();
    let mut out: Vec<String> = Vec::new();
    let mut k: usize = 0;
    assert(table.take(0) =~= Seq::<(Seq<char>, char, char)>::empty());
    while k < probes.len()
        invariant
            k <= probes.len(),
            table == script_probe_table(),
            probes@.len() == table.len(),
            forall|j: int| 0 <= j < probes@.len() ==> ((#[trigger] probes@[j]).0@, probes@[j].1, probes@[j].2) == table[j],
            string_views(out@) == scripts_with(table.take(k as int), glyphs@),
        decreases probes.len() - k,
    {
        assert(table.take(k + 1).drop_last() =~= table.take(k as int));
        assert(table.take(k + 1).last() == table[k as int]);
        if k < glyphs.len() && glyphs[k].0 && glyphs[k].1 {
            let code: String = probes[k].0.to_string();
            out.push(code);
            assert(string_views(out@) =~= scripts_with(table.take(k + 1), glyphs@));
        }
        k = k + 1;
    }
    assert(table.take(k as int) =~= table);
    out
}

/// The scripts a font covers (data: the font file's bytes): those of the probe
/// table whose two letters both have glyphs; none when the data is no font.
pub fn font_scripts(data: &[u8]) -> (r: Vec<String>)
    ensures
        string_views(r@) == scripts_with(script_probe_table(), probe_glyphs(data@)),
{
    let probes = script_probes();
    let mut glyphs: Vec<(bool, bool)> = Vec::new();
    let mut k: usize = 0;
    while k < probes.len()
        invariant
            k <= probes.len(),
            probes@.len() == script_probe_table().len(),
            forall|j: int| 0 <= j < probes@.len() ==> ((#[trigger] probes@[j]).0@, probes@[j].1, probes@[j].2) == script_probe_table()[j],
            glyphs@.len() == k,
            forall|j: int| 0 <= j < k ==> #[trigger] glyphs@[j] == probe_glyphs(data@)[j],
        decreases probes.len() - k,
    {
        let a = font_has_glyph(data, probes[k].1);
        let b = font_has_glyph(data, probes[k].2);
        glyphs.push((a, b));
        k = k + 1;
    }
    assert(glyphs@ =~= probe_glyphs(data@));
    covered_scripts(&glyphs)
}

// ---------------------------------------------------------------------------
// The font list
// ---------------------------------------------------------------------------

/// The fonts of `s` at path `k`, in order.
pub open spec fn of_path(s: Seq<FontInfo>, k: Seq<char>) -> Seq<FontInfo>
    decreases s.len(),
{
    if s.len() == 0 {
        seq![]
    } else if s.last().rel_path@ == k {
        of_path(s.drop_last(), k).push(s.last())
    } else {
        of_path(s.drop_last(), k)
    }
}

/// `out` is `input` stably sorted by path: paths never decrease, and the fonts
/// at each path keep their order.
pub open spec fn sorted_by_path(input: Seq<FontInfo>, out: Seq<FontInfo>) -> bool {
    &&& forall|i: int, j: int| 0 <= i < j < out.len() ==> !lex_lt(#[trigger] out[j].rel_path@, #[trigger] out[i].rel_path@)
    &&& forall|k: Seq<char>| #[trigger] of_path(out, k) == of_path(input, k)
}

proof fn lemma_of_path_concat(a: Seq<FontInfo>, b: Seq<FontInfo>, k: Seq<char>)
    ensures
        of_path(a + b, k) == of_path(a, k) + of_path(b, k),
    decreases b.len(),
{
    if b.len() == 0 {
        assert(a + b =~= a);
        assert(of_path(a, k) + of_path(b, k) =~= of_path(a, k));
    } else {
        assert((a + b).drop_last() =~= a + b.drop_last());
        assert((a + b).last() == b.last());
        lemma_of_path_concat(a, b.drop_last(), k);
        if b.last().rel_path@ == k {
            assert(of_path(a, k) + of_path(b.drop_last(), k).push(b.last()) =~= (of_path(a, k) + of_path(
                b.drop_last(),
                k,
            )).push(b.last()));
        }
    }
}

proof fn lemma_of_path_none(b: Seq<FontInfo>, k: Seq<char>)
    requires
        forall|j: int| 0 <= j < b.len() ==> (#[trigger] b[j]).rel_path@ != k,
    ensures
        of_path(b, k) == Seq::<FontInfo>::empty(),
    decreases b.len(),
{
    if b.len() > 0 {
        lemma_of_path_none(b.drop_last(), k);
    }
}

proof fn lemma_of_path_single(y: FontInfo, k: Seq<char>)
    ensures
        of_path(seq![y], k) == if y.rel_path@ == k { seq![y] } else { Seq::<FontInfo>::empty() },
{
    assert(seq![y].drop_last() =~= Seq::<FontInfo>::empty());
    assert(seq![y].last() == y);
    assert(of_path(Seq::<FontInfo>::empty(), k) == Seq::<FontInfo>::empty());
    assert(Seq::<FontInfo>::empty().push(y) =~= seq![y]);
}

/// Orders the fonts of a game by their path inside `game/`, keeping the order
/// of fonts at the same path.
pub fn sort_fonts(fonts: Vec<FontInfo>) -> (out: Vec<FontInfo>)
    ensures
        out@.len() == fonts@.len(),
        sorted_by_path(fonts@, out@),
{
    let ghost input = fonts@;
    let n: usize = fonts.len();
    let mut rest = fonts;
    let mut out: Vec<FontInfo> = Vec::new();
    let mut i: usize = 0;
    while rest.len() > 0
        invariant
            i <= input.len(),
            input.len() == n,
            rest@ == input.skip(i as int),
            out@.len() == i,
            sorted_by_path(input.take(i as int), out@),
        decreases rest.len(),
    {
        let x = rest.remove(0);
        assert(x == input[i as int]);
        let mut p: usize = 0;
        while p < out.len() && !lex_less(&x.rel_path, &out[p].rel_path)
            invariant
                p <= out.len(),
                forall|k: int| 0 <= k < p ==> !lex_lt(x.rel_path@, (#[trigger] out@[k]).rel_path@),
            decreases out.len() - p,
        {
            p = p + 1;
        }
        let ghost old_out = out@;
        let ghost a = old_out.subrange(0, p as int);
        let ghost b = old_out.subrange(p as int, old_out.len() as int);
        let ghost xk = x.rel_path@;
        proof {
            assert(old_out =~= a + b);
            // nothing after the insertion point is at x's path or before it
            assert forall|j: int| 0 <= j < b.len() implies lex_lt(xk, (#[trigger] b[j]).rel_path@) by {
                assert(b[j] == old_out[p + j]);
                assert(lex_lt(xk, old_out[p as int].rel_path@));
                if j > 0 {
                    assert(!lex_lt(old_out[p + j].rel_path@, old_out[p as int].rel_path@));
                    if old_out[p + j].rel_path@ != old_out[p as int].rel_path@ {
                        lemma_lex_total(old_out[p + j].rel_path@, old_out[p as int].rel_path@);
                        lemma_lex_trans(xk, old_out[p as int].rel_path@, old_out[p + j].rel_path@);
                    }
                }
            }
        }
        out.insert(p, x);
        proof {
            assert(out@ =~= a + seq![x] + b);
            assert(input.take(i + 1) =~= input.take(i as int).push(x));
            assert(input.take(i as int).push(x).drop_last() =~= input.take(i as int));
            assert(input.skip(i as int).remove(0) =~= input.skip(i + 1));
            assert forall|ii: int, jj: int| 0 <= ii < jj < out@.len() implies !lex_lt(
                #[trigger] out@[jj].rel_path@,
                #[trigger] out@[ii].rel_path@,
            ) by {
                if ii < p && jj > p {
                    assert(out@[ii] == old_out[ii]);
                    assert(out@[jj] == b[jj - p - 1]);
                    assert(!lex_lt(xk, old_out[ii].rel_path@));
                    assert(lex_lt(xk, out@[jj].rel_path@));
                    if lex_lt(out@[jj].rel_path@, old_out[ii].rel_path@) {
                        lemma_lex_trans(xk, out@[jj].rel_path@, old_out[ii].rel_path@);
                    }
                } else if jj < p {
                    assert(out@[ii] == old_out[ii]);
                    assert(out@[jj] == old_out[jj]);
                } else if ii > p {
                    assert(out@[ii] == old_out[ii - 1]);
                    assert(out@[jj] == old_out[jj - 1]);
                } else if ii == p {
                    assert(out@[jj] == b[jj - p - 1]);
                    lemma_lex_asym(xk, out@[jj].rel_path@);
                } else {
                    assert(out@[ii] == a[ii]);
                    assert(out@[jj] == x);
                }
            }
            assert forall|k: Seq<char>| #[trigger] of_path(out@, k) == of_path(input.take(i + 1), k) by {
                lemma_of_path_concat(a + seq![x], b, k);
                lemma_of_path_concat(a, seq![x], k);
                lemma_of_path_single(x, k);
                lemma_of_path_concat(a, b, k);
                if xk == k {
                    assert forall|j: int| 0 <= j < b.len() implies (#[trigger] b[j]).rel_path@ != k by {
                        lemma_lex_irreflexive(xk);
                    }
                    lemma_of_path_none(b, k);
                    assert(of_path(a, k) + seq![x] + Seq::<FontInfo>::empty() =~= of_path(a, k).push(x));
                    assert(of_path(a, k) + Seq::<FontInfo>::empty() =~= of_path(a, k));
                } else {
                    assert(of_path(a, k) + Seq::<FontInfo>::empty() + of_path(b, k) =~= of_path(a, k) + of_path(b, k));
                }
            }
        }
        i = i + 1;
    }
    assert(input.take(i as int) =~= input);
    out
}

} // verus!
