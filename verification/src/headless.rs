//! The decisions of the headless command line: which fonts it remaps by
//! default and the summary it prints of a workspace.
use vstd::prelude::*;
use crate::models::{FileStats, FontInfo, FontRemap};
use crate::text::{decimal, decimal_exec, decimal_i64, decimal_int, push_chars, push_text, string_views};

verus! {

// ---------------------------------------------------------------------------
// Default font remaps
// ---------------------------------------------------------------------------

/// Whether a font covers Cyrillic.
pub open spec fn covers_cyrillic(f: FontInfo) -> bool {
    string_views(f.scripts@).contains("cyrillic"@)
}

/// The game fonts without Cyrillic, in order: each is remapped to the
/// engine's own font.
pub open spec fn fonts_to_remap(fonts: Seq<FontInfo>) -> Seq<Seq<char>>
    decreases fonts.len(),
{
    if fonts.len() == 0 {
        seq![]
    } else if covers_cyrillic(fonts.last()) {
        fonts_to_remap(fonts.drop_last())
    } else {
        fonts_to_remap(fonts.drop_last()).push(fonts.last().rel_path@)
    }
}

fn has_cyrillic(f: &FontInfo) -> (r: bool)
    ensures
        r == covers_cyrillic(*f),
{
    let mut i: usize = 0;
    while i < f.scripts.len()
        invariant
            i <= f.scripts.len(),
            forall|j: int| 0 <= j < i ==> (#[trigger] f.scripts@[j])@ != "cyrillic"@,
        decreases f.scripts.len() - i,
    {
        if crate::text::str_eq(f.scripts[i].as_str(), "cyrillic") {
            assert(string_views(f.scripts@)[i as int] == "cyrillic"@);
            return true;
        }
        i = i + 1;
    }
    proof {
        if string_views(f.scripts@).contains("cyrillic"@) {
            let j = choose|j: int| 0 <= j < string_views(f.scripts@).len() && string_views(f.scripts@)[j] == "cyrillic"@;
            assert(f.scripts@[j]@ == "cyrillic"@);
        }
    }
    false
}

/// The remaps the command line applies on its own: every game font without
/// Cyrillic, drawn with the engine's font (no target of its own).
pub fn default_font_remaps(fonts: &Vec<FontInfo>) -> (r: Vec<FontRemap>)
    ensures
        r@.len() == fonts_to_remap(fonts@).len(),
        forall|k: int| 0 <= k < r@.len() ==> {
            &&& (#[trigger] r@[k]).source@ == fonts_to_remap(fonts@)[k]
            &&& r@[k].target is None
        },
{
    let mut out: Vec<FontRemap> = Vec::new();
    let mut i: usize = 0;
    assert(fonts@.take(0) =~= Seq::<FontInfo>::empty());
    while i < fonts.len()
        invariant
            i <= fonts.len(),
            out@.len() == fonts_to_remap(fonts@.take(i as int)).len(),
            forall|k: int| 0 <= k < out@.len() ==> {
                &&& (#[trigger] out@[k]).source@ == fonts_to_remap(fonts@.take(i as int))[k]
                &&& out@[k].target is None
            },
        decreases fonts.len() - i,
    {
        assert(fonts@.take(i + 1).drop_last() =~= fonts@.take(i as int));
        assert(fonts@.take(i + 1).last() == fonts@[i as int]);
        if !has_cyrillic(&fonts[i]) {
            out.push(FontRemap { source: fonts[i].rel_path.clone(), target: None });
        }
        i = i + 1;
    }
    assert(fonts@.take(i as int) =~= fonts@);
    out
}

// ---------------------------------------------------------------------------
// Workspace summary
// ---------------------------------------------------------------------------

pub open spec fn sum_total(s: Seq<FileStats>) -> int
    decreases s.len(),
{
    if s.len() == 0 {
        0
    } else {
        sum_total(s.drop_last()) + s.last().total
    }
}

pub open spec fn sum_translated(s: Seq<FileStats>) -> int
    decreases s.len(),
{
    if s.len() == 0 {
        0
    } else {
        sum_translated(s.drop_last()) + s.last().translated
    }
}

/// Whether every running sum of the files' counts fits an `i32`.
pub open spec fn sums_fit(s: Seq<FileStats>) -> bool {
    forall|k: int| 0 <= k <= s.len() ==> {
        &&& i32::MIN <= #[trigger] sum_total(s.take(k)) <= i32::MAX
        &&& i32::MIN <= sum_translated(s.take(k)) <= i32::MAX
    }
}

/// The summary line of a workspace's statistics (one entry per file).
pub open spec fn stats_line(s: Seq<FileStats>) -> Seq<char> {
    "файлов: "@ + decimal(s.len()) + ", строк всего: "@ + decimal_int(sum_total(s)) + ", переведено: "@
        + decimal_int(sum_translated(s))
}

/// Sums the per-file statistics: number of files, strings and translated
/// strings.
pub fn stats_summary(stats: &Vec<FileStats>) -> (r: String)
    requires
        sums_fit(stats@),
    ensures
        r@ == stats_line(stats@),
{
    let mut total: i32 = 0;
    let mut translated: i32 = 0;
    let mut i: usize = 0;
    assert(stats@.take(0) =~= Seq::<FileStats>::empty());
    while i < stats.len()
        invariant
            i <= stats.len(),
            sums_fit(stats@),
            total == sum_total(stats@.take(i as int)),
            translated == sum_translated(stats@.take(i as int)),
        decreases stats.len() - i,
    {
        assert(stats@.take(i + 1).drop_last() =~= stats@.take(i as int));
        assert(stats@.take(i + 1).last() == stats@[i as int]);
        assert(i32::MIN <= sum_total(stats@.take(i + 1)) <= i32::MAX);
        total = total + stats[i].total;
        translated = translated + stats[i].translated;
        i = i + 1;
    }
    assert(stats@.take(i as int) =~= stats@);
    let mut out = String::new();
    push_text(&mut out, "файлов: ");
    push_chars(&mut out, &decimal_exec(stats.len() as u64));
    push_text(&mut out, ", строк всего: ");
    push_chars(&mut out, &decimal_i64(total as i64));
    push_text(&mut out, ", переведено: ");
    push_chars(&mut out, &decimal_i64(translated as i64));
    out
}

} // verus!
