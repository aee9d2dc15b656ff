//! The positioning pass: once line membership is fixed, resolves the final
//! inline and block coordinates of every unit — text-align and
//! justification on the inline axis, baseline-relative stacking on the
//! block axis.

use vstd::prelude::*;
use crate::fragment::{all_wf, spec_weight, Fragment, InlineFragments, SpecificInfo, TextSlice};
use crate::geometry::{au_ok, MAX_SCALAR};
use crate::line::Line;
use crate::metrics::LineMetrics;
use crate::text_run::{runs_wf, separator_count, weighted_advance, TextRun};

verus! {

/// The number of expansion opportunities (word separators) a unit offers
/// to justification: only plain text slices take part.
pub open spec fn spec_fragment_separators(f: Fragment, runs: Seq<TextRun>) -> int {
    match f.specific {
        SpecificInfo::Text(t) => separator_count(runs[t.run as int], t.vis_begin(), t.vis_end()),
        _ => 0,
    }
}

/// The total number of expansion opportunities in `[from, to)`.
pub open spec fn expansion_opportunities(fs: Seq<Fragment>, runs: Seq<TextRun>, from: int, to:
    int) -> int
    decreases to - from,
{
    if from >= to {
        0
    } else {
        spec_fragment_separators(fs[from], runs) + expansion_opportunities(fs, runs, from + 1, to)
    }
}

/// The sum of the border-box inline sizes over `[from, to)`.
pub open spec fn widths_sum(fs: Seq<Fragment>, from: int, to: int) -> int
    decreases to - from,
{
    if from >= to {
        0
    } else {
        fs[from].inline_size + widths_sum(fs, from + 1, to)
    }
}

/// Justifies the units of one line, distributing `slack_inline_size`
/// across the line's expansion opportunities: every opportunity is
/// widened by the same base amount, and the remainder is assigned one
/// app unit at a time to the earliest opportunities, so the distributed
/// increments sum to the slack exactly. A line with no opportunities or
/// no slack is left unmodified.
#[verifier::rlimit(100)]
#[verifier::spinoff_prover]
pub fn justify_inline_fragments(fragments: &mut InlineFragments, runs: &Vec<TextRun>, line: &Line,
    slack_inline_size: i64)
    requires
        runs_wf(runs@),
        all_wf(old(fragments).fragments@, runs@),
        line.range.wf(),
        line.range.spec_end() <= old(fragments).fragments@.len(),
        0 <= slack_inline_size <= MAX_SCALAR,
        forall|i: int|
            line.range.begin <= i < line.range.spec_end() ==> ((#[trigger] old(fragments).fragments@[i]).specific matches SpecificInfo::Text(t) ==> t.extra_word_spacing == 0
                && t.extra_justification == 0),
    ensures
        all_wf(final(fragments).fragments@, runs@),
        final(fragments).fragments@.len() == old(fragments).fragments@.len(),
        ({
            let fs0 = old(fragments).fragments@;
            let fs1 = final(fragments).fragments@;
            let from = line.range.begin as int;
            let to = line.range.spec_end();
            let n = expansion_opportunities(fs0, runs@, from, to);
            &&& (n == 0 || slack_inline_size == 0 || line.range.length > 0x1000_0000) ==> fs1
                == fs0
            &&& (n > 0 && slack_inline_size > 0 && line.range.length <= 0x1000_0000)
                ==> widths_sum(fs1, from, to) == widths_sum(fs0, from, to) + slack_inline_size
            &&& forall|i: int| 0 <= i < fs0.len() && !(from <= i < to) ==> fs1[i] == fs0[i]
            &&& forall|i: int|
                from <= i < to ==> (#[trigger] fs1[i]).content(runs@) == fs0[i].content(runs@)
                    && fs1[i].spec_mass() == fs0[i].spec_mass() && spec_weight(fs1[i])
                    == spec_weight(fs0[i]) && fs1[i].bidi_level == fs0[i].bidi_level && (
            fs1[i].specific is Text <==> fs0[i].specific is Text) && (fs1[i].specific is Generic
                <==> fs0[i].specific is Generic)
        }),
{
    let ghost fs0 = fragments.fragments@;
    let from: usize = line.range.begin;
    let to: usize = line.range.begin + line.range.length;
    // Fast path: no slack to distribute. A line too long for the
    // opportunity count to be accumulated is left as it is.
    if slack_inline_size == 0 || line.range.length > 0x1000_0000 {
        return ;
    }
    // First, count the expansion opportunities.
    let mut n: i64 = 0;
    let mut i: usize = from;
    while i < to
        invariant
            runs_wf(runs@),
            all_wf(fragments.fragments@, runs@),
            from <= i <= to <= fragments.fragments@.len(),
            to - from <= 0x1000_0000,
            n == expansion_opportunities(fragments.fragments@, runs@, from as int, i as int),
            0 <= n <= (i - from) * 0x10_0000,
        decreases to - i,
    {
        let sep: usize = match &fragments.fragments[i].specific {
            SpecificInfo::Text(t) => {
                runs[t.run].separators_in_range(t.begin + t.strip_front, t.end - t.strip_back)
            },
            _ => 0,
        };
        proof {
            lemma_expansion_snoc(fragments.fragments@, runs@, from as int, i as int);
            assert((i + 1 - from) * 0x10_0000 == (i - from) * 0x10_0000 + 0x10_0000)
                by (nonlinear_arith);
            assert((i + 1 - from) * 0x10_0000 <= 0x1000_0000 * 0x10_0000) by (nonlinear_arith)
                requires
                    0 <= i + 1 - from <= 0x1000_0000,
            ;
        }
        n = n + (sep as i64);
        i = i + 1;
    }
    if n == 0 {
        return ;
    }
    // Then distribute the slack across the opportunities: a base amount
    // for each, and the remainder one unit at a time from the first.
    let base: i64 = slack_inline_size / n;
    let remainder: i64 = slack_inline_size % n;
    let ghost total_n = n as int;
    proof {
        vstd::arithmetic::div_mod::lemma_fundamental_div_mod(
            slack_inline_size as int,
            n as int,
        );
        assert(total_n * (slack_inline_size as int / total_n) == (slack_inline_size as int
            / total_n) * total_n) by (nonlinear_arith);
        vstd::arithmetic::div_mod::lemma_div_is_ordered_by_denominator(
            slack_inline_size as int,
            1,
            n as int,
        );
        assert(base * total_n + remainder == slack_inline_size);
        assert(0 <= remainder < total_n) by {
            vstd::arithmetic::div_mod::lemma_mod_bound(slack_inline_size as int, n as int);
        }
        assert(0 <= base <= slack_inline_size);
    }
    proof {
        assert((to - from) * 0x10_0000 <= 0x1_0000_0000_0000) by (nonlinear_arith)
            requires
                0 <= to - from <= 0x1000_0000,
        ;
    }
    let mut c: i64 = 0;
    let mut i: usize = from;
    while i < to
        invariant
            runs_wf(runs@),
            all_wf(fragments.fragments@, runs@),
            from <= i <= to <= fragments.fragments@.len(),
            fragments.fragments@.len() == fs0.len(),
            line.range.begin == from && line.range.spec_end() == to,
            0 <= base <= slack_inline_size <= MAX_SCALAR,
            0 < total_n <= 0x1_0000_0000_0000,
            0 <= remainder < total_n,
            base * total_n + remainder == slack_inline_size,
            c == expansion_opportunities(fs0, runs@, from as int, i as int),
            0 <= c <= total_n,
            expansion_opportunities(fs0, runs@, from as int, to as int) == total_n,
            forall|j: int| 0 <= j < fs0.len() && !(from <= j < i) ==> fragments.fragments@[j]
                == fs0[j],
            forall|j: int|
                from <= j < to ==> (#[trigger] fragments.fragments@[j]).content(runs@)
                    == fs0[j].content(runs@) && fragments.fragments@[j].spec_mass()
                    == fs0[j].spec_mass() && spec_weight(fragments.fragments@[j])
                    == spec_weight(fs0[j]) && fragments.fragments@[j].bidi_level
                    == fs0[j].bidi_level && (fragments.fragments@[j].specific is Text
                    <==> fs0[j].specific is Text) && (fragments.fragments@[j].specific is Generic
                    <==> fs0[j].specific is Generic),
            forall|j: int|
                line.range.begin <= j < line.range.spec_end() ==> ((#[trigger] fs0[j]).specific
                    matches SpecificInfo::Text(t) ==> t.extra_word_spacing == 0
                    && t.extra_justification == 0),
            widths_sum(fragments.fragments@, from as int, i as int)
                == widths_sum(fs0, from as int, i as int) + base * c + (if remainder < c {
                remainder
            } else {
                c
            }),
        decreases to - i,
    {
        let ghost fs_cur = fragments.fragments@;
        let is_text: bool = matches!(fragments.fragments[i].specific, SpecificInfo::Text(_));
        if is_text {
            let t: TextSlice = match &fragments.fragments[i].specific {
                SpecificInfo::Text(t) => *t,
                _ => { unreached() },
            };
            let vb: usize = t.begin + t.strip_front;
            let ve: usize = t.end - t.strip_back;
            let sep: usize = runs[t.run].separators_in_range(vb, ve);
            let bonus: i64 = if remainder > c {
                if remainder - c < sep as i64 {
                    remainder - c
                } else {
                    sep as i64
                }
            } else {
                0
            };
            let advance: i64 = runs[t.run].advance_for_range(vb, ve, base);
            proof {
                crate::text_run::lemma_weighted_advance_extra(
                    runs@[t.run as int],
                    vb as int,
                    ve as int,
                    base as int,
                );
            }
            let fr = fragments.get_mut(i);
            let new_slice = TextSlice {
                run: t.run,
                begin: t.begin,
                end: t.end,
                strip_front: t.strip_front,
                strip_back: t.strip_back,
                extra_word_spacing: base,
                extra_justification: bonus,
            };
            fr.specific = SpecificInfo::Text(new_slice);
            let bp_sum: i64 = fr.border_padding_inline_start + fr.border_padding_inline_end;
            fr.inline_size = bp_sum + advance + bonus;
            proof {
                let fnew = fragments.fragments@[i as int];
                assert(fs_cur[i as int] == fs0[i as int]);
                assert(fnew.wf(runs@));
                assert(fnew.content(runs@) == fs0[i as int].content(runs@));
                assert(fnew.spec_mass() == fs0[i as int].spec_mass());
                assert(spec_weight(fnew) == spec_weight(fs0[i as int]));
                lemma_widths_snoc(fragments.fragments@, from as int, i as int);
                lemma_widths_agree(fragments.fragments@, fs_cur, from as int, i as int);
                lemma_widths_snoc(fs0, from as int, i as int);
                lemma_expansion_snoc(fs0, runs@, from as int, i as int);
                assert(spec_fragment_separators(fs0[i as int], runs@) == sep as int);
                assert(fnew.inline_size - fs0[i as int].inline_size == base * (sep as int)
                    + bonus);
                assert(base * (c + sep as int) == base * c + base * (sep as int))
                    by (nonlinear_arith);
                lemma_expansion_nonneg(fs0, runs@, (i + 1) as int, to as int);
                lemma_expansion_split(fs0, runs@, from as int, (i + 1) as int, to as int);
            }
            c = c + (sep as i64);
        } else {
            proof {
                assert(fragments.fragments@[i as int] == fs0[i as int]);
                lemma_widths_snoc(fragments.fragments@, from as int, i as int);
                lemma_widths_snoc(fs0, from as int, i as int);
                lemma_expansion_snoc(fs0, runs@, from as int, i as int);
                lemma_expansion_nonneg(fs0, runs@, (i + 1) as int, to as int);
                lemma_expansion_split(fs0, runs@, from as int, (i + 1) as int, to as int);
            }
        }
        i = i + 1;
    }
    proof {
        assert(c == total_n);
        assert(base * total_n + remainder == slack_inline_size);
        assert((if remainder < total_n {
            remainder as int
        } else {
            total_n
        }) == remainder);
        lemma_widths_agree(fragments.fragments@, fs0, to as int, to as int);
    }
}

/// Widths over `[from, i + 1)` extend widths over `[from, i)` by one unit.
proof fn lemma_widths_snoc(fs: Seq<Fragment>, from: int, i: int)
    requires
        0 <= from <= i < fs.len(),
    ensures
        widths_sum(fs, from, i + 1) == widths_sum(fs, from, i) + fs[i].inline_size,
    decreases i - from,
{
    if from < i {
        lemma_widths_snoc(fs, from + 1, i);
        assert(widths_sum(fs, from, i + 1) == fs[from].inline_size + widths_sum(
            fs,
            from + 1,
            i + 1,
        ));
        assert(widths_sum(fs, from, i) == fs[from].inline_size + widths_sum(fs, from + 1, i));
    } else {
        assert(widths_sum(fs, i + 1, i + 1) == 0);
        assert(widths_sum(fs, i, i) == 0);
        assert(widths_sum(fs, i, i + 1) == fs[i].inline_size + widths_sum(fs, i + 1, i + 1));
    }
}

/// Opportunities over `[from, i + 1)` extend those over `[from, i)`.
proof fn lemma_expansion_snoc(fs: Seq<Fragment>, runs: Seq<TextRun>, from: int, i: int)
    requires
        0 <= from <= i < fs.len(),
    ensures
        expansion_opportunities(fs, runs, from, i + 1) == expansion_opportunities(fs, runs, from, i)
            + spec_fragment_separators(fs[i], runs),
    decreases i - from,
{
    if from < i {
        lemma_expansion_snoc(fs, runs, from + 1, i);
        assert(expansion_opportunities(fs, runs, from, i + 1) == spec_fragment_separators(
            fs[from],
            runs,
        ) + expansion_opportunities(fs, runs, from + 1, i + 1));
        assert(expansion_opportunities(fs, runs, from, i) == spec_fragment_separators(
            fs[from],
            runs,
        ) + expansion_opportunities(fs, runs, from + 1, i));
    } else {
        assert(expansion_opportunities(fs, runs, i + 1, i + 1) == 0);
        assert(expansion_opportunities(fs, runs, i, i) == 0);
        assert(expansion_opportunities(fs, runs, i, i + 1) == spec_fragment_separators(
            fs[i],
            runs,
        ) + expansion_opportunities(fs, runs, i + 1, i + 1));
    }
}

/// Two sequences whose units have equal border-box inline sizes on an
/// interval have the same widths there.
proof fn lemma_widths_agree_sizes(a: Seq<Fragment>, b: Seq<Fragment>, from: int, to: int)
    requires
        0 <= from,
        to <= a.len() && to <= b.len(),
        forall|j: int| from <= j < to ==> (#[trigger] a[j]).inline_size == b[j].inline_size,
    ensures
        widths_sum(a, from, to) == widths_sum(b, from, to),
    decreases to - from,
{
    if from < to {
        lemma_widths_agree_sizes(a, b, from + 1, to);
    }
}

/// Two sequences that agree on an interval have the same widths there.
proof fn lemma_widths_agree(a: Seq<Fragment>, b: Seq<Fragment>, from: int, to: int)
    requires
        0 <= from,
        to <= a.len() && to <= b.len(),
        forall|j: int| from <= j < to ==> a[j] == b[j],
    ensures
        widths_sum(a, from, to) == widths_sum(b, from, to),
    decreases to - from,
{
    if from < to {
        lemma_widths_agree(a, b, from + 1, to);
    }
}

/// Opportunity counts are nonnegative.
proof fn lemma_expansion_nonneg(fs: Seq<Fragment>, runs: Seq<TextRun>, from: int, to: int)
    ensures
        expansion_opportunities(fs, runs, from, to) >= 0,
    decreases to - from,
{
    if from < to {
        lemma_expansion_nonneg(fs, runs, from + 1, to);
        lemma_fragment_separators_nonneg(fs[from], runs);
    }
}

/// A unit never offers a negative number of opportunities.
proof fn lemma_fragment_separators_nonneg(f: Fragment, runs: Seq<TextRun>)
    ensures
        spec_fragment_separators(f, runs) >= 0,
{
    match f.specific {
        SpecificInfo::Text(t) => {
            if t.vis_begin() <= t.vis_end() {
                crate::text_run::lemma_separator_count_bounds(
                    runs[t.run as int],
                    t.vis_begin(),
                    t.vis_end(),
                );
            }
        },
        _ => {},
    }
}

/// Opportunity counts split at any interior position.
proof fn lemma_expansion_split(fs: Seq<Fragment>, runs: Seq<TextRun>, a: int, b: int, c: int)
    requires
        a <= b <= c,
    ensures
        expansion_opportunities(fs, runs, a, c) == expansion_opportunities(fs, runs, a, b)
            + expansion_opportunities(fs, runs, b, c),
    decreases b - a,
{
    if a < b {
        lemma_expansion_split(fs, runs, a + 1, b, c);
    }
}


/// The line metrics used to align one unit: the committed line's envelope
/// for ordinary units; for a hypothetical box, the envelope the line
/// would have had with it placed.
pub open spec fn spec_line_metrics_for_fragment(line: Line, f: Fragment) -> LineMetrics {
    if !f.flags.is_hypothetical {
        LineMetrics {
            space_above_baseline: line.metrics.space_above_baseline,
            space_below_baseline: (line.bounds.size.block
                - line.metrics.space_above_baseline) as i64,
        }
    } else {
        let nm = line.spec_new_metrics_for_fragment(f);
        let nb = line.spec_new_block_size_for_fragment(f, nm);
        LineMetrics {
            space_above_baseline: nm.space_above_baseline,
            space_below_baseline: (nb - nm.space_above_baseline) as i64,
        }
    }
}

/// The final block coordinate of one unit on a line: its ascent is
/// aligned at the line's baseline, and a non-replaced unit is shifted up
/// by its leading border and padding, since alignment targets the content
/// box while the stored box is the border box.
pub open spec fn spec_block_position(line: Line, f: Fragment) -> int {
    line.bounds.start.b + spec_line_metrics_for_fragment(line, f).space_above_baseline
        - f.metrics.ascent - if !f.flags.is_replaced {
        f.border_padding_block_start as int
    } else {
        0
    }
}

/// Sets the final block coordinate of every unit of one line.
#[verifier::rlimit(100)]
pub fn set_block_fragment_positions(fragments: &mut InlineFragments, runs: &Vec<TextRun>, line:
    &Line)
    requires
        runs_wf(runs@),
        all_wf(old(fragments).fragments@, runs@),
        line.range.wf(),
        line.range.spec_end() <= old(fragments).fragments@.len(),
        0 <= line.bounds.start.b <= crate::geometry::AU_LIMIT,
        0 <= line.bounds.size.block <= 4 * MAX_SCALAR,
        line.metrics.wf(),
        line.minimum_metrics.wf(),
    ensures
        all_wf(final(fragments).fragments@, runs@),
        final(fragments).fragments@.len() == old(fragments).fragments@.len(),
        forall|i: int|
            0 <= i < old(fragments).fragments@.len() && !(line.range.begin <= i
                < line.range.spec_end()) ==> final(fragments).fragments@[i] == old(fragments).fragments@[i],
        forall|i: int|
            line.range.begin <= i < line.range.spec_end() ==> final(fragments).fragments@[i]
                == (Fragment {
                position: crate::geometry::LogicalPoint {
                    i: old(fragments).fragments@[i].position.i,
                    b: spec_block_position(*line, #[trigger] old(fragments).fragments@[i]) as i64,
                },
                ..old(fragments).fragments@[i]
            }),
{
    let ghost fs0 = fragments.fragments@;
    let from: usize = line.range.begin;
    let to: usize = line.range.begin + line.range.length;
    let mut i: usize = from;
    while i < to
        invariant
            runs_wf(runs@),
            all_wf(fragments.fragments@, runs@),
            from <= i <= to <= fragments.fragments@.len(),
            fragments.fragments@.len() == fs0.len(),
            line.range.begin == from && line.range.spec_end() == to,
            0 <= line.bounds.start.b <= crate::geometry::AU_LIMIT,
            0 <= line.bounds.size.block <= 4 * MAX_SCALAR,
            line.metrics.wf(),
            line.minimum_metrics.wf(),
            forall|j: int| 0 <= j < fs0.len() && !(from <= j < i) ==> fragments.fragments@[j]
                == fs0[j],
            forall|j: int|
                from <= j < i ==> fragments.fragments@[j] == (Fragment {
                    position: crate::geometry::LogicalPoint {
                        i: fs0[j].position.i,
                        b: spec_block_position(*line, #[trigger] fs0[j]) as i64,
                    },
                    ..fs0[j]
                }),
        decreases to - i,
    {
        let space_above: i64;
        let is_hypothetical: bool = fragments.fragments[i].flags.is_hypothetical;
        if !is_hypothetical {
            space_above = line.metrics.space_above_baseline;
        } else {
            let nm = line.new_metrics_for_fragment(&fragments.fragments[i]);
            space_above = nm.space_above_baseline;
        }
        let fr = fragments.get_mut(i);
        let shift: i64 = if !fr.flags.is_replaced {
            fr.border_padding_block_start
        } else {
            0
        };
        proof {
            assert(fs0[i as int].metrics.wf());
        }
        fr.position.b = line.bounds.start.b + space_above - fr.metrics.ascent - shift;
        i = i + 1;
    }
}

/// The running inline cursor after walking the first `upto - from` units
/// of `[from, upto)` in logical order, accumulating each unit's leading
/// margin and, for in-flow units, its border box and trailing margin.
pub open spec fn spec_inline_cursor(fs: Seq<Fragment>, from: int, upto: int, start: i64) -> i64
    decreases upto - from,
{
    if upto <= from {
        start
    } else {
        let c = spec_inline_cursor(fs, from, upto - 1, start);
        let f = fs[upto - 1];
        let c1 = crate::geometry::au_clamp(c + f.margin_inline_start);
        if !f.flags.is_inline_absolute {
            crate::geometry::au_clamp(
                crate::geometry::au_clamp(c1 + f.inline_size) + f.margin_inline_end,
            )
        } else {
            c1
        }
    }
}

/// The final inline coordinate of the unit at `idx`: the cursor after its
/// leading margin, mirrored against the green zone when the unit's own
/// direction disagrees with the line's base direction.
pub open spec fn spec_inline_position(fs: Seq<Fragment>, from: int, idx: int, start: i64, line:
    Line, is_ltr: bool, para_level: u8) -> int {
    let c = spec_inline_cursor(fs, from, idx, start);
    let f = fs[idx];
    let c1 = crate::geometry::au_clamp(c + f.margin_inline_start);
    let frag_ltr = !crate::bidi::spec_level_is_rtl(crate::bidi::spec_fragment_level(f, para_level));
    if frag_ltr == is_ltr {
        c1 as int
    } else {
        line.green_zone.inline - c1 - f.margin_inline_end - f.inline_size
    }
}

/// Walks the units of one line in logical order, assigning each its final
/// inline coordinate by accumulating margins and sizes from the line's
/// starting position.
#[verifier::rlimit(100)]
#[verifier::spinoff_prover]
pub fn assign_inline_positions_logical(fragments: &mut InlineFragments, runs: &Vec<TextRun>, line:
    &Line, start_position: i64, is_ltr: bool, para_level: u8)
    requires
        runs_wf(runs@),
        all_wf(old(fragments).fragments@, runs@),
        line.range.wf(),
        line.range.spec_end() <= old(fragments).fragments@.len(),
        crate::geometry::au_ok(start_position),
        0 <= line.green_zone.inline <= MAX_SCALAR,
    ensures
        all_wf(final(fragments).fragments@, runs@),
        final(fragments).fragments@.len() == old(fragments).fragments@.len(),
        forall|i: int|
            0 <= i < old(fragments).fragments@.len() && !(line.range.begin <= i
                < line.range.spec_end()) ==> final(fragments).fragments@[i] == old(fragments).fragments@[i],
        forall|i: int|
            line.range.begin <= i < line.range.spec_end() ==> final(fragments).fragments@[i]
                == (Fragment {
                position: crate::geometry::LogicalPoint {
                    i: spec_inline_position(
                        old(fragments).fragments@,
                        line.range.begin as int,
                        i,
                        start_position,
                        *line,
                        is_ltr,
                        para_level,
                    ) as i64,
                    b: (#[trigger] old(fragments).fragments@[i]).position.b,
                },
                ..old(fragments).fragments@[i]
            }),
{
    let ghost fs0 = fragments.fragments@;
    let from: usize = line.range.begin;
    let to: usize = line.range.begin + line.range.length;
    let mut cursor: i64 = start_position;
    let mut i: usize = from;
    while i < to
        invariant
            runs_wf(runs@),
            all_wf(fragments.fragments@, runs@),
            from <= i <= to <= fragments.fragments@.len(),
            fragments.fragments@.len() == fs0.len(),
            line.range.begin == from && line.range.spec_end() == to,
            crate::geometry::au_ok(start_position),
            crate::geometry::au_ok(cursor),
            0 <= line.green_zone.inline <= MAX_SCALAR,
            cursor == spec_inline_cursor(fs0, from as int, i as int, start_position),
            forall|j: int| 0 <= j < fs0.len() && !(from <= j < i) ==> fragments.fragments@[j]
                == fs0[j],
            forall|j: int|
                from <= j < i ==> fragments.fragments@[j] == (Fragment {
                    position: crate::geometry::LogicalPoint {
                        i: spec_inline_position(
                            fs0,
                            from as int,
                            j,
                            start_position,
                            *line,
                            is_ltr,
                            para_level,
                        ) as i64,
                        b: (#[trigger] fs0[j]).position.b,
                    },
                    ..fs0[j]
                }),
        decreases to - i,
    {
        proof {
            assert(fs0[i as int].wf(runs@));
            fs0[i as int].lemma_inline_size_bounds(runs@);
        }
        let frag_rtl: bool = crate::bidi::level_is_rtl(
            match &fragments.fragments[i].specific {
                SpecificInfo::Text(_) => fragments.fragments[i].bidi_level,
                SpecificInfo::Truncated(_) => fragments.fragments[i].bidi_level,
                SpecificInfo::Generic => para_level,
            },
        );
        let fr = fragments.get_mut(i);
        cursor = crate::geometry::au_add(cursor, fr.margin_inline_start);
        if !frag_rtl == is_ltr {
            fr.position.i = cursor;
        } else {
            fr.position.i = line.green_zone.inline - cursor - fr.margin_inline_end
                - fr.inline_size;
        }
        if !fr.flags.is_inline_absolute {
            cursor = crate::geometry::au_add(
                crate::geometry::au_add(cursor, fr.inline_size),
                fr.margin_inline_end,
            );
        }
        i = i + 1;
    }
}


/// Walks the units of one line in visual order — runs in base-direction
/// order, a run's own units reversed whenever its level disagrees with
/// the base direction — assigning inline coordinates by accumulating
/// margins and sizes. Only the units' inline coordinates change.
#[verifier::rlimit(100)]
#[verifier::spinoff_prover]
pub fn assign_inline_positions_visual(fragments: &mut InlineFragments, runs: &Vec<TextRun>, line:
    &Line, start_position: i64, is_ltr: bool, para_level: u8)
    requires
        runs_wf(runs@),
        all_wf(old(fragments).fragments@, runs@),
        line.range.wf(),
        line.range.spec_end() <= old(fragments).fragments@.len(),
        crate::geometry::au_ok(start_position),
        0 <= line.green_zone.inline <= MAX_SCALAR,
        line.visual_runs is Some,
        forall|k: int|
            0 <= k < line.visual_runs->Some_0@.len() ==> {
                let vr = #[trigger] line.visual_runs->Some_0@[k];
                &&& vr.range.wf()
                &&& line.range.begin <= vr.range.begin
                &&& vr.range.spec_end() <= line.range.spec_end()
            },
    ensures
        all_wf(final(fragments).fragments@, runs@),
        final(fragments).fragments@.len() == old(fragments).fragments@.len(),
        forall|i: int|
            0 <= i < old(fragments).fragments@.len() && !(line.range.begin <= i
                < line.range.spec_end()) ==> final(fragments).fragments@[i] == old(fragments).fragments@[i],
        forall|i: int|
            0 <= i < old(fragments).fragments@.len() ==> final(fragments).fragments@[i]
                == (Fragment {
                position: crate::geometry::LogicalPoint {
                    i: final(fragments).fragments@[i].position.i,
                    b: (#[trigger] old(fragments).fragments@[i]).position.b,
                },
                ..old(fragments).fragments@[i]
            }),
{
    let ghost fs0 = fragments.fragments@;
    let run_count: usize = match &line.visual_runs {
        Option::Some(v) => v.len(),
        Option::None => { unreached() },
    };
    let mut cursor: i64 = start_position;
    let mut run_idx: usize = 0;
    while run_idx < run_count
        invariant
            runs_wf(runs@),
            all_wf(fragments.fragments@, runs@),
            fragments.fragments@.len() == fs0.len(),
            line.range.spec_end() <= fs0.len(),
            line.range.wf(),
            crate::geometry::au_ok(cursor),
            0 <= line.green_zone.inline <= MAX_SCALAR,
            line.visual_runs is Some,
            run_count == line.visual_runs->Some_0@.len(),
            forall|k: int|
                0 <= k < line.visual_runs->Some_0@.len() ==> {
                    let vr = #[trigger] line.visual_runs->Some_0@[k];
                    &&& vr.range.wf()
                    &&& line.range.begin <= vr.range.begin
                    &&& vr.range.spec_end() <= line.range.spec_end()
                },
            forall|i: int|
                0 <= i < fs0.len() && !(line.range.begin <= i < line.range.spec_end())
                    ==> fragments.fragments@[i] == fs0[i],
            forall|i: int|
                0 <= i < fs0.len() ==> fragments.fragments@[i] == (Fragment {
                    position: crate::geometry::LogicalPoint {
                        i: fragments.fragments@[i].position.i,
                        b: (#[trigger] fs0[i]).position.b,
                    },
                    ..fs0[i]
                }),
        decreases run_count - run_idx,
    {
        let vr: crate::line::VisualRun = match &line.visual_runs {
            Option::Some(v) => {
                if is_ltr {
                    v[run_idx]
                } else {
                    v[run_count - 1 - run_idx]
                }
            },
            Option::None => { unreached() },
        };
        // A run whose own direction disagrees with the base direction is
        // laid out in reverse internal order.
        let reversed: bool = crate::bidi::level_is_rtl(vr.level) == is_ltr;
        let mut k: usize = 0;
        while k < vr.range.length
            invariant
                runs_wf(runs@),
                all_wf(fragments.fragments@, runs@),
                fragments.fragments@.len() == fs0.len(),
                line.range.spec_end() <= fs0.len(),
                line.range.wf(),
                crate::geometry::au_ok(cursor),
                0 <= line.green_zone.inline <= MAX_SCALAR,
                k <= vr.range.length,
                vr.range.wf(),
                line.range.begin <= vr.range.begin,
                vr.range.spec_end() <= line.range.spec_end(),
                forall|i: int|
                    0 <= i < fs0.len() && !(line.range.begin <= i < line.range.spec_end())
                        ==> fragments.fragments@[i] == fs0[i],
                forall|i: int|
                    0 <= i < fs0.len() ==> fragments.fragments@[i] == (Fragment {
                        position: crate::geometry::LogicalPoint {
                            i: fragments.fragments@[i].position.i,
                            b: (#[trigger] fs0[i]).position.b,
                        },
                        ..fs0[i]
                    }),
            decreases vr.range.length - k,
        {
            let idx: usize = if !reversed {
                vr.range.begin + k
            } else {
                vr.range.begin + (vr.range.length - 1 - k)
            };
            proof {
                assert(fragments.fragments@[idx as int].wf(runs@));
                fragments.fragments@[idx as int].lemma_inline_size_bounds(runs@);
            }
            let frag_rtl: bool = crate::bidi::level_is_rtl(
                match &fragments.fragments[idx].specific {
                    SpecificInfo::Text(_) => fragments.fragments[idx].bidi_level,
                    SpecificInfo::Truncated(_) => fragments.fragments[idx].bidi_level,
                    SpecificInfo::Generic => para_level,
                },
            );
            let fr = fragments.get_mut(idx);
            cursor = crate::geometry::au_add(cursor, fr.margin_inline_start);
            if !frag_rtl == is_ltr {
                fr.position.i = cursor;
            } else {
                fr.position.i = line.green_zone.inline - cursor - fr.margin_inline_end
                    - fr.inline_size;
            }
            if !fr.flags.is_inline_absolute {
                cursor = crate::geometry::au_add(
                    crate::geometry::au_add(cursor, fr.inline_size),
                    fr.margin_inline_end,
                );
            }
            k = k + 1;
        }
        run_idx = run_idx + 1;
    }
}

/// Walks one line's units in visual order from the resolved starting
/// position, assigning inline coordinates.
#[verifier::rlimit(100)]
#[verifier::spinoff_prover]
fn place_line_units(fragments: &mut InlineFragments, runs: &Vec<TextRun>, line: &Line,
    start_position: i64, is_ltr: bool, para_level: u8)
    requires
        runs_wf(runs@),
        all_wf(old(fragments).fragments@, runs@),
        line.range.wf(),
        line.range.spec_end() <= old(fragments).fragments@.len(),
        crate::geometry::au_ok(start_position),
        0 <= line.green_zone.inline <= MAX_SCALAR,
        line.visual_runs matches Option::Some(v) ==> forall|k: int|
            0 <= k < v@.len() ==> {
                let vr = #[trigger] v@[k];
                &&& vr.range.wf()
                &&& line.range.begin <= vr.range.begin
                &&& vr.range.spec_end() <= line.range.spec_end()
            },
    ensures
        all_wf(final(fragments).fragments@, runs@),
        final(fragments).fragments@.len() == old(fragments).fragments@.len(),
        forall|i: int|
            0 <= i < old(fragments).fragments@.len() && !(line.range.begin <= i
                < line.range.spec_end()) ==> final(fragments).fragments@[i] == old(fragments).fragments@[i],
        forall|i: int|
            0 <= i < old(fragments).fragments@.len() ==> final(fragments).fragments@[i]
                == (Fragment {
                position: crate::geometry::LogicalPoint {
                    i: final(fragments).fragments@[i].position.i,
                    b: (#[trigger] old(fragments).fragments@[i]).position.b,
                },
                ..old(fragments).fragments@[i]
            }),
        line.visual_runs is None ==> forall|i: int|
            line.range.begin <= i < line.range.spec_end() ==> #[trigger] final(fragments).fragments@[i]
                == (Fragment {
                position: crate::geometry::LogicalPoint {
                    i: spec_inline_position(
                        old(fragments).fragments@,
                        line.range.begin as int,
                        i,
                        start_position,
                        *line,
                        is_ltr,
                        para_level,
                    ) as i64,
                    b: old(fragments).fragments@[i].position.b,
                },
                ..old(fragments).fragments@[i]
            }),
{
    match &line.visual_runs {
        Option::None => {
            assign_inline_positions_logical(
                fragments,
                runs,
                line,
                start_position,
                is_ltr,
                para_level,
            );
        },
        Option::Some(_) => {
            assign_inline_positions_visual(
                fragments,
                runs,
                line,
                start_position,
                is_ltr,
                para_level,
            );
        },
    }
}

/// The physical left and right alignments remapped to logical start and
/// end according to the writing direction.
pub open spec fn spec_remapped_align(align: crate::style_data::TextAlign, is_ltr: bool)
    -> crate::style_data::TextAlign {
    match align {
        crate::style_data::TextAlign::Left => if is_ltr {
            crate::style_data::TextAlign::Start
        } else {
            crate::style_data::TextAlign::End
        },
        crate::style_data::TextAlign::Right => if is_ltr {
            crate::style_data::TextAlign::End
        } else {
            crate::style_data::TextAlign::Start
        },
        _ => align,
    }
}

/// The distributable slack of one line, clamped to a representable width.
pub open spec fn spec_line_slack(line: Line) -> i64 {
    let raw = line.green_zone.inline - line.bounds.size.inline;
    if raw < 0 {
        0
    } else if raw > MAX_SCALAR {
        MAX_SCALAR
    } else {
        raw as i64
    }
}

/// The base inline offset resolved from the alignment and the slack.
pub open spec fn spec_alignment_offset(align: crate::style_data::TextAlign, slack: i64) -> i64 {
    match align {
        crate::style_data::TextAlign::Center => (slack / 2) as i64,
        crate::style_data::TextAlign::End => slack,
        _ => 0,
    }
}

/// Sets unit positions in the inline direction for one line, resolving
/// text-align into a starting offset plus distributable slack, justifying
/// the text when mandated, and walking units in visual order.
#[verifier::rlimit(100)]
#[verifier::spinoff_prover]
pub fn set_inline_fragment_positions(fragments: &mut InlineFragments, runs: &Vec<TextRun>, line:
    &Line, line_align: crate::style_data::TextAlign, indentation: i64, is_last_line: bool, is_ltr:
    bool, text_justify: crate::style_data::TextJustify, para_level: u8)
    requires
        runs_wf(runs@),
        all_wf(old(fragments).fragments@, runs@),
        line.range.wf(),
        line.range.spec_end() <= old(fragments).fragments@.len(),
        0 <= indentation <= MAX_SCALAR,
        0 <= line.bounds.start.i <= MAX_SCALAR,
        crate::geometry::au_ok(line.bounds.size.inline),
        0 <= line.green_zone.inline <= MAX_SCALAR,
        forall|i: int|
            line.range.begin <= i < line.range.spec_end() ==> ((#[trigger] old(fragments).fragments@[i]).specific matches SpecificInfo::Text(t) ==> t.extra_word_spacing == 0
                && t.extra_justification == 0),
        line.visual_runs matches Option::Some(v) ==> forall|k: int|
            0 <= k < v@.len() ==> {
                let vr = #[trigger] v@[k];
                &&& vr.range.wf()
                &&& line.range.begin <= vr.range.begin
                &&& vr.range.spec_end() <= line.range.spec_end()
            },
    ensures
        all_wf(final(fragments).fragments@, runs@),
        final(fragments).fragments@.len() == old(fragments).fragments@.len(),
        forall|i: int|
            0 <= i < old(fragments).fragments@.len() && !(line.range.begin <= i
                < line.range.spec_end()) ==> final(fragments).fragments@[i] == old(fragments).fragments@[i],
        forall|i: int|
            line.range.begin <= i < line.range.spec_end() ==> (#[trigger] final(fragments).fragments@[i]).content(runs@) == old(fragments).fragments@[i].content(runs@)
                && final(fragments).fragments@[i].spec_mass() == old(fragments).fragments@[i].spec_mass()
                && spec_weight(final(fragments).fragments@[i]) == spec_weight(
                old(fragments).fragments@[i],
            ) && crate::bidi::spec_fragment_level(final(fragments).fragments@[i], para_level)
                == crate::bidi::spec_fragment_level(old(fragments).fragments@[i], para_level),
        ({
            let fs0 = old(fragments).fragments@;
            let fs1 = final(fragments).fragments@;
            let align2 = spec_remapped_align(line_align, is_ltr);
            let slack = spec_line_slack(*line);
            let justified = align2 is Justify && !is_last_line && !(text_justify is Disabled);
            let n = expansion_opportunities(fs0, runs@, line.range.begin as int,
                line.range.spec_end());
            &&& (justified && slack > 0 && n > 0 && line.range.length <= 0x1000_0000)
                ==> widths_sum(fs1, line.range.begin as int, line.range.spec_end())
                == widths_sum(fs0, line.range.begin as int, line.range.spec_end()) + slack
            &&& (!justified && line.visual_runs is None) ==> forall|i: int|
                line.range.begin <= i < line.range.spec_end() ==> #[trigger] fs1[i] == (Fragment {
                    position: crate::geometry::LogicalPoint {
                        i: spec_inline_position(
                            fs0,
                            line.range.begin as int,
                            i,
                            crate::geometry::au_clamp(
                                crate::geometry::au_clamp(line.bounds.start.i + indentation)
                                    + spec_alignment_offset(align2, slack),
                            ),
                            *line,
                            is_ltr,
                            para_level,
                        ) as i64,
                        b: fs0[i].position.b,
                    },
                    ..fs0[i]
                })
        }),
{
    let ghost fs0 = fragments.fragments@;
    // Figure out how much inline size we have to distribute.
    let slack_raw: i64 = line.green_zone.inline - line.bounds.size.inline;
    let slack_inline_size: i64 = if slack_raw < 0 {
        0
    } else if slack_raw > MAX_SCALAR {
        MAX_SCALAR
    } else {
        slack_raw
    };
    // Translate physical alignments to logical ones.
    let line_align2: crate::style_data::TextAlign = match line_align {
        crate::style_data::TextAlign::Left => if is_ltr {
            crate::style_data::TextAlign::Start
        } else {
            crate::style_data::TextAlign::End
        },
        crate::style_data::TextAlign::Right => if is_ltr {
            crate::style_data::TextAlign::End
        } else {
            crate::style_data::TextAlign::Start
        },
        _ => line_align,
    };
    // Resolve the starting offset, justifying the text if mandated.
    let justified: bool = matches!(line_align2, crate::style_data::TextAlign::Justify)
        && !is_last_line && !matches!(text_justify, crate::style_data::TextJustify::Disabled);
    let offset: i64 = match line_align2 {
        crate::style_data::TextAlign::Center => slack_inline_size / 2,
        crate::style_data::TextAlign::End => slack_inline_size,
        _ => 0,
    };
    if justified {
        justify_inline_fragments(fragments, runs, line, slack_inline_size);
    }
    let start_position: i64 = crate::geometry::au_add(
        crate::geometry::au_add(line.bounds.start.i, indentation),
        offset,
    );
    proof {
        assert(slack_inline_size == spec_line_slack(*line));
        assert(line_align2 == spec_remapped_align(line_align, is_ltr));
        assert(offset == spec_alignment_offset(line_align2, slack_inline_size));
        assert(start_position == crate::geometry::au_clamp(
            crate::geometry::au_clamp(line.bounds.start.i + indentation) + offset,
        ));
    }
    // Lay the units out in visual order.
    let ghost fs_mid = fragments.fragments@;
    place_line_units(fragments, runs, line, start_position, is_ltr, para_level);
    proof {
        lemma_widths_agree_sizes(
            fragments.fragments@,
            fs_mid,
            line.range.begin as int,
            line.range.spec_end(),
        );
    }
}

} // verus!
