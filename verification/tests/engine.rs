//! End-to-end tests of the line-breaking engine: the scenarios the design
//! calls out, and concrete checks of the stated properties.

use inline_layout::bidi;
use inline_layout::breaker::canonicalize_fragments;
use inline_layout::floats::{FloatBand, FloatState};
use inline_layout::flow::InlineFlow;
use inline_layout::fragment::{
    Fragment, FragmentFlags, InlineFragments, SpecificInfo, TextSlice,
};
use inline_layout::geometry::LogicalPoint;
use inline_layout::metrics::{FontMetrics, InlineMetrics, LineMetrics};
use inline_layout::style_data::{
    TextAlign, TextJustify, TextOverflowSide, TextWrapMode, VerticalAlign, WhiteSpaceCollapse,
};
use inline_layout::text_run::TextRun;

fn run_of(text: &str, advance: i64, level: u8) -> TextRun {
    let chars: Vec<u8> = text.bytes().collect();
    let advances: Vec<i64> = chars.iter().map(|_| advance).collect();
    TextRun {
        chars,
        advances,
        bidi_level: level,
    }
}

fn text_fragment(run: usize, begin: usize, end: usize, advance: i64, level: u8) -> Fragment {
    Fragment {
        specific: SpecificInfo::Text(TextSlice {
            run,
            begin,
            end,
            strip_front: 0,
            strip_back: 0,
            extra_word_spacing: 0,
            extra_justification: 0,
        }),
        inline_size: advance * ((end - begin) as i64),
        block_size: 12,
        position: LogicalPoint { i: 0, b: 0 },
        margin_inline_start: 0,
        margin_inline_end: 0,
        border_padding_inline_start: 0,
        border_padding_inline_end: 0,
        border_padding_block_start: 0,
        metrics: InlineMetrics {
            space_above_baseline: 8,
            space_below_baseline: 4,
            ascent: 8,
        },
        bidi_level: level,
        wrap_mode: TextWrapMode::Wrap,
        white_space: WhiteSpaceCollapse::Collapse,
        text_overflow: TextOverflowSide::Clip,
        overflow_visible: false,
        vertical_align: VerticalAlign::Baseline,
        flags: FragmentFlags {
            is_ellipsis: false,
            is_hypothetical: false,
            is_inline_absolute: false,
            is_replaced: false,
            suppress_line_break_before: false,
            on_glyph_run_boundary: true,
        },
        selected: false,
        inline_context: None,
    }
}

fn box_fragment(inline_size: i64, block_size: i64) -> Fragment {
    Fragment {
        specific: SpecificInfo::Generic,
        inline_size,
        block_size,
        position: LogicalPoint { i: 0, b: 0 },
        margin_inline_start: 0,
        margin_inline_end: 0,
        border_padding_inline_start: 0,
        border_padding_inline_end: 0,
        border_padding_block_start: 0,
        metrics: InlineMetrics {
            space_above_baseline: 8,
            space_below_baseline: 4,
            ascent: 8,
        },
        bidi_level: 0,
        wrap_mode: TextWrapMode::Wrap,
        white_space: WhiteSpaceCollapse::Collapse,
        text_overflow: TextOverflowSide::Clip,
        overflow_visible: false,
        vertical_align: VerticalAlign::Baseline,
        flags: FragmentFlags {
            is_ellipsis: false,
            is_hypothetical: false,
            is_inline_absolute: false,
            is_replaced: true,
            suppress_line_break_before: false,
            on_glyph_run_boundary: true,
        },
        selected: false,
        inline_context: None,
    }
}

fn flow_of(fragments: Vec<Fragment>, runs: Vec<TextRun>, width: i64) -> InlineFlow {
    let mut flow = InlineFlow::from_fragments(InlineFragments { fragments }, runs, 0);
    flow.minimum_line_metrics = LineMetrics {
        space_above_baseline: 8,
        space_below_baseline: 4,
    };
    flow.available_inline_size = width;
    flow
}

fn content_of(f: &Fragment, runs: &[TextRun]) -> Vec<u8> {
    if f.flags.is_ellipsis {
        return Vec::new();
    }
    match &f.specific {
        SpecificInfo::Text(t) => runs[t.run].chars[t.begin..t.end].to_vec(),
        SpecificInfo::Truncated(tr) => runs[tr.full.run].chars[tr.full.begin..tr.full.end].to_vec(),
        SpecificInfo::Generic => Vec::new(),
    }
}

fn total_content(fs: &[Fragment], runs: &[TextRun]) -> Vec<u8> {
    let mut out = Vec::new();
    for f in fs {
        out.extend(content_of(f, runs));
    }
    out
}

/// One unsplittable unit wider than the available width, wrapping
/// permitted, no break opportunity: a single overflowing line.
#[test]
fn unsplittable_overflow_line() {
    let mut flow = flow_of(vec![box_fragment(200, 12)], vec![], 100);
    flow.assign_block_size(FloatState::new());
    assert_eq!(flow.lines.len(), 1);
    assert_eq!(flow.fragments.len(), 1);
    let line = &flow.lines[0];
    assert!(line.inline_overflow);
    assert!(line.bounds.size.inline > line.green_zone.inline);
    assert_eq!(line.bounds.size.inline, 200);
    assert_eq!(line.green_zone.inline, 100);
    // The block axis still fits its green zone.
    assert!(line.bounds.size.block <= line.green_zone.block);
}

/// Two text units with a break opportunity between them; the container
/// fits the first word only: two lines, trailing space stripped.
#[test]
fn hello_world_wraps_to_two_lines() {
    let runs = vec![run_of("Hello ", 10, 0), run_of("World", 10, 0)];
    let fragments = vec![
        text_fragment(0, 0, 6, 10, 0),
        text_fragment(1, 0, 5, 10, 0),
    ];
    let mut flow = flow_of(fragments, runs.clone(), 80);
    flow.assign_block_size(FloatState::new());
    assert_eq!(flow.lines.len(), 2);
    assert_eq!(flow.fragments.len(), 2);
    assert_eq!(flow.lines[0].range.begin, 0);
    assert_eq!(flow.lines[0].range.length, 1);
    assert_eq!(flow.lines[1].range.begin, 1);
    assert_eq!(flow.lines[1].range.length, 1);
    // The trailing space of the first line is stripped from its extent
    // but not from its content.
    assert_eq!(flow.fragments.get(0).inline_size, 50);
    assert_eq!(total_content(&flow.fragments.fragments, &runs), b"Hello World".to_vec());
    // The second line starts below the first.
    assert_eq!(flow.lines[1].bounds.start.b, 12);
}

/// A single run split mid-word boundary: line ranges partition the
/// output, and canonicalization merges the pieces back together.
#[test]
fn split_pieces_merge_back() {
    let runs = vec![run_of("Hello World", 10, 0)];
    let fragments = vec![text_fragment(0, 0, 11, 10, 0)];
    let mut flow = flow_of(fragments, runs.clone(), 80);
    flow.assign_block_size(FloatState::new());
    assert_eq!(flow.lines.len(), 2);
    assert_eq!(flow.fragments.len(), 2);
    assert_eq!(total_content(&flow.fragments.fragments, &runs), b"Hello World".to_vec());
    // Content split at the break opportunity after the space.
    match &flow.fragments.get(0).specific {
        SpecificInfo::Text(t) => {
            assert_eq!(t.begin, 0);
            assert_eq!(t.end, 6);
        },
        _ => panic!("expected a text unit"),
    }
    // Re-canonicalizing the output restores the single original unit.
    let merged = canonicalize_fragments(flow.fragments.fragments.clone(), &runs);
    assert_eq!(merged.len(), 1);
    match &merged[0].specific {
        SpecificInfo::Text(t) => {
            assert_eq!(t.begin, 0);
            assert_eq!(t.end, 11);
        },
        _ => panic!("expected a text unit"),
    }
    // Canonicalization is idempotent: a second pass changes nothing.
    let again = canonicalize_fragments(merged.clone(), &runs);
    assert_eq!(again, merged);
}

/// Floats make a line's height infeasible partway through: with room
/// below, the whole line shifts; with a narrow band below, it flushes
/// early instead.
#[test]
fn float_collision_shifts_line() {
    let bands = vec![FloatBand { end_b: 20, origin_i: 0, width: 100 }];
    let f1 = box_fragment(30, 12);
    let mut f2 = box_fragment(30, 12);
    f2.metrics = InlineMetrics {
        space_above_baseline: 15,
        space_below_baseline: 10,
        ascent: 15,
    };
    let mut flow = flow_of(vec![f1, f2], vec![], 100);
    flow.assign_block_size(FloatState { bands });
    // Both units fit at the lower, unconstrained position: one line,
    // shifted below the float band.
    assert_eq!(flow.lines.len(), 1);
    assert_eq!(flow.lines[0].bounds.start.b, 20);
    assert_eq!(flow.lines[0].range.length, 2);
}

#[test]
fn float_collision_flushes_line() {
    let bands = vec![
        FloatBand { end_b: 20, origin_i: 0, width: 100 },
        FloatBand { end_b: 100, origin_i: 0, width: 40 },
    ];
    let f1 = box_fragment(30, 12);
    let mut f2 = box_fragment(30, 12);
    f2.metrics = InlineMetrics {
        space_above_baseline: 15,
        space_below_baseline: 10,
        ascent: 15,
    };
    let mut flow = flow_of(vec![f1, f2], vec![], 100);
    flow.assign_block_size(FloatState { bands });
    // The narrower band below cannot hold both units side by side: the
    // first line is committed early and the second unit starts lower.
    assert_eq!(flow.lines.len(), 2);
    assert_eq!(flow.lines[0].bounds.start.b, 0);
    assert_eq!(flow.lines[0].range.length, 1);
    assert_eq!(flow.lines[1].bounds.start.b, 20);
    assert_eq!(flow.lines[1].range.length, 1);
}

/// A right-to-left run embedded in a left-to-right paragraph: the
/// visual-run table is populated and the embedded unit is mirrored,
/// while the overall progression stays left to right.
#[test]
fn rtl_run_reordered() {
    let runs = vec![run_of("abc", 10, 0), run_of("def", 10, 1), run_of("ghi", 10, 0)];
    let fragments = vec![
        text_fragment(0, 0, 3, 10, 0),
        text_fragment(1, 0, 3, 10, 1),
        text_fragment(2, 0, 3, 10, 0),
    ];
    let mut flow = flow_of(fragments, runs, 100);
    flow.assign_block_size(FloatState::new());
    assert_eq!(flow.lines.len(), 1);
    let vruns = flow.lines[0].visual_runs.as_ref().expect("visual runs populated");
    assert_eq!(vruns.len(), 3);
    assert_eq!(vruns[0].level, 0);
    assert_eq!(vruns[1].level, 1);
    assert_eq!(vruns[2].level, 0);
    // Left-to-right progression with the embedded unit mirrored against
    // the green zone.
    assert_eq!(flow.fragments.get(0).position.i, 0);
    assert_eq!(flow.fragments.get(1).position.i, 40);
    assert_eq!(flow.fragments.get(2).position.i, 60);
}

/// Text-overflow ellipsis with clipped overflow: the unit is truncated,
/// a placeholder follows, their combined extent fits, and the original
/// content is recoverable on the next pass.
#[test]
fn ellipsis_truncation_and_recovery() {
    let runs = vec![run_of("abcdef", 10, 0)];
    let mut f = text_fragment(0, 0, 6, 10, 0);
    f.text_overflow = TextOverflowSide::Ellipsis { advance: 10 };
    let mut flow = flow_of(vec![f], runs.clone(), 30);
    flow.assign_block_size(FloatState::new());
    assert_eq!(flow.fragments.len(), 2);
    let first = flow.fragments.get(0);
    let second = flow.fragments.get(1);
    match &first.specific {
        SpecificInfo::Truncated(tr) => {
            assert_eq!(tr.text.end, 2);
            assert_eq!(tr.full.begin, 0);
            assert_eq!(tr.full.end, 6);
        },
        _ => panic!("expected a truncated unit"),
    }
    assert!(second.flags.is_ellipsis);
    assert!(first.inline_size + second.inline_size <= 30);
    // The untruncated content is still carried.
    assert_eq!(total_content(&flow.fragments.fragments, &runs), b"abcdef".to_vec());
    // A later pass with enough room recovers the full unit.
    flow.available_inline_size = 100;
    flow.assign_block_size(FloatState::new());
    assert_eq!(flow.fragments.len(), 1);
    assert_eq!(flow.fragments.get(0).inline_size, 60);
    assert_eq!(flow.lines.len(), 1);
}

/// Justification distributes the slack exactly: base spacing for every
/// separator plus the remainder on the earliest ones.
#[test]
fn justification_distributes_slack_exactly() {
    let runs = vec![run_of("a b c", 10, 0)];
    let fragments = vec![text_fragment(0, 0, 5, 10, 0)];
    let mut flow = flow_of(fragments, runs.clone(), 57);
    flow.text_align = TextAlign::Justify;
    flow.text_justify = TextJustify::Auto;
    // Force a second line so the first is not the last line.
    let mut flow2 = flow_of(
        vec![text_fragment(0, 0, 5, 10, 0), text_fragment(1, 0, 5, 10, 0)],
        vec![run_of("a b c", 10, 0), run_of("d e f", 10, 0)],
        57,
    );
    flow2.text_align = TextAlign::Justify;
    flow2.assign_block_size(FloatState::new());
    assert_eq!(flow2.lines.len(), 2);
    // Line one: width 50, slack 7, two separators: 3 app units per
    // separator and 1 left over, so the width grows by exactly 7.
    assert_eq!(flow2.fragments.get(0).inline_size, 57);
    // The last line is not justified.
    assert_eq!(flow2.fragments.get(1).inline_size, 50);
    let _ = flow;
}

/// The vertical envelope derived from font metrics sums to the requested
/// line height exactly, with the leading split around the glyphs.
#[test]
fn font_metrics_envelope_is_exact() {
    let fm = FontMetrics { ascent: 8, descent: 4 };
    let m = InlineMetrics::from_font_metrics(&fm, 14);
    assert_eq!(m.space_above_baseline, 9);
    assert_eq!(m.space_below_baseline, 5);
    assert_eq!(m.ascent, 8);
    let tight = InlineMetrics::from_font_metrics(&fm, 10);
    assert_eq!(tight.space_above_baseline + tight.space_below_baseline, 10);
}

/// The baseline of the last real line is its origin plus its extent less
/// the space below the baseline.
#[test]
fn baseline_offset_of_last_line() {
    let runs = vec![run_of("Hello ", 10, 0), run_of("World", 10, 0)];
    let fragments = vec![text_fragment(0, 0, 6, 10, 0), text_fragment(1, 0, 5, 10, 0)];
    let mut flow = flow_of(fragments, runs, 80);
    flow.assign_block_size(FloatState::new());
    assert_eq!(flow.baseline_offset_of_last_line(), Some(20));
}

/// An empty flow produces no lines and keeps no content.
#[test]
fn empty_flow_has_no_lines() {
    let mut flow = flow_of(vec![], vec![], 100);
    flow.assign_block_size(FloatState::new());
    assert_eq!(flow.lines.len(), 0);
    assert_eq!(flow.fragments.len(), 0);
    assert_eq!(flow.baseline_offset_of_last_line(), None);
}

/// Levels and reordering helpers behave as stated on plain values.
#[test]
fn bidi_levels_and_runs() {
    assert!(bidi::level_is_rtl(1));
    assert!(!bidi::level_is_rtl(2));
    let levels = vec![0u8, 0, 1, 1, 0];
    assert!(bidi::has_rtl(&levels));
    let runs = bidi::compute_visual_runs(
        &levels,
        inline_layout::fragment_range::FragmentRange { begin: 0, length: 5 },
    );
    assert_eq!(runs.len(), 3);
    assert_eq!(runs[0].range.begin, 0);
    assert_eq!(runs[0].range.length, 2);
    assert_eq!(runs[1].range.begin, 2);
    assert_eq!(runs[1].range.length, 2);
    assert_eq!(runs[2].range.begin, 4);
    assert_eq!(runs[2].range.length, 1);
}

/// Line ranges partition the output: contiguous, ascending, nonempty.
#[test]
fn line_ranges_partition_output() {
    let runs = vec![run_of("aa bb cc dd ee", 10, 0)];
    let fragments = vec![text_fragment(0, 0, 14, 10, 0)];
    let mut flow = flow_of(fragments, runs, 55);
    flow.assign_block_size(FloatState::new());
    assert!(flow.lines.len() > 1);
    let mut next = 0usize;
    for line in &flow.lines {
        assert_eq!(line.range.begin, next);
        assert!(line.range.length > 0);
        next = line.range.begin + line.range.length;
    }
    assert_eq!(next, flow.fragments.len());
    for line in &flow.lines {
        assert!(line.bounds.size.block <= line.green_zone.block);
        if !line.inline_overflow {
            assert!(line.bounds.size.inline <= line.green_zone.inline);
        }
    }
}

/// Re-running the engine on an unmodified input yields identical lines
/// and identical final geometry.
#[test]
fn relayout_is_idempotent() {
    let runs = vec![run_of("aa bb cc dd ee", 10, 0)];
    let fragments = vec![text_fragment(0, 0, 14, 10, 0)];
    let mut flow = flow_of(fragments, runs, 55);
    flow.assign_block_size(FloatState::new());
    let lines1 = flow.lines.clone();
    let frags1 = flow.fragments.fragments.clone();
    flow.assign_block_size(FloatState::new());
    assert_eq!(flow.lines, lines1);
    assert_eq!(flow.fragments.fragments, frags1);
}
