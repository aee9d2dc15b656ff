//! The inline flow: owns the unit sequence, the shared run table and the
//! committed lines, and orchestrates one layout pass — canonicalization,
//! line breaking against the float oracle, bidirectional reordering, and
//! positioning — and answers baseline queries for the owning block.

use vstd::prelude::*;
use crate::breaker::{canonicalize_fragments, LineBreaker};
use crate::floats::FloatState;
use crate::fragment::{all_pristine, all_wf, seq_content, seq_weight, Fragment, InlineFragments};
use crate::geometry::{MAX_SCALAR};
use crate::line::Line;
use crate::metrics::{InlineMetrics, LineMetrics};
use crate::style_data::{Display, TextAlign, TextJustify, VerticalAlign};
use crate::text_run::{runs_wf, TextRun};

verus! {

/// The running state of the minimum-line-metrics computation: the envelope
/// so far, and the largest block sizes demanded by top- and bottom-aligned
/// boxes, which stay out of baseline stacking.
#[derive(Clone, Copy, PartialEq, Eq, Structural, Debug)]
pub struct MinimumMetricsState {
    pub line: LineMetrics,
    pub largest_top: i64,
    pub largest_bottom: i64,
}

/// Folds one style record into the minimum-metrics state: top- and
/// bottom-aligned boxes of stacking display types feed the side buckets;
/// everything else is combined into the baseline envelope.
pub open spec fn spec_update_minimum_metrics(st: MinimumMetricsState, m: InlineMetrics, display:
    Display, va: VerticalAlign) -> MinimumMetricsState {
    match va {
        VerticalAlign::Top => {
            if display.spec_stacks_outside_baseline() && m.space_above_baseline >= 0 {
                MinimumMetricsState {
                    largest_top: if m.space_above_baseline + m.space_below_baseline
                        > st.largest_top {
                        (m.space_above_baseline + m.space_below_baseline) as i64
                    } else {
                        st.largest_top
                    },
                    ..st
                }
            } else {
                MinimumMetricsState { line: st.line.spec_combine(m), ..st }
            }
        },
        VerticalAlign::Bottom => {
            if display.spec_stacks_outside_baseline() && m.space_below_baseline >= 0 {
                MinimumMetricsState {
                    largest_bottom: if m.space_above_baseline + m.space_below_baseline
                        > st.largest_bottom {
                        (m.space_above_baseline + m.space_below_baseline) as i64
                    } else {
                        st.largest_bottom
                    },
                    ..st
                }
            } else {
                MinimumMetricsState { line: st.line.spec_combine(m), ..st }
            }
        },
        _ => MinimumMetricsState { line: st.line.spec_combine(m), ..st },
    }
}

/// Folds the first `j` enclosing-element records of one unit.
pub open spec fn spec_fold_nodes(nodes: Seq<crate::fragment::InlineFragmentNodeInfo>, st:
    MinimumMetricsState, j: int) -> MinimumMetricsState
    decreases j,
{
    if j <= 0 {
        st
    } else {
        let st1 = spec_fold_nodes(nodes, st, j - 1);
        spec_update_minimum_metrics(
            st1,
            nodes[j - 1].metrics,
            nodes[j - 1].display,
            nodes[j - 1].vertical_align,
        )
    }
}

/// Folds the enclosing-element records of the first `i` units.
pub open spec fn spec_fold_fragments(fs: Seq<Fragment>, st: MinimumMetricsState, i: int)
    -> MinimumMetricsState
    decreases i,
{
    if i <= 0 {
        st
    } else {
        let st1 = spec_fold_fragments(fs, st, i - 1);
        match fs[i - 1].inline_context {
            Option::None => st1,
            Option::Some(c) => spec_fold_nodes(c.nodes@, st1, c.nodes@.len() as int),
        }
    }
}

/// All enclosing-element records of a unit sequence carry well-formed
/// metrics.
pub open spec fn nodes_metrics_wf(fs: Seq<Fragment>) -> bool {
    forall|i: int, j: int|
        #![trigger fs[i].inline_context->Some_0.nodes@[j]]
        0 <= i < fs.len() ==> match fs[i].inline_context {
            Option::Some(c) => 0 <= j < c.nodes@.len() ==> c.nodes@[j].metrics.wf(),
            Option::None => true,
        }
}

/// Flows for inline layout.
pub struct InlineFlow {
    /// The shared, immutable text runs the units reference.
    pub runs: Vec<TextRun>,
    /// All inline units; several units may correspond to one element.
    pub fragments: InlineFragments,
    /// The committed lines of the last layout pass: disjoint ascending
    /// ranges into `fragments`, with positioning metadata.
    pub lines: Vec<Line>,
    /// The minimum metrics of each line, from line height and font style.
    pub minimum_line_metrics: LineMetrics,
    /// The indentation of the first line, from the block parent.
    pub first_line_indentation: i64,
    /// The inline size of the containing block.
    pub available_inline_size: i64,
    /// The alignment of each line's content.
    pub text_align: TextAlign,
    /// Whether justification is enabled by style.
    pub text_justify: TextJustify,
    /// The paragraph's base bidi embedding level.
    pub para_level: u8,
    /// The flow's own block extent after the last layout pass: the bottom
    /// of the last line holding a non-hypothetical unit, or zero.
    pub block_size: i64,
}

impl InlineFlow {
    pub open spec fn wf(self) -> bool {
        &&& runs_wf(self.runs@)
        &&& all_wf(self.fragments.fragments@, self.runs@)
        &&& self.minimum_line_metrics.wf()
        &&& 0 <= self.first_line_indentation <= MAX_SCALAR
        &&& 0 <= self.available_inline_size <= MAX_SCALAR
    }

    /// Whether the paragraph's base direction is left to right.
    pub open spec fn spec_is_ltr(self) -> bool {
        !crate::bidi::spec_level_is_rtl(self.para_level)
    }

    /// Creates a flow from a unit list and its run table, with zero
    /// minimum metrics and no indentation.
    pub fn from_fragments(fragments: InlineFragments, runs: Vec<TextRun>, para_level: u8) -> (r:
        InlineFlow)
        ensures
            r.fragments == fragments,
            r.runs == runs,
            r.lines@.len() == 0,
            r.minimum_line_metrics == (LineMetrics {
                space_above_baseline: 0,
                space_below_baseline: 0,
            }),
            r.first_line_indentation == 0,
            r.available_inline_size == 0,
            r.text_align is Start,
            r.text_justify is Auto,
            r.para_level == para_level,
    {
        InlineFlow {
            runs,
            fragments,
            lines: Vec::new(),
            minimum_line_metrics: LineMetrics { space_above_baseline: 0, space_below_baseline: 0 },
            first_line_indentation: 0,
            available_inline_size: 0,
            text_align: TextAlign::Start,
            text_justify: TextJustify::Auto,
            para_level,
            block_size: 0,
        }
    }

    /// The minimum line metrics of a unit sequence: the block's own
    /// envelope folded with every enclosing element's, top- and
    /// bottom-aligned boxes bucketed apart, then reconciled.
    pub open spec fn spec_minimum_line_metrics(fs: Seq<Fragment>, content_metrics: InlineMetrics,
        block_display: Display) -> LineMetrics {
        let base = if exists|i: int|
            0 <= i < fs.len() && (#[trigger] fs[i]).spec_is_text_or_replaced() {
            content_metrics
        } else {
            InlineMetrics { space_above_baseline: 0, space_below_baseline: 0, ascent: 0 }
        };
        let st0 = spec_update_minimum_metrics(
            MinimumMetricsState {
                line: LineMetrics {
                    space_above_baseline: 0,
                    space_below_baseline: (-(MAX_SCALAR as int)) as i64,
                },
                largest_top: 0,
                largest_bottom: 0,
            },
            base,
            block_display,
            VerticalAlign::Baseline,
        );
        let st = spec_fold_fragments(fs, st0, fs.len() as int);
        let sb0 = if st.line.space_below_baseline > 0 {
            st.line.space_below_baseline
        } else {
            0
        };
        let sa = if st.largest_bottom - sb0 > st.line.space_above_baseline {
            (st.largest_bottom - sb0) as i64
        } else {
            st.line.space_above_baseline
        };
        let sb = if st.largest_top - sa > st.line.space_below_baseline {
            (st.largest_top - sa) as i64
        } else {
            st.line.space_below_baseline
        };
        LineMetrics { space_above_baseline: sa, space_below_baseline: sb }
    }

    /// Computes the minimum metrics for each line from the block's own
    /// style record and every enclosing element of the given units. A
    /// flow of only hypothetical units takes up no space at all.
    /// `content_metrics` is the envelope derived from the block's font
    /// and line height, applied when any unit is text or replaced.
    #[verifier::rlimit(100)]
    #[verifier::spinoff_prover]
    pub fn minimum_line_metrics_for_fragments(fragments: &Vec<Fragment>, content_metrics:
        &InlineMetrics, block_display: Display, runs: &Vec<TextRun>) -> (r: LineMetrics)
        requires
            runs_wf(runs@),
            all_wf(fragments@, runs@),
            content_metrics.wf(),
            nodes_metrics_wf(fragments@),
        ensures
            (forall|i: int|
                0 <= i < fragments@.len() ==> (#[trigger] fragments@[i]).flags.is_hypothetical)
                ==> r == (LineMetrics { space_above_baseline: 0, space_below_baseline: 0 }),
            (exists|i: int|
                0 <= i < fragments@.len() && !(#[trigger] fragments@[i]).flags.is_hypothetical)
                ==> r == Self::spec_minimum_line_metrics(
                fragments@,
                *content_metrics,
                block_display,
            ),
    {
        // A flow of only hypothetical units is itself hypothetical and
        // takes up no space.
        let mut any_real: bool = false;
        let mut any_content: bool = false;
        let mut i: usize = 0;
        while i < fragments.len()
            invariant
                i <= fragments@.len(),
                any_real == exists|j: int|
                    0 <= j < i && !(#[trigger] fragments@[j]).flags.is_hypothetical,
                any_content == exists|j: int|
                    0 <= j < i && (#[trigger] fragments@[j]).spec_is_text_or_replaced(),
            decreases fragments@.len() - i,
        {
            if !fragments[i].flags.is_hypothetical {
                any_real = true;
            }
            if fragments[i].is_text_or_replaced() {
                any_content = true;
            }
            i = i + 1;
        }
        if !any_real {
            return LineMetrics { space_above_baseline: 0, space_below_baseline: 0 };
        }
        let base: InlineMetrics = if any_content {
            *content_metrics
        } else {
            InlineMetrics { space_above_baseline: 0, space_below_baseline: 0, ascent: 0 }
        };
        let mut st = MinimumMetricsState {
            line: LineMetrics { space_above_baseline: 0, space_below_baseline: -MAX_SCALAR },
            largest_top: 0,
            largest_bottom: 0,
        };
        st = update_minimum_metrics(st, &base, block_display, VerticalAlign::Baseline);
        let ghost st0 = st;
        let mut i: usize = 0;
        while i < fragments.len()
            invariant
                runs_wf(runs@),
                all_wf(fragments@, runs@),
                nodes_metrics_wf(fragments@),
                i <= fragments@.len(),
                st == spec_fold_fragments(fragments@, st0, i as int),
                minimum_state_ok(st),
            decreases fragments@.len() - i,
        {
            match &fragments[i].inline_context {
                Option::None => {},
                Option::Some(c) => {
                    let mut j: usize = 0;
                    let ghost st_entry = st;
                    while j < c.nodes.len()
                        invariant
                            j <= c.nodes@.len(),
                            st == spec_fold_nodes(c.nodes@, st_entry, j as int),
                            minimum_state_ok(st),
                            forall|k: int|
                                0 <= k < c.nodes@.len() ==> (#[trigger] c.nodes@[k].metrics).wf(),
                        decreases c.nodes@.len() - j,
                    {
                        let node = c.nodes[j];
                        st = update_minimum_metrics(
                            st,
                            &node.metrics,
                            node.display,
                            node.vertical_align,
                        );
                        j = j + 1;
                    }
                },
            }
            i = i + 1;
        }
        let sb0: i64 = if st.line.space_below_baseline > 0 {
            st.line.space_below_baseline
        } else {
            0
        };
        let sa: i64 = if st.largest_bottom - sb0 > st.line.space_above_baseline {
            st.largest_bottom - sb0
        } else {
            st.line.space_above_baseline
        };
        let sb: i64 = if st.largest_top - sa > st.line.space_below_baseline {
            st.largest_top - sa
        } else {
            st.line.space_below_baseline
        };
        LineMetrics { space_above_baseline: sa, space_below_baseline: sb }
    }

    /// Computes the minimum metrics for each line of this flow.
    pub fn minimum_line_metrics(&self, content_metrics: &InlineMetrics, block_display: Display)
        -> (r: LineMetrics)
        requires
            self.wf(),
            content_metrics.wf(),
            nodes_metrics_wf(self.fragments.fragments@),
        ensures
            (forall|i: int|
                0 <= i < self.fragments.fragments@.len() ==> (#[trigger] self.fragments.fragments@[i]).flags.is_hypothetical)
                ==> r == (LineMetrics { space_above_baseline: 0, space_below_baseline: 0 }),
            (exists|i: int|
                0 <= i < self.fragments.fragments@.len() && !(#[trigger] self.fragments.fragments@[i]).flags.is_hypothetical)
                ==> r == Self::spec_minimum_line_metrics(
                self.fragments.fragments@,
                *content_metrics,
                block_display,
            ),
    {
        Self::minimum_line_metrics_for_fragments(
            &self.fragments.fragments,
            content_metrics,
            block_display,
            &self.runs,
        )
    }


    /// The resolved bidi level of every unit of a sequence.
    pub open spec fn spec_levels(fs: Seq<Fragment>, para_level: u8) -> Seq<u8> {
        Seq::new(fs.len(), |i: int| crate::bidi::spec_fragment_level(fs[i], para_level))
    }

    /// The bottom of the last line holding a non-hypothetical unit, or
    /// zero when no such line exists.
    pub open spec fn spec_last_real_line_bottom(lines: Seq<Line>, fs: Seq<Fragment>) -> i64
        decreases lines.len(),
    {
        if lines.len() == 0 {
            0
        } else if Self::line_has_real_fragments(lines.last(), fs) {
            crate::geometry::au_clamp(
                lines.last().bounds.start.b + lines.last().bounds.size.block,
            )
        } else {
            Self::spec_last_real_line_bottom(lines.drop_last(), fs)
        }
    }

    /// The baseline offset of the last line holding a non-hypothetical
    /// unit: its bottom less its space below the baseline.
    pub open spec fn spec_last_real_baseline(lines: Seq<Line>, fs: Seq<Fragment>) -> Option<i64>
        decreases lines.len(),
    {
        if lines.len() == 0 {
            Option::None
        } else if Self::line_has_real_fragments(lines.last(), fs) {
            Option::Some(
                (crate::geometry::au_clamp(
                    lines.last().bounds.start.b + lines.last().bounds.size.block,
                ) - lines.last().metrics.space_below_baseline) as i64,
            )
        } else {
            Self::spec_last_real_baseline(lines.drop_last(), fs)
        }
    }

    /// One full layout pass: canonicalizes the unit sequence (undoing the
    /// previous pass's splits), breaks it into lines against the float
    /// snapshot, computes the bidi visual-run tables when right-to-left
    /// content is present, and resolves every unit's inline and block
    /// coordinates line by line. The committed units carry exactly the
    /// input content, the line ranges partition the final sequence, and
    /// no line exceeds its green zone except where the engine
    /// deliberately let it overflow.
    #[verifier::rlimit(100)]
    #[verifier::spinoff_prover]
    pub fn assign_block_size(&mut self, float_context: FloatState)
        requires
            old(self).wf(),
            float_context.wf(),
        ensures
            final(self).wf(),
            final(self).runs == old(self).runs,
            final(self).para_level == old(self).para_level,
            final(self).minimum_line_metrics == old(self).minimum_line_metrics,
            seq_content(final(self).fragments.fragments@, final(self).runs@) == seq_content(
                old(self).fragments.fragments@,
                old(self).runs@,
            ),
            seq_weight(final(self).fragments.fragments@) == seq_weight(
                old(self).fragments.fragments@,
            ),
            LineBreaker::lines_cover(
                final(self).lines@,
                final(self).fragments.fragments@.len() as int,
            ),
            forall|k: int|
                0 <= k < final(self).lines@.len() ==> LineBreaker::line_fits(
                    #[trigger] final(self).lines@[k],
                ) && LineBreaker::line_dims_ok(final(self).lines@[k]),
            ({
                let lv = Self::spec_levels(final(self).fragments.fragments@, old(self).para_level);
                let rtl = exists|i: int|
                    0 <= i < lv.len() && crate::bidi::spec_level_is_rtl(#[trigger] lv[i]);
                &&& rtl ==> forall|k: int|
                    0 <= k < final(self).lines@.len()
                        ==> match (#[trigger] final(self).lines@[k]).visual_runs {
                        Option::Some(v) => crate::bidi::runs_partition(
                            v@,
                            lv,
                            final(self).lines@[k].range.begin as int,
                            final(self).lines@[k].range.spec_end(),
                        ),
                        Option::None => false,
                    }
                &&& !rtl ==> forall|k: int|
                    0 <= k < final(self).lines@.len() ==> (#[trigger] final(self).lines@[k]).visual_runs is None
            }),
            final(self).block_size == Self::spec_last_real_line_bottom(
                final(self).lines@,
                final(self).fragments.fragments@,
            ),
    {
        let ghost in_content = seq_content(self.fragments.fragments@, self.runs@);
        // Pluck the units out of the flow and canonicalize them, undoing
        // splits and truncations from previous passes.
        let mut taken: Vec<Fragment> = Vec::new();
        std::mem::swap(&mut taken, &mut self.fragments.fragments);
        let canonical = canonicalize_fragments(taken, &self.runs);
        // Break the canonical sequence into lines.
        let scanner = LineBreaker::new(
            float_context,
            self.first_line_indentation,
            &self.minimum_line_metrics,
            self.available_inline_size,
        );
        let scanned = scanner.scan_for_lines(canonical, &self.runs);
        let out_frags = scanned.0;
        let out_lines = scanned.1;
        let ghost out0 = out_frags@;
        let ghost lines0 = out_lines@;
        // Perform bidirectional reordering when any unit is right to left.
        let levels = crate::bidi::build_levels(&out_frags, self.para_level);
        let mut lines2: Vec<Line> = Vec::new();
        let any_rtl: bool = crate::bidi::has_rtl(&levels);
        if any_rtl {
            let mut k: usize = 0;
            while k < out_lines.len()
                invariant
                    out_lines@ == lines0,
                    levels@.len() == out0.len(),
                    LineBreaker::lines_cover(lines0, out0.len() as int),
                    forall|m: int|
                        0 <= m < lines0.len() ==> LineBreaker::line_dims_ok(#[trigger] lines0[m])
                            && LineBreaker::line_fits(lines0[m]),
                    k <= lines0.len(),
                    lines2@.len() == k,
                    forall|m: int| 0 <= m < k ==> (#[trigger] lines2@[m]).range == lines0[m].range,
                    forall|m: int|
                        0 <= m < k ==> LineBreaker::line_dims_ok(#[trigger] lines2@[m])
                            && LineBreaker::line_fits(lines2@[m]),
                    forall|m: int|
                        0 <= m < k ==> match (#[trigger] lines2@[m]).visual_runs {
                            Option::Some(v) => crate::bidi::runs_partition(
                                v@,
                                levels@,
                                lines2@[m].range.begin as int,
                                lines2@[m].range.spec_end(),
                            ),
                            Option::None => false,
                        },
                decreases lines0.len() - k,
            {
                proof {
                    crate::breaker::lemma_lines_cover_bounds(lines0, out0.len() as int, k as int);
                }
                let l = &out_lines[k];
                let vruns = crate::bidi::compute_visual_runs(&levels, l.range);
                lines2.push(
                    Line {
                        range: l.range,
                        visual_runs: Option::Some(vruns),
                        bounds: l.bounds,
                        green_zone: l.green_zone,
                        minimum_metrics: l.minimum_metrics,
                        metrics: l.metrics,
                        inline_overflow: l.inline_overflow,
                    },
                );
                k = k + 1;
            }
        } else {
            lines2 = out_lines;
        }
        proof {
            crate::breaker::lemma_lines_cover_same_ranges(lines0, lines2@, out0.len() as int);
        }
        let ghost lines_f = lines2@;
        // Resolve final coordinates, line by line.
        self.fragments.fragments = out_frags;
        let is_ltr: bool = !crate::bidi::level_is_rtl(self.para_level);
        let line_count: usize = lines2.len();
        let mut k: usize = 0;
        while k < line_count
            invariant
                runs_wf(self.runs@),
                all_wf(self.fragments.fragments@, self.runs@),
                self.minimum_line_metrics.wf(),
                0 <= self.first_line_indentation <= MAX_SCALAR,
                0 <= self.available_inline_size <= MAX_SCALAR,
                lines2@ == lines_f,
                line_count == lines_f.len(),
                k <= line_count,
                self.fragments.fragments@.len() == out0.len(),
                LineBreaker::lines_cover(lines_f, out0.len() as int),
                forall|m: int|
                    0 <= m < lines_f.len() ==> LineBreaker::line_dims_ok(#[trigger] lines_f[m])
                        && LineBreaker::line_fits(lines_f[m]),
                forall|m: int|
                    0 <= m < lines_f.len() ==> match (#[trigger] lines_f[m]).visual_runs {
                        Option::Some(v) => crate::bidi::runs_partition(
                            v@,
                            levels@,
                            lines_f[m].range.begin as int,
                            lines_f[m].range.spec_end(),
                        ),
                        Option::None => true,
                    },
                forall|i: int|
                    0 <= i < out0.len() ==> (#[trigger] self.fragments.fragments@[i]).content(
                        self.runs@,
                    ) == out0[i].content(self.runs@) && crate::fragment::spec_weight(
                        self.fragments.fragments@[i],
                    ) == crate::fragment::spec_weight(out0[i])
                        && crate::bidi::spec_fragment_level(
                        self.fragments.fragments@[i],
                        self.para_level,
                    ) == crate::bidi::spec_fragment_level(out0[i], self.para_level),
                forall|i: int|
                    (k < lines_f.len() && lines_f[k as int].range.begin <= i < out0.len())
                        ==> #[trigger] self.fragments.fragments@[i] == out0[i],
                crate::fragment::all_pristine(out0),
                seq_content(out0, self.runs@) == in_content,
                seq_weight(out0) == seq_weight(old(self).fragments.fragments@),
                self.runs == old(self).runs,
                self.para_level == old(self).para_level,
                self.minimum_line_metrics == old(self).minimum_line_metrics,
                levels@.len() == out0.len(),
                forall|i: int|
                    0 <= i < out0.len() ==> levels@[i] == crate::bidi::spec_fragment_level(
                        #[trigger] out0[i],
                        self.para_level,
                    ),
                any_rtl == exists|i: int|
                    0 <= i < levels@.len() && crate::bidi::spec_level_is_rtl(
                        #[trigger] levels@[i],
                    ),
                any_rtl ==> forall|m: int|
                    0 <= m < lines_f.len() ==> match (#[trigger] lines_f[m]).visual_runs {
                        Option::Some(v) => crate::bidi::runs_partition(
                            v@,
                            levels@,
                            lines_f[m].range.begin as int,
                            lines_f[m].range.spec_end(),
                        ),
                        Option::None => false,
                    },
                !any_rtl ==> forall|m: int|
                    0 <= m < lines_f.len() ==> (#[trigger] lines_f[m]).visual_runs is None,
            decreases line_count - k,
        {
            proof {
                crate::breaker::lemma_lines_cover_bounds(lines_f, out0.len() as int, k as int);
                if k + 1 < line_count {
                    crate::breaker::lemma_lines_cover_bounds(
                        lines_f,
                        out0.len() as int,
                        k + 1,
                    );
                }
            }
            let line = &lines2[k];
            proof {
                match &line.visual_runs {
                    Option::Some(v) => {
                        assert forall|m: int| 0 <= m < v@.len() implies {
                            let vr = #[trigger] v@[m];
                            &&& vr.range.wf()
                            &&& line.range.begin <= vr.range.begin
                            &&& vr.range.spec_end() <= line.range.spec_end()
                        } by {
                            crate::bidi::lemma_runs_partition_bounds(
                                v@,
                                levels@,
                                line.range.begin as int,
                                line.range.spec_end(),
                                m,
                            );
                        }
                    },
                    Option::None => {},
                }
            }
            let indentation: i64 = if k == 0 {
                self.first_line_indentation
            } else {
                0
            };
            let ghost before_line = self.fragments.fragments@;
            crate::position::set_inline_fragment_positions(
                &mut self.fragments,
                &self.runs,
                line,
                self.text_align,
                indentation,
                k + 1 == line_count,
                is_ltr,
                self.text_justify,
                self.para_level,
            );
            let ghost mid = self.fragments.fragments@;
            crate::position::set_block_fragment_positions(&mut self.fragments, &self.runs, line);
            proof {
                assert forall|i: int| 0 <= i < out0.len() implies (#[trigger] self.fragments.fragments@[i]).content(self.runs@) == out0[i].content(self.runs@) && crate::fragment::spec_weight(self.fragments.fragments@[i]) == crate::fragment::spec_weight(out0[i]) && crate::bidi::spec_fragment_level(self.fragments.fragments@[i], self.para_level) == crate::bidi::spec_fragment_level(out0[i], self.para_level) by {
                    assert(before_line[i].content(self.runs@) == out0[i].content(self.runs@));
                    if line.range.begin <= i < line.range.spec_end() {
                        assert(mid[i].content(self.runs@) == before_line[i].content(self.runs@));
                        assert(self.fragments.fragments@[i].content(self.runs@) == mid[i].content(
                            self.runs@,
                        ));
                        assert(crate::fragment::spec_weight(mid[i])
                            == crate::fragment::spec_weight(before_line[i]));
                        assert(crate::fragment::spec_weight(self.fragments.fragments@[i])
                            == crate::fragment::spec_weight(mid[i]));
                        assert(crate::bidi::spec_fragment_level(mid[i], self.para_level)
                            == crate::bidi::spec_fragment_level(
                            before_line[i],
                            self.para_level,
                        ));
                        assert(self.fragments.fragments@[i].specific == mid[i].specific
                            && self.fragments.fragments@[i].bidi_level == mid[i].bidi_level);
                    } else {
                        assert(self.fragments.fragments@[i] == before_line[i]);
                    }
                }
            }
            k = k + 1;
        }
        self.lines = lines2;
        proof {
            crate::fragment::lemma_seq_content_pointwise(
                self.fragments.fragments@,
                out0,
                self.runs@,
            );
            crate::fragment::lemma_seq_weight_pointwise(self.fragments.fragments@, out0);
            assert(Self::spec_levels(self.fragments.fragments@, self.para_level) =~= levels@);
        }
        let bottom: i64 = last_real_line_bottom(&self.lines, &self.fragments.fragments);
        self.block_size = bottom;
    }

    /// The baseline offset of the last line that does not consist
    /// entirely of hypothetical boxes, measured from the flow origin —
    /// the line's bottom less its space below the baseline — or nothing
    /// when no such line exists.
    pub fn baseline_offset_of_last_line(&self) -> (r: Option<i64>)
        requires
            LineBreaker::lines_cover(self.lines@, self.fragments.fragments@.len() as int),
            forall|k: int|
                0 <= k < self.lines@.len() ==> LineBreaker::line_dims_ok(#[trigger] self.lines@[k]),
        ensures
            r == Self::spec_last_real_baseline(self.lines@, self.fragments.fragments@),
    {
        let ghost all = self.lines@;
        let ghost fs = self.fragments.fragments@;
        proof {
            assert(all.subrange(0, all.len() as int) =~= all);
        }
        let mut k: usize = self.lines.len();
        while k > 0
            invariant
                all == self.lines@,
                fs == self.fragments.fragments@,
                k <= all.len(),
                LineBreaker::lines_cover(all, fs.len() as int),
                forall|m: int|
                    0 <= m < all.len() ==> LineBreaker::line_dims_ok(#[trigger] all[m]),
                Self::spec_last_real_baseline(all, fs) == Self::spec_last_real_baseline(
                    all.subrange(0, k as int),
                    fs,
                ),
            decreases k,
        {
            k = k - 1;
            proof {
                crate::breaker::lemma_lines_cover_bounds(all, fs.len() as int, k as int);
                assert(all.subrange(0, k + 1).last() == all[k as int]);
                assert(all.subrange(0, k + 1).drop_last() =~= all.subrange(0, k as int));
            }
            let line = &self.lines[k];
            let mut idx: usize = line.range.begin;
            let end: usize = line.range.begin + line.range.length;
            while idx < end
                invariant
                    fs == self.fragments.fragments@,
                    all == self.lines@,
                    k < all.len(),
                    Self::spec_last_real_baseline(all, fs) == Self::spec_last_real_baseline(
                        all.subrange(0, k + 1),
                        fs,
                    ),
                    all.subrange(0, k + 1).last() == all[k as int],
                    line == &self.lines@[k as int],
                    line.range.begin <= idx <= end,
                    end == line.range.spec_end(),
                    end <= fs.len(),
                    LineBreaker::line_dims_ok(*line),
                    forall|m: int|
                        line.range.begin <= m < idx ==> (#[trigger] fs[m]).flags.is_hypothetical,
                decreases end - idx,
            {
                if !self.fragments.fragments[idx].flags.is_hypothetical {
                    proof {
                        assert(Self::line_has_real_fragments(*line, fs));
                        assert(all.subrange(0, k + 1).len() > 0);
                        assert(Self::spec_last_real_baseline(all.subrange(0, k + 1), fs)
                            == Option::Some(
                            (crate::geometry::au_clamp(
                                line.bounds.start.b + line.bounds.size.block,
                            ) - line.metrics.space_below_baseline) as i64,
                        ));
                    }
                    return Option::Some(
                        crate::geometry::au_add(line.bounds.start.b, line.bounds.size.block)
                            - line.metrics.space_below_baseline,
                    );
                }
                idx = idx + 1;
            }
            proof {
                assert(!Self::line_has_real_fragments(all[k as int], fs));
            }
        }
        proof {
            assert(all.subrange(0, 0) =~= Seq::<Line>::empty());
        }
        Option::None
    }

    /// A line holds at least one unit that is not a hypothetical box.
    pub open spec fn line_has_real_fragments(l: Line, fs: Seq<Fragment>) -> bool {
        exists|m: int|
            l.range.begin <= m < l.range.spec_end() && !(#[trigger] fs[m]).flags.is_hypothetical
    }
}

/// Whether a metrics state is within the ranges the fold can produce.
pub open spec fn minimum_state_ok(st: MinimumMetricsState) -> bool {
    &&& 0 <= st.line.space_above_baseline <= MAX_SCALAR
    &&& -MAX_SCALAR <= st.line.space_below_baseline <= MAX_SCALAR
    &&& 0 <= st.largest_top <= 2 * MAX_SCALAR
    &&& 0 <= st.largest_bottom <= 2 * MAX_SCALAR
}

/// Folds one style record into the minimum-metrics state.
fn update_minimum_metrics(st: MinimumMetricsState, m: &InlineMetrics, display: Display, va:
    VerticalAlign) -> (r: MinimumMetricsState)
    requires
        m.wf(),
        minimum_state_ok(st),
    ensures
        r == spec_update_minimum_metrics(st, *m, display, va),
        minimum_state_ok(r),
{
    match va {
        VerticalAlign::Top => {
            if display.stacks_outside_baseline() && m.space_above_baseline >= 0 {
                let total: i64 = m.space_above_baseline + m.space_below_baseline;
                MinimumMetricsState {
                    line: st.line,
                    largest_top: if total > st.largest_top {
                        total
                    } else {
                        st.largest_top
                    },
                    largest_bottom: st.largest_bottom,
                }
            } else {
                MinimumMetricsState {
                    line: st.line.new_metrics_for_fragment(m),
                    largest_top: st.largest_top,
                    largest_bottom: st.largest_bottom,
                }
            }
        },
        VerticalAlign::Bottom => {
            if display.stacks_outside_baseline() && m.space_below_baseline >= 0 {
                let total: i64 = m.space_above_baseline + m.space_below_baseline;
                MinimumMetricsState {
                    line: st.line,
                    largest_top: st.largest_top,
                    largest_bottom: if total > st.largest_bottom {
                        total
                    } else {
                        st.largest_bottom
                    },
                }
            } else {
                MinimumMetricsState {
                    line: st.line.new_metrics_for_fragment(m),
                    largest_top: st.largest_top,
                    largest_bottom: st.largest_bottom,
                }
            }
        },
        _ => {
            MinimumMetricsState {
                line: st.line.new_metrics_for_fragment(m),
                largest_top: st.largest_top,
                largest_bottom: st.largest_bottom,
            }
        },
    }
}


/// The bottom of the last line holding a non-hypothetical unit, or zero.
fn last_real_line_bottom(lines: &Vec<Line>, fragments: &Vec<Fragment>) -> (r: i64)
    requires
        LineBreaker::lines_cover(lines@, fragments@.len() as int),
        forall|k: int| 0 <= k < lines@.len() ==> LineBreaker::line_dims_ok(#[trigger] lines@[k]),
    ensures
        r == InlineFlow::spec_last_real_line_bottom(lines@, fragments@),
{
    let ghost all = lines@;
    let ghost fs = fragments@;
    proof {
        assert(all.subrange(0, all.len() as int) =~= all);
    }
    let mut k: usize = lines.len();
    while k > 0
        invariant
            all == lines@,
            fs == fragments@,
            k <= all.len(),
            LineBreaker::lines_cover(all, fs.len() as int),
            forall|m: int| 0 <= m < all.len() ==> LineBreaker::line_dims_ok(#[trigger] all[m]),
            InlineFlow::spec_last_real_line_bottom(all, fs)
                == InlineFlow::spec_last_real_line_bottom(all.subrange(0, k as int), fs),
        decreases k,
    {
        k = k - 1;
        proof {
            crate::breaker::lemma_lines_cover_bounds(all, fs.len() as int, k as int);
            assert(all.subrange(0, k + 1).last() == all[k as int]);
            assert(all.subrange(0, k + 1).drop_last() =~= all.subrange(0, k as int));
        }
        let line = &lines[k];
        let mut idx: usize = line.range.begin;
        let end: usize = line.range.begin + line.range.length;
        while idx < end
            invariant
                fs == fragments@,
                all == lines@,
                k < all.len(),
                InlineFlow::spec_last_real_line_bottom(all, fs)
                    == InlineFlow::spec_last_real_line_bottom(all.subrange(0, k + 1), fs),
                all.subrange(0, k + 1).last() == all[k as int],
                line == &lines@[k as int],
                line.range.begin <= idx <= end,
                end == line.range.spec_end(),
                end <= fs.len(),
                LineBreaker::line_dims_ok(*line),
                forall|m: int|
                    line.range.begin <= m < idx ==> (#[trigger] fs[m]).flags.is_hypothetical,
            decreases end - idx,
        {
            if !fragments[idx].flags.is_hypothetical {
                proof {
                    assert(InlineFlow::line_has_real_fragments(*line, fs));
                    assert(all.subrange(0, k + 1).len() > 0);
                    assert(InlineFlow::spec_last_real_line_bottom(all.subrange(0, k + 1), fs)
                        == crate::geometry::au_clamp(
                        line.bounds.start.b + line.bounds.size.block,
                    ));
                }
                return crate::geometry::au_add(line.bounds.start.b, line.bounds.size.block);
            }
            idx = idx + 1;
        }
        proof {
            assert(!InlineFlow::line_has_real_fragments(all[k as int], fs));
        }
    }
    proof {
        assert(all.subrange(0, 0) =~= Seq::<Line>::empty());
    }
    0
}

} // verus!
