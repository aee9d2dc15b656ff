//! The line-breaking engine: a single greedy left-to-right pass with
//! bounded backtracking. Units are drawn from a work list first and the
//! canonicalized input second; each is placed on the pending line,
//! splitting, deferring or flushing as needed, in cooperation with the
//! float oracle. Content is conserved: apart from synthesized ellipsis
//! placeholders, the committed units carry exactly the input content.

use vstd::prelude::*;
use crate::floats::{FloatState, PlacementInfo};
use crate::fragment::{all_pristine, all_wf, pristine_spacing, seq_content, seq_content_rev, seq_mass, seq_weight, spec_weight, Fragment};
use crate::fragment_range::FragmentRange;
use crate::geometry::{au_add, au_clamp, au_ok, AU_LIMIT, MAX_SCALAR, UNBOUNDED_BLOCK};
use crate::line::Line;
use crate::metrics::LineMetrics;
use crate::style_data::{TextWrapMode, WhiteSpaceCollapse};
use crate::text_run::{runs_wf, TextRun};

verus! {

/// Whether the line must be committed right after a unit is placed.
#[derive(Clone, Copy, PartialEq, Eq, Structural, Debug)]
pub enum LineFlushMode {
    No,
    Flush,
}

/// The engine's working state for one invocation: the canonicalized input
/// being consumed, a deferral work list, the output unit list, the pending
/// line, and the committed lines.
pub struct LineBreaker {
    /// The immutable float-state snapshot.
    pub floats: FloatState,
    /// The units still to be placed, canonicalized input and deferrals
    /// alike; the next to place is last.
    pub work_list: Vec<Fragment>,
    /// The output unit list; the pending line's units are its suffix.
    pub new_fragments: Vec<Fragment>,
    /// The line being built.
    pub pending_line: Line,
    /// The committed lines.
    pub lines: Vec<Line>,
    /// The index of the last known good line-breaking opportunity: the
    /// pending line may be cut just before this unit.
    pub last_known_line_breaking_opportunity: Option<usize>,
    /// The current position in the block direction.
    pub cur_b: i64,
    /// The indentation of the first line.
    pub first_line_indentation: i64,
    /// The minimum metrics of every line, from the style.
    pub minimum_metrics: LineMetrics,
    /// The inline size of the containing block.
    pub available_inline_size: i64,
}

impl LineBreaker {
    /// The units committed to the pending line.
    pub open spec fn pending_fragments(self) -> Seq<Fragment> {
        self.new_fragments@.subrange(
            self.pending_line.range.begin as int,
            self.new_fragments@.len() as int,
        )
    }

    /// The content weight still to be placed (pending line included,
    /// since backtracking can reopen it).
    pub open spec fn outstanding_mass(self) -> int {
        seq_mass(self.pending_fragments()) + seq_mass(self.work_list@)
    }

    /// How many units wait in the work list.
    pub open spec fn remaining_count(self) -> int {
        self.work_list@.len() as int
    }

    /// The content held by the engine, in output order: committed units,
    /// then the work list from its top, then the remaining input.
    pub open spec fn held_content(self, runs: Seq<TextRun>) -> Seq<u8> {
        seq_content(self.new_fragments@, runs) + seq_content_rev(self.work_list@, runs)
    }

    /// The content held by the engine while `f` is in hand, about to be
    /// placed: committed units, then `f`, then the work list and input.
    pub open spec fn held_content_with(self, f: Fragment, runs: Seq<TextRun>) -> Seq<u8> {
        seq_content(self.new_fragments@, runs) + f.content(runs) + seq_content_rev(
            self.work_list@,
            runs,
        )
    }

    /// The conserved bulk held by the engine: committed units plus the
    /// work list. The engine neither creates nor loses bulk; synthesized
    /// placeholders weigh nothing.
    pub open spec fn held_weight(self) -> int {
        seq_weight(self.new_fragments@) + seq_weight(self.work_list@)
    }

    /// Dimension sanity of one line record.
    pub open spec fn line_dims_ok(l: Line) -> bool {
        &&& 0 <= l.bounds.start.i <= MAX_SCALAR
        &&& 0 <= l.bounds.start.b <= AU_LIMIT
        &&& au_ok(l.bounds.size.inline)
        &&& 0 <= l.bounds.size.block <= 4 * MAX_SCALAR
        &&& 0 <= l.green_zone.inline <= MAX_SCALAR
        &&& 0 <= l.green_zone.block <= UNBOUNDED_BLOCK
        &&& l.metrics.wf()
        &&& l.minimum_metrics.wf()
    }

    /// A committed line never exceeds its green zone on the block axis,
    /// nor on the inline axis unless the engine deliberately let it
    /// overflow.
    pub open spec fn line_fits(l: Line) -> bool {
        &&& l.bounds.size.block <= l.green_zone.block
        &&& (!l.inline_overflow ==> l.bounds.size.inline <= l.green_zone.inline)
    }

    /// The committed lines' ranges are nonempty, contiguous, ascending,
    /// and cover exactly `[0, upto)`.
    pub open spec fn lines_cover(lines: Seq<Line>, upto: int) -> bool
        decreases lines.len(),
    {
        if lines.len() == 0 {
            upto == 0
        } else {
            &&& lines.last().range.length > 0
            &&& lines.last().range.wf()
            &&& lines.last().range.spec_end() == upto
            &&& Self::lines_cover(lines.drop_last(), lines.last().range.begin as int)
        }
    }

    /// The engine's working invariant.
    pub open spec fn inv(self, runs: Seq<TextRun>) -> bool {
        &&& runs_wf(runs)
        &&& all_wf(self.work_list@, runs)
        &&& all_wf(self.new_fragments@, runs)
        &&& all_pristine(self.work_list@)
        &&& all_pristine(self.new_fragments@)
        &&& self.pending_line.range.begin + self.pending_line.range.length
            == self.new_fragments@.len()
        &&& Self::lines_cover(self.lines@, self.pending_line.range.begin as int)
        &&& forall|i: int|
            0 <= i < self.lines@.len() ==> Self::line_dims_ok(#[trigger] self.lines@[i])
                && Self::line_fits(self.lines@[i]) && self.lines@[i].visual_runs is None
        &&& Self::line_dims_ok(self.pending_line)
        &&& Self::line_fits(self.pending_line)
        &&& (self.pending_line.range.length == 0 ==> self.pending_line.bounds.size.inline == 0
            && self.pending_line.bounds.size.block == 0 && self.pending_line.metrics
            == self.minimum_metrics && !self.pending_line.inline_overflow)
        &&& (self.pending_line.range.length > 0
            ==> !self.new_fragments@[self.pending_line.range.begin as int].flags.is_ellipsis)
        &&& (match self.last_known_line_breaking_opportunity {
            Option::Some(i) => self.pending_line.range.begin < i <= self.pending_line.range.begin
                + self.pending_line.range.length,
            Option::None => true,
        })
        &&& self.pending_line.visual_runs is None
        &&& 0 <= self.cur_b <= AU_LIMIT
        &&& 0 <= self.first_line_indentation <= MAX_SCALAR
        &&& self.minimum_metrics.wf()
        &&& self.pending_line.minimum_metrics == self.minimum_metrics
        &&& 0 <= self.available_inline_size <= MAX_SCALAR
        &&& self.floats.wf()
    }

    /// True when the pending line has no units yet.
    pub fn pending_line_is_empty(&self) -> (r: bool)
        ensures
            r == (self.pending_line.range.length == 0),
    {
        self.pending_line.range.length == 0
    }

    /// The indentation that applies before the unit about to be placed:
    /// the first-line indentation at the very start, nothing afterwards.
    pub open spec fn spec_indentation_for_pending_fragment(self) -> i64 {
        if self.pending_line.range.length == 0 && self.lines@.len() == 0 {
            self.first_line_indentation
        } else {
            0
        }
    }

    pub fn indentation_for_pending_fragment(&self) -> (r: i64)
        ensures
            r == self.spec_indentation_for_pending_fragment(),
    {
        if self.pending_line.range.length == 0 && self.lines.len() == 0 {
            self.first_line_indentation
        } else {
            0
        }
    }

    /// Reinitializes the pending line to blank data anchored at the end
    /// of the committed units.
    fn reset_line(&mut self)
        requires
            old(self).minimum_metrics.wf(),
        ensures
            final(self).pending_line.range.begin == final(self).new_fragments@.len(),
            final(self).pending_line.range.length == 0,
            final(self).pending_line.bounds.size.inline == 0,
            final(self).pending_line.bounds.size.block == 0,
            final(self).pending_line.bounds.start.i == 0,
            final(self).pending_line.bounds.start.b == 0,
            final(self).pending_line.green_zone.inline == 0,
            final(self).pending_line.green_zone.block == 0,
            final(self).pending_line.metrics == old(self).minimum_metrics,
            final(self).pending_line.minimum_metrics == old(self).minimum_metrics,
            !final(self).pending_line.inline_overflow,
            final(self).pending_line.visual_runs is None,
            final(self).last_known_line_breaking_opportunity is None,
            *final(self) == (LineBreaker {
                pending_line: final(self).pending_line,
                last_known_line_breaking_opportunity: Option::None,
                ..*old(self)
            }),
    {
        self.last_known_line_breaking_opportunity = Option::None;
        let mut fresh = Line::new(&self.minimum_metrics);
        fresh.range = FragmentRange { begin: self.new_fragments.len(), length: 0 };
        self.pending_line = fresh;
    }

    /// Removes trailing white space from the pending line's last unit
    /// where collapsing is permitted, adjusting the recorded inline
    /// extent accordingly. Done right before the line is committed.
    #[verifier::rlimit(100)]
    #[verifier::spinoff_prover]
    fn strip_trailing_whitespace_from_pending_line_if_necessary(&mut self, runs: &Vec<TextRun>)
        requires
            old(self).inv(runs@),
            old(self).pending_line.range.length > 0,
        ensures
            final(self).inv(runs@),
            final(self).held_content(runs@) == old(self).held_content(runs@),
            final(self).held_weight() == old(self).held_weight(),
            seq_content(final(self).new_fragments@, runs@) == seq_content(
                old(self).new_fragments@,
                runs@,
            ),
            ({
                let fs0 = old(self).new_fragments@;
                let last = fs0.len() - 1;
                let stripped = fs0[last].spec_stripped_trailing(runs@);
                &&& final(self).new_fragments@ == fs0.update(last, stripped)
                &&& final(self).pending_line.bounds.size.inline == crate::geometry::au_clamp(
                    old(self).pending_line.bounds.size.inline + stripped.inline_size
                        - fs0[last].inline_size,
                )
            }),
            final(self).outstanding_mass() == old(self).outstanding_mass(),
            final(self).remaining_count() == old(self).remaining_count(),
            final(self).pending_line.range == old(self).pending_line.range,
            final(self).pending_line.bounds.start == old(self).pending_line.bounds.start,
            final(self).pending_line.bounds.size.block == old(self).pending_line.bounds.size.block,
            final(self).pending_line.green_zone == old(self).pending_line.green_zone,
            final(self).pending_line.metrics == old(self).pending_line.metrics,
            final(self).pending_line.minimum_metrics == old(self).pending_line.minimum_metrics,
            final(self).pending_line.inline_overflow == old(self).pending_line.inline_overflow,
            final(self).pending_line.visual_runs == old(self).pending_line.visual_runs,
            final(self).new_fragments@.len() == old(self).new_fragments@.len(),
            final(self).lines@ == old(self).lines@,
            final(self).cur_b == old(self).cur_b,
            final(self).work_list@ == old(self).work_list@,
            final(self).minimum_metrics == old(self).minimum_metrics,
            final(self).last_known_line_breaking_opportunity
                == old(self).last_known_line_breaking_opportunity,
    {
        let ghost old_frags = self.new_fragments@;
        let ghost old_pending = self.pending_fragments();
        let last_index: usize = self.new_fragments.len() - 1;
        let mut f: Fragment = match self.new_fragments.pop() {
            Option::Some(f) => f,
            Option::None => { unreached() },
        };
        proof {
            assert(f == old_frags[last_index as int]);
            assert(f.wf(runs@));
            f.lemma_inline_size_bounds(runs@);
        }
        let old_size: i64 = f.inline_size;
        f.strip_trailing_whitespace_if_necessary(runs);
        proof {
            f.lemma_inline_size_bounds(runs@);
            let of = old_frags[last_index as int];
            if of.white_space is Collapse && of.specific is Text {
                let t = of.text_slice();
                let k = crate::text_run::trailing_separator_run(
                    runs@[t.run as int],
                    t.vis_begin(),
                    t.vis_end(),
                );
                crate::text_run::lemma_trailing_separator_run_bounds(
                    runs@[t.run as int],
                    t.vis_begin(),
                    t.vis_end(),
                );
                crate::text_run::lemma_weighted_advance_narrow(
                    runs@[t.run as int],
                    t.vis_begin(),
                    t.vis_begin(),
                    t.vis_end() - k,
                    t.vis_end(),
                    t.extra_word_spacing as int,
                );
            }
            assert(f.inline_size <= old_size);
        }
        let delta: i64 = f.inline_size - old_size;
        self.new_fragments.push(f);
        self.pending_line.bounds.size.inline = au_add(self.pending_line.bounds.size.inline, delta);
        proof {
            assert(self.new_fragments@ =~= old_frags.update(last_index as int, f));
            assert(f.content(runs@) == old_frags[last_index as int].content(runs@));
            assert(f.spec_mass() == old_frags[last_index as int].spec_mass());
            crate::fragment::lemma_seq_content_update(old_frags, runs@, last_index as int, f);
            crate::fragment::lemma_seq_mass_update(old_frags, last_index as int, f);
            crate::fragment::lemma_seq_weight_update(old_frags, last_index as int, f);
            let begin = self.pending_line.range.begin as int;
            assert(self.pending_fragments() =~= old_pending.update(
                (last_index as int) - begin,
                f,
            ));
            crate::fragment::lemma_seq_mass_update(old_pending, (last_index as int) - begin, f);
        }
    }

    /// Commits the pending line to the line list: strips trailing white
    /// space from its last unit, records the line, advances the block
    /// cursor, and opens a fresh pending line.
    #[verifier::rlimit(100)]
    #[verifier::spinoff_prover]
    pub fn flush_current_line(&mut self, runs: &Vec<TextRun>)
        requires
            old(self).inv(runs@),
            old(self).pending_line.range.length > 0,
        ensures
            final(self).inv(runs@),
            final(self).held_content(runs@) == old(self).held_content(runs@),
            final(self).held_weight() == old(self).held_weight(),
            seq_content(final(self).new_fragments@, runs@) == seq_content(
                old(self).new_fragments@,
                runs@,
            ),
            final(self).outstanding_mass() + 1 <= old(self).outstanding_mass(),
            final(self).outstanding_mass() == old(self).outstanding_mass() - seq_mass(
                old(self).pending_fragments(),
            ),
            seq_mass(old(self).pending_fragments()) >= 1,
            final(self).remaining_count() == old(self).remaining_count(),
            final(self).pending_line.range.length == 0,
            final(self).pending_line.range.begin == old(self).new_fragments@.len(),
            final(self).lines@.len() == old(self).lines@.len() + 1,
            ({
                let fs0 = old(self).new_fragments@;
                let stripped = fs0[fs0.len() - 1].spec_stripped_trailing(runs@);
                let p0 = old(self).pending_line;
                let committed = Line {
                    range: p0.range,
                    visual_runs: Option::None,
                    bounds: crate::geometry::LogicalRect {
                        start: p0.bounds.start,
                        size: crate::geometry::LogicalSize {
                            inline: crate::geometry::au_clamp(
                                p0.bounds.size.inline + stripped.inline_size
                                    - fs0[fs0.len() - 1].inline_size,
                            ),
                            block: p0.bounds.size.block,
                        },
                    },
                    green_zone: p0.green_zone,
                    minimum_metrics: p0.minimum_metrics,
                    metrics: p0.metrics,
                    inline_overflow: p0.inline_overflow,
                };
                &&& final(self).lines@ == old(self).lines@.push(committed)
                &&& final(self).cur_b == crate::geometry::au_clamp(
                    committed.bounds.start.b + committed.bounds.size.block,
                )
            }),
            final(self).new_fragments@.len() == old(self).new_fragments@.len(),
            final(self).work_list@ == old(self).work_list@,
            final(self).minimum_metrics == old(self).minimum_metrics,
    {
        self.strip_trailing_whitespace_from_pending_line_if_necessary(runs);
        let ghost mid = *self;
        let ghost old_pending = self.pending_fragments();
        let flushed = Line {
            range: self.pending_line.range,
            visual_runs: Option::None,
            bounds: self.pending_line.bounds,
            green_zone: self.pending_line.green_zone,
            minimum_metrics: self.pending_line.minimum_metrics,
            metrics: self.pending_line.metrics,
            inline_overflow: self.pending_line.inline_overflow,
        };
        self.lines.push(flushed);
        self.cur_b = au_add(self.pending_line.bounds.start.b, self.pending_line.bounds.size.block);
        self.reset_line();
        proof {
            let begin = mid.pending_line.range.begin as int;
            assert(self.pending_fragments() =~= Seq::<Fragment>::empty());
            assert(self.lines@ =~= mid.lines@.push(flushed));
            assert(self.lines@.drop_last() =~= mid.lines@);
            assert(self.lines@.last() == flushed);
            assert(Self::line_dims_ok(flushed) && Self::line_fits(flushed));
            assert(forall|i: int|
                0 <= i < mid.lines@.len() ==> self.lines@[i] == #[trigger] mid.lines@[i]);
            // The flushed line carries at least one unit of weight: its
            // first unit is never a synthesized placeholder.
            assert(old_pending[0] == mid.new_fragments@[begin]);
            crate::fragment::lemma_seq_mass_nonneg(old_pending.drop_first(), runs@);
            assert(seq_mass(old_pending) == old_pending[0].spec_mass() + seq_mass(
                old_pending.drop_first(),
            ));
            assert(old_pending[0].spec_mass() >= 1);
        }
    }


    /// The block extent a line starting with `f` needs: what a fresh line
    /// would grow to after placing `f`.
    pub open spec fn spec_first_block_needed(min: LineMetrics, f: Fragment) -> int {
        if f.spec_is_vertically_aligned_to_top_or_bottom() {
            let unit_needed = f.metrics.spec_space_needed();
            let floor = min.spec_space_needed();
            if unit_needed > floor {
                unit_needed
            } else {
                floor
            }
        } else {
            min.spec_combine(f.metrics).spec_space_needed()
        }
    }

    /// The placement request built for a line that would start with `f`:
    /// its minimum splittable inline size if it can split, else its full
    /// margin box plus any pending indentation; and the block extent the
    /// line would need.
    pub open spec fn spec_initial_placement_info(self, f: Fragment, ceiling: i64, runs: Seq<
        TextRun,
    >) -> PlacementInfo {
        PlacementInfo {
            size: crate::geometry::LogicalSize {
                inline: if f.spec_can_split() {
                    f.spec_minimum_splittable_inline_size(runs) as i64
                } else {
                    (f.spec_margin_box_inline_size()
                        + self.spec_indentation_for_pending_fragment()) as i64
                },
                block: Self::spec_first_block_needed(self.minimum_metrics, f) as i64,
            },
            ceiling,
            max_inline_size: self.available_inline_size,
        }
    }

    /// Computes the position of a line that starts with `first_fragment`:
    /// asks the float oracle for the lowest fit at or below `ceiling` and
    /// returns the green zone there together with the unit's margin-box
    /// inline size. The block extent requested is what a fresh line would
    /// grow to with the unit placed (minimum metrics combined with the
    /// unit's envelope), not the unit's bare box height: asking for the
    /// full need up front is what lets a placed line always accept its
    /// first unit, so a float collision can only arrive with content
    /// already pending and line breaking provably terminates.
    fn initial_line_placement(&self, first_fragment: &Fragment, ceiling: i64, runs: &Vec<TextRun>)
        -> (r: (crate::geometry::LogicalRect, i64))
        requires
            self.inv(runs@),
            first_fragment.wf(runs@),
            0 <= ceiling <= AU_LIMIT,
        ensures
            r.0 == self.floats.spec_place_from(
                0,
                self.spec_initial_placement_info(*first_fragment, ceiling, runs@),
            ),
            r.1 == first_fragment.spec_margin_box_inline_size(),
            r.0.size.block >= Self::spec_first_block_needed(self.minimum_metrics, *first_fragment),
            r.0.start.b >= ceiling,
            r.0.start.b <= ceiling || r.0.start.b <= MAX_SCALAR,
            0 <= r.0.start.i <= MAX_SCALAR,
            0 <= r.0.size.inline <= MAX_SCALAR,
            r.0.size.block <= UNBOUNDED_BLOCK,
    {
        let fresh = Line::new(&self.minimum_metrics);
        let new_metrics = fresh.new_metrics_for_fragment(first_fragment);
        let needed: i64 = fresh.new_block_size_for_fragment(first_fragment, &new_metrics);
        proof {
            first_fragment.lemma_inline_size_bounds(runs@);
        }
        let placement_inline: i64 = if first_fragment.can_split() {
            first_fragment.minimum_splittable_inline_size(runs)
        } else {
            first_fragment.margin_box_inline_size(runs) + self.indentation_for_pending_fragment()
        };
        let info = PlacementInfo {
            size: crate::geometry::LogicalSize { inline: placement_inline, block: needed },
            ceiling,
            max_inline_size: self.available_inline_size,
        };
        let line_bounds = self.floats.place_between_floats(&info);
        (line_bounds, first_fragment.margin_box_inline_size(runs))
    }

    /// Places a unit on the pending line unconditionally. If the unit's
    /// style requests text-overflow truncation, overflow is not visible,
    /// and the unit is wider than what remains of the green zone, the
    /// unit is truncated and a synthesized ellipsis placeholder is placed
    /// right after it. Commits the line afterwards when asked to.
    #[verifier::rlimit(100)]
    #[verifier::spinoff_prover]
    fn push_fragment_to_line(&mut self, fragment: Fragment, runs: &Vec<TextRun>, line_flush_mode:
        LineFlushMode)
        requires
            old(self).inv(runs@),
            fragment.wf(runs@),
            !fragment.flags.is_ellipsis,
            pristine_spacing(fragment),
            old(self).pending_line.spec_new_block_size_for_fragment(
                fragment,
                old(self).pending_line.spec_new_metrics_for_fragment(fragment),
            ) <= old(self).pending_line.green_zone.block,
        ensures
            final(self).inv(runs@),
            final(self).held_content(runs@) == old(self).held_content_with(fragment, runs@),
            final(self).held_weight() == old(self).held_weight() + spec_weight(fragment),
            seq_content(final(self).new_fragments@, runs@) == seq_content(
                old(self).new_fragments@,
                runs@,
            ) + fragment.content(runs@),
            final(self).outstanding_mass() <= old(self).outstanding_mass() + fragment.spec_mass(),
            line_flush_mode == LineFlushMode::Flush ==> final(self).outstanding_mass() + 1 <= old(
                self,
            ).outstanding_mass() + fragment.spec_mass(),
            line_flush_mode == LineFlushMode::Flush ==> final(self).outstanding_mass() == old(
                self,
            ).outstanding_mass() - seq_mass(old(self).pending_fragments()),
            line_flush_mode == LineFlushMode::No ==> final(self).outstanding_mass() == old(
                self,
            ).outstanding_mass() + fragment.spec_mass(),
            final(self).remaining_count() == old(self).remaining_count(),
            final(self).work_list@ == old(self).work_list@,
    {
        let ghost held0 = self.held_content(runs@);
        let indentation: i64 = self.indentation_for_pending_fragment();
        proof {
            fragment.lemma_inline_size_bounds(runs@);
        }
        let available: i64 = self.pending_line.green_zone.inline
            - self.pending_line.bounds.size.inline - indentation;
        let want_ellipsis: Option<i64> = match fragment.text_overflow {
            crate::style_data::TextOverflowSide::Clip => Option::None,
            crate::style_data::TextOverflowSide::Ellipsis { advance } => {
                if !fragment.overflow_visible && fragment.can_split()
                    && fragment.margin_box_inline_size(runs) > available {
                    Option::Some(advance)
                } else {
                    Option::None
                }
            },
        };
        match want_ellipsis {
            Option::Some(advance) => {
                let ellipsis = fragment.transform_into_ellipsis(advance, runs);
                let ghost f0 = fragment;
                let truncated = fragment.truncate_to_inline_size(available - advance, runs);
                proof {
                    assert(truncated.metrics == f0.metrics && truncated.vertical_align
                        == f0.vertical_align && truncated.flags == f0.flags);
                }
                let ghost p0 = old(self).pending_line;
                let ghost tr = truncated;
                let ghost a0 = self.new_fragments@;
                self.push_fragment_to_line_ignoring_text_overflow(truncated, runs);
                let ghost a1 = self.new_fragments@;
                proof {
                    let p1 = self.pending_line;
                    let nm0 = p0.spec_new_metrics_for_fragment(f0);
                    let nm2 = p1.spec_new_metrics_for_fragment(ellipsis);
                    assert(ellipsis.metrics == f0.metrics && ellipsis.vertical_align
                        == f0.vertical_align);
                    if tr.flags.is_inline_absolute || tr.flags.is_hypothetical {
                        assert(p1.metrics == p0.metrics && p1.bounds.size == p0.bounds.size);
                        assert(p1.spec_new_block_size_for_fragment(ellipsis, nm2)
                            == p0.spec_new_block_size_for_fragment(f0, nm0));
                    } else {
                        assert(p1.metrics == nm0);
                        assert(p1.bounds.size.block == p0.spec_new_block_size_for_fragment(
                            f0,
                            nm0,
                        ));
                        if !ellipsis.spec_is_vertically_aligned_to_top_or_bottom() {
                            assert(nm2 == p1.metrics.spec_combine(f0.metrics));
                            assert(nm0 == p0.metrics.spec_combine(f0.metrics));
                            assert(nm2 == nm0);
                            assert(nm2.spec_space_needed() <= p1.bounds.size.block);
                        } else {
                            assert(p1.minimum_metrics == p0.minimum_metrics);
                        }
                    }
                    assert(self.pending_line.spec_new_block_size_for_fragment(
                        ellipsis,
                        self.pending_line.spec_new_metrics_for_fragment(ellipsis),
                    ) <= self.pending_line.green_zone.block);
                }
                let ghost ell = ellipsis;
                self.push_fragment_to_line_ignoring_text_overflow(ellipsis, runs);
                proof {
                    crate::fragment::lemma_seq_content_push(a0, runs@, tr);
                    crate::fragment::lemma_seq_content_push(a1, runs@, ell);
                    assert(tr.content(runs@) == f0.content(runs@));
                    assert(ell.content(runs@) =~= Seq::<u8>::empty());
                    assert(seq_content(self.new_fragments@, runs@) =~= seq_content(a0, runs@)
                        + f0.content(runs@));
                    assert(self.held_content(runs@) =~= old(self).held_content_with(f0, runs@));
                }
            },
            Option::None => {
                let ghost a0 = self.new_fragments@;
                let ghost f0 = fragment;
                self.push_fragment_to_line_ignoring_text_overflow(fragment, runs);
                proof {
                    crate::fragment::lemma_seq_content_push(a0, runs@, f0);
                }
            },
        }
        if matches!(line_flush_mode, LineFlushMode::Flush) {
            self.flush_current_line(runs);
        }
    }

    /// Rolls the pending line back to the last known good line-breaking
    /// opportunity: the units after it return to the work list, behind
    /// the current unit, and the shortened line is committed. With no
    /// known opportunity the unit is placed anyway and the line is left
    /// to overflow.
    #[verifier::rlimit(100)]
    #[verifier::spinoff_prover]
    fn split_line_at_last_known_good_position(&mut self, cur_fragment: Fragment, runs: &Vec<
        TextRun,
    >, line_flush_mode: LineFlushMode)
        requires
            old(self).inv(runs@),
            cur_fragment.wf(runs@),
            !cur_fragment.flags.is_ellipsis,
            pristine_spacing(cur_fragment),
            old(self).pending_line.spec_new_block_size_for_fragment(
                cur_fragment,
                old(self).pending_line.spec_new_metrics_for_fragment(cur_fragment),
            ) <= old(self).pending_line.green_zone.block,
        ensures
            final(self).inv(runs@),
            final(self).held_content(runs@) == old(self).held_content_with(cur_fragment, runs@),
            final(self).held_weight() == old(self).held_weight() + spec_weight(cur_fragment),
            final(self).outstanding_mass() <= old(self).outstanding_mass()
                + cur_fragment.spec_mass(),
            (final(self).outstanding_mass() + 1 <= old(self).outstanding_mass()
                + cur_fragment.spec_mass()) || (final(self).outstanding_mass() == old(
                self,
            ).outstanding_mass() + cur_fragment.spec_mass() && final(self).remaining_count()
                == old(self).remaining_count()),
    {
        let opp: usize = match self.last_known_line_breaking_opportunity {
            Option::None => {
                // No opportunity exists at all for this line: overflow.
                self.push_fragment_to_line(cur_fragment, runs, line_flush_mode);
                return ;
            },
            Option::Some(o) => o,
        };
        let ghost st0 = *self;
        let ghost cmass = cur_fragment.spec_mass();
        self.work_list.push(cur_fragment);
        proof {
            crate::fragment::lemma_seq_mass_push(st0.work_list@, cur_fragment);
            crate::fragment::lemma_seq_weight_push(st0.work_list@, cur_fragment);
            assert(self.work_list@.drop_last() =~= st0.work_list@);
            assert(self.work_list@.last() == cur_fragment);
            assert(seq_content_rev(self.work_list@, runs@) == cur_fragment.content(runs@)
                + seq_content_rev(st0.work_list@, runs@));
            assert(seq_content(st0.new_fragments@, runs@) + (cur_fragment.content(runs@)
                + seq_content_rev(st0.work_list@, runs@)) =~= seq_content(
                st0.new_fragments@,
                runs@,
            ) + cur_fragment.content(runs@) + seq_content_rev(st0.work_list@, runs@));
            assert(self.new_fragments@ =~= st0.new_fragments@.subrange(
                0,
                self.new_fragments@.len() as int,
            ));
        }
        while self.new_fragments.len() > opp
            invariant
                runs_wf(runs@),
                all_wf(self.new_fragments@, runs@),
                all_wf(self.work_list@, runs@),
                all_pristine(self.new_fragments@),
                all_pristine(self.work_list@),
                st0.pending_line.range.begin < opp <= self.new_fragments@.len(),
                self.new_fragments@.len() <= st0.new_fragments@.len(),
                self.new_fragments@ =~= st0.new_fragments@.subrange(
                    0,
                    self.new_fragments@.len() as int,
                ),
                seq_content(self.new_fragments@, runs@) + seq_content_rev(self.work_list@, runs@)
                    =~= seq_content(st0.new_fragments@, runs@) + cur_fragment.content(runs@)
                    + seq_content_rev(st0.work_list@, runs@),
                seq_mass(self.new_fragments@.subrange(
                    st0.pending_line.range.begin as int,
                    self.new_fragments@.len() as int,
                )) + seq_mass(self.work_list@) == seq_mass(st0.pending_fragments()) + cmass
                    + seq_mass(st0.work_list@),
                seq_weight(self.new_fragments@) + seq_weight(self.work_list@) == seq_weight(
                    st0.new_fragments@,
                ) + spec_weight(cur_fragment) + seq_weight(st0.work_list@),
                *self == (LineBreaker {
                    new_fragments: self.new_fragments,
                    work_list: self.work_list,
                    ..st0
                }),
            decreases self.new_fragments@.len(),
        {
            let ghost prev_frags = self.new_fragments@;
            let ghost prev_work = self.work_list@;
            let x: Fragment = match self.new_fragments.pop() {
                Option::Some(x) => x,
                Option::None => { unreached() },
            };
            self.work_list.push(x);
            proof {
                assert(prev_frags =~= self.new_fragments@.push(x));
                crate::fragment::lemma_seq_content_push(self.new_fragments@, runs@, x);
                crate::fragment::lemma_seq_mass_push(prev_work, x);
                crate::fragment::lemma_seq_weight_push(prev_work, x);
                crate::fragment::lemma_seq_weight_push(self.new_fragments@, x);
                let b = st0.pending_line.range.begin as int;
                assert(prev_frags.subrange(b, prev_frags.len() as int) =~= self.new_fragments@.subrange(
                    b,
                    self.new_fragments@.len() as int,
                ).push(x));
                crate::fragment::lemma_seq_mass_push(
                    self.new_fragments@.subrange(b, self.new_fragments@.len() as int),
                    x,
                );
                assert(self.work_list@.drop_last() =~= prev_work);
                assert(self.work_list@.last() == x);
                assert(seq_content_rev(self.work_list@, runs@) == x.content(runs@)
                    + seq_content_rev(prev_work, runs@));
                assert(seq_content(prev_frags, runs@) == seq_content(self.new_fragments@, runs@)
                    + x.content(runs@));
                assert(seq_content(self.new_fragments@, runs@) + (x.content(runs@)
                    + seq_content_rev(prev_work, runs@)) =~= (seq_content(
                    self.new_fragments@,
                    runs@,
                ) + x.content(runs@)) + seq_content_rev(prev_work, runs@));
                assert(seq_content(self.new_fragments@, runs@) + seq_content_rev(
                    self.work_list@,
                    runs@,
                ) =~= seq_content(st0.new_fragments@, runs@) + cur_fragment.content(runs@)
                    + seq_content_rev(st0.work_list@, runs@));
                assert(self.new_fragments@ =~= prev_frags.subrange(
                    0,
                    prev_frags.len() - 1,
                ));
                assert(self.new_fragments@ =~= st0.new_fragments@.subrange(
                    0,
                    self.new_fragments@.len() as int,
                ));
            }
        }
        self.pending_line.range.extend_to(opp);
        proof {
            let b = st0.pending_line.range.begin as int;
            assert(self.new_fragments@[b] == st0.new_fragments@[b]);
            assert(self.inv(runs@));
        }
        self.flush_current_line(runs);
        proof {
            assert(self.held_content(runs@) =~= st0.held_content_with(cur_fragment, runs@));
        }
    }


    /// Creates a new engine with a float snapshot, the indentation of the
    /// first line, the minimum line metrics, and the containing block's
    /// inline size.
    pub fn new(float_context: FloatState, first_line_indentation: i64, minimum_line_metrics:
        &LineMetrics, available_inline_size: i64) -> (r: LineBreaker)
        requires
            float_context.wf(),
            minimum_line_metrics.wf(),
            0 <= first_line_indentation <= MAX_SCALAR,
            0 <= available_inline_size <= MAX_SCALAR,
        ensures
            r.inv(Seq::<TextRun>::empty()),
            r.work_list@.len() == 0,
            r.new_fragments@.len() == 0,
            r.lines@.len() == 0,
            r.floats == float_context,
            r.minimum_metrics == *minimum_line_metrics,
            r.first_line_indentation == first_line_indentation,
            r.available_inline_size == available_inline_size,
            forall|runs: Seq<TextRun>| runs_wf(runs) ==> r.inv(runs),
    {
        let mut fresh = Line::new(minimum_line_metrics);
        fresh.range = FragmentRange { begin: 0, length: 0 };
        LineBreaker {
            floats: float_context,
            work_list: Vec::new(),
            new_fragments: Vec::new(),
            pending_line: fresh,
            lines: Vec::new(),
            last_known_line_breaking_opportunity: Option::None,
            cur_b: 0,
            first_line_indentation,
            minimum_metrics: *minimum_line_metrics,
            available_inline_size,
        }
    }

    /// Drains the work list, placing every unit; then commits any
    /// partially full line left at the end of the scan.
    fn reflow_fragments(&mut self, runs: &Vec<TextRun>)
        requires
            old(self).inv(runs@),
        ensures
            final(self).inv(runs@),
            final(self).held_content(runs@) == old(self).held_content(runs@),
            final(self).held_weight() == old(self).held_weight(),
            final(self).work_list@.len() == 0,
            final(self).pending_line.range.length == 0,
    {
        let ghost h0 = self.held_content(runs@);
        let ghost wt0 = self.held_weight();
        while self.work_list.len() > 0
            invariant
                self.inv(runs@),
                self.held_content(runs@) == h0,
                self.held_weight() == wt0,
            decreases self.outstanding_mass(), self.remaining_count(),
        {
            let ghost o_head = self.outstanding_mass();
            let ghost w_head = self.remaining_count();
            let ghost w0 = self.work_list@;
            let fragment: Fragment = match self.work_list.pop() {
                Option::Some(f) => f,
                Option::None => { unreached() },
            };
            proof {
                assert(w0 =~= self.work_list@.push(fragment));
                crate::fragment::lemma_seq_mass_push(self.work_list@, fragment);
                crate::fragment::lemma_seq_weight_push(self.work_list@, fragment);
                assert(seq_content_rev(w0, runs@) == fragment.content(runs@) + seq_content_rev(
                    self.work_list@,
                    runs@,
                ));
                assert(self.outstanding_mass() == o_head - fragment.spec_mass());
            }
            if fragment.flags.is_ellipsis {
                // A synthesized placeholder popped off a rolled-back line
                // is dropped: its content will be re-synthesized if still
                // needed.
                proof {
                    assert(fragment.content(runs@) =~= Seq::<u8>::empty());
                    assert(self.held_content(runs@) =~= h0);
                    assert(fragment.spec_mass() == 0);
                    assert(self.outstanding_mass() == o_head && self.remaining_count() + 1
                        == w_head);
                    crate::fragment::lemma_seq_mass_nonneg(self.pending_fragments(), runs@);
                    crate::fragment::lemma_seq_mass_nonneg(self.work_list@, runs@);
                }
            } else {
                let ghost st1 = *self;
                self.reflow_fragment(fragment, runs);
                proof {
                    assert(st1.held_content_with(fragment, runs@) =~= seq_content(
                        st1.new_fragments@,
                        runs@,
                    ) + seq_content_rev(w0, runs@));
                    assert(self.held_content(runs@) =~= h0);
                    assert(st1.outstanding_mass() == o_head - fragment.spec_mass());
                    assert(self.outstanding_mass() + 1 <= o_head || (self.outstanding_mass()
                        == o_head && self.remaining_count() + 1 == w_head));
                    crate::fragment::lemma_seq_mass_nonneg(self.pending_fragments(), runs@);
                    crate::fragment::lemma_seq_mass_nonneg(self.work_list@, runs@);
                }
            }
        }
        if !self.pending_line_is_empty() {
            self.flush_current_line(runs);
        }
    }

    /// Runs the whole engine: canonicalizes nothing further (the caller
    /// hands in an already canonical sequence, most recent first on the
    /// stack), scans for lines, and returns the final unit sequence and
    /// the committed line list. The returned units carry exactly the
    /// content of the given ones, placeholders aside; the line ranges
    /// partition the returned sequence; and no committed line exceeds its
    /// green zone on the block axis, nor on the inline axis unless it is
    /// marked as deliberate overflow.
    pub fn scan_for_lines(self, fragments: Vec<Fragment>, runs: &Vec<TextRun>) -> (r: (
        Vec<Fragment>,
        Vec<Line>,
    ))
        requires
            self.inv(runs@),
            self.work_list@.len() == 0,
            self.new_fragments@.len() == 0,
            self.lines@.len() == 0,
            all_wf(fragments@, runs@),
            all_pristine(fragments@),
        ensures
            all_wf(r.0@, runs@),
            all_pristine(r.0@),
            seq_weight(r.0@) == seq_weight(fragments@),
            Self::lines_cover(r.1@, r.0@.len() as int),
            forall|i: int|
                0 <= i < r.1@.len() ==> Self::line_dims_ok(#[trigger] r.1@[i]) && Self::line_fits(
                    r.1@[i],
                ),
            forall|i: int| 0 <= i < r.1@.len() ==> (#[trigger] r.1@[i]).visual_runs is None,
            seq_content(r.0@, runs@) == seq_content(fragments@, runs@),
    {
        let mut scanner = self;
        let ghost in_frags = fragments@;
        // Feed the canonical sequence to the work stack, most recent last
        // taken first.
        let mut source = fragments;
        let ghost h_target = seq_content(in_frags, runs@);
        while source.len() > 0
            invariant
                all_wf(source@, runs@),
                all_wf(scanner.work_list@, runs@),
                all_pristine(source@),
                all_pristine(scanner.work_list@),
                seq_content(source@, runs@) + seq_content_rev(scanner.work_list@, runs@)
                    =~= seq_content(in_frags, runs@),
                seq_weight(source@) + seq_weight(scanner.work_list@) == seq_weight(in_frags),
                scanner == (LineBreaker { work_list: scanner.work_list, ..self }),
            decreases source@.len(),
        {
            let ghost src0 = source@;
            let ghost w0 = scanner.work_list@;
            let f: Fragment = match source.pop() {
                Option::Some(f) => f,
                Option::None => { unreached() },
            };
            scanner.work_list.push(f);
            proof {
                assert(src0 =~= source@.push(f));
                crate::fragment::lemma_seq_content_push(source@, runs@, f);
                crate::fragment::lemma_seq_weight_push(source@, f);
                crate::fragment::lemma_seq_weight_push(w0, f);
                assert(scanner.work_list@.drop_last() =~= w0);
                assert(seq_content_rev(scanner.work_list@, runs@) == f.content(runs@)
                    + seq_content_rev(w0, runs@));
                assert(seq_content(source@, runs@) + seq_content_rev(scanner.work_list@, runs@)
                    =~= seq_content(in_frags, runs@));
            }
        }
        proof {
            assert(source@.len() == 0);
            assert(seq_content(source@, runs@) == Seq::<u8>::empty());
            assert(scanner.held_content(runs@) =~= seq_content(in_frags, runs@));
            assert(scanner.inv(runs@));
        }
        scanner.reflow_fragments(runs);
        proof {
            assert(seq_content_rev(scanner.work_list@, runs@) == Seq::<u8>::empty());
            assert(seq_content(scanner.new_fragments@, runs@) + Seq::<u8>::empty()
                =~= seq_content(scanner.new_fragments@, runs@));
            assert(seq_content(scanner.new_fragments@, runs@) =~= seq_content(in_frags, runs@));
            assert(scanner.pending_line.range.begin == scanner.new_fragments@.len());
        }
        (scanner.new_fragments, scanner.lines)
    }

    /// Tries to place one unit on the pending line, splitting it if
    /// necessary, committing the line when needed: the core step of the
    /// greedy pass. Handles initial placement for an empty line, float
    /// collision avoidance with bounded backtracking, hard breaks under
    /// preserved white space, horizontal overflow by splitting at the
    /// furthest fitting break opportunity, and the deliberate-overflow
    /// policy for content that cannot break.
    #[verifier::rlimit(100)]
    #[verifier::spinoff_prover]
    fn reflow_fragment(&mut self, in_fragment: Fragment, runs: &Vec<TextRun>)
        requires
            old(self).inv(runs@),
            in_fragment.wf(runs@),
            !in_fragment.flags.is_ellipsis,
            pristine_spacing(in_fragment),
        ensures
            final(self).inv(runs@),
            final(self).held_content(runs@) == old(self).held_content_with(in_fragment, runs@),
            final(self).held_weight() == old(self).held_weight() + spec_weight(in_fragment),
            final(self).outstanding_mass() <= old(self).outstanding_mass()
                + in_fragment.spec_mass(),
            (final(self).outstanding_mass() + 1 <= old(self).outstanding_mass()
                + in_fragment.spec_mass()) || (final(self).outstanding_mass() == old(
                self,
            ).outstanding_mass() + in_fragment.spec_mass() && final(self).remaining_count()
                == old(self).remaining_count()),
    {
        let mut fragment = in_fragment;
        // Undo any white-space stripping, spacing and truncation from
        // previous reflows.
        fragment.reset_text_range_and_inline_size(runs);
        proof {
            assert(fragment.content(runs@) == in_fragment.content(runs@));
            assert(fragment.spec_mass() == in_fragment.spec_mass());
        }
        // Determine initial placement if the line is empty, and whether
        // the line may legally break before this unit.
        let fragment_is_line_break_opportunity: bool;
        if self.pending_line_is_empty() {
            fragment.strip_leading_whitespace_if_necessary(runs);
            proof {
                assert(fragment.content(runs@) == in_fragment.content(runs@));
                assert(fragment.spec_mass() == in_fragment.spec_mass());
            }
            let placement = self.initial_line_placement(&fragment, self.cur_b, runs);
            self.pending_line.bounds.start = placement.0.start;
            self.pending_line.green_zone = placement.0.size;
            fragment_is_line_break_opportunity = false;
        } else {
            // A break directly before a unit is legal only on a glyph-run
            // boundary, when not suppressed, and under a wrapping mode.
            if fragment.flags.suppress_line_break_before
                || !fragment.flags.on_glyph_run_boundary {
                fragment_is_line_break_opportunity = false;
            } else {
                fragment_is_line_break_opportunity = matches!(
                    fragment.wrap_mode,
                    TextWrapMode::Wrap
                );
            }
        }
        let green_zone = self.pending_line.green_zone;
        let new_line_metrics = self.pending_line.new_metrics_for_fragment(&fragment);
        let new_block_size: i64 = self.pending_line.new_block_size_for_fragment(
            &fragment,
            &new_line_metrics,
        );
        if new_block_size > green_zone.block {
            // Float collision. An empty line was just placed with enough
            // room for this unit, so there is pending content to move.
            proof {
                assert(self.pending_line.range.length > 0);
            }
            // Predict where the next line would start and see whether the
            // whole pending line fits there.
            let next = self.initial_line_placement(&fragment, self.pending_line.bounds.start.b,
                runs);
            proof {
                fragment.lemma_inline_size_bounds(runs@);
            }
            let new_inline_size: i64 = au_add(self.pending_line.bounds.size.inline, next.1);
            if next.0.size.inline >= new_inline_size && next.0.size.block >= new_block_size {
                // Shift the whole line and carry on placing the unit there.
                proof {
                    assert(au_clamp(self.pending_line.bounds.size.inline + next.1)
                        >= self.pending_line.bounds.size.inline);
                }
                self.pending_line.bounds.start = next.0.start;
                self.pending_line.green_zone = next.0.size;
            } else {
                // The line cannot move: commit it and retry the unit on a
                // fresh line.
                let ghost w0 = self.work_list@;
                self.work_list.push(fragment);
                proof {
                    crate::fragment::lemma_seq_mass_push(w0, fragment);
                    crate::fragment::lemma_seq_weight_push(w0, fragment);
                    assert(self.work_list@.drop_last() =~= w0);
                    assert(self.held_content(runs@) =~= old(self).held_content_with(
                        in_fragment,
                        runs@,
                    ));
                }
                self.flush_current_line(runs);
                return ;
            }
        }
        proof {
            assert(self.held_content_with(fragment, runs@) == old(self).held_content_with(
                in_fragment,
                runs@,
            ));
        }
        self.reflow_fragment_fitting(fragment, runs, fragment_is_line_break_opportunity);
    }

    /// The second half of placing one unit: the unit is known to fit the
    /// pending line vertically; place it, splitting or deferring on
    /// horizontal overflow.
    #[verifier::rlimit(100)]
    #[verifier::spinoff_prover]
    fn reflow_fragment_fitting(&mut self, fragment: Fragment, runs: &Vec<TextRun>,
        fragment_is_line_break_opportunity: bool)
        requires
            old(self).inv(runs@),
            fragment.wf(runs@),
            !fragment.flags.is_ellipsis,
            pristine_spacing(fragment),
            old(self).pending_line.spec_new_block_size_for_fragment(
                fragment,
                old(self).pending_line.spec_new_metrics_for_fragment(fragment),
            ) <= old(self).pending_line.green_zone.block,
            fragment_is_line_break_opportunity ==> old(self).pending_line.range.length > 0,
        ensures
            final(self).inv(runs@),
            final(self).held_content(runs@) == old(self).held_content_with(fragment, runs@),
            final(self).held_weight() == old(self).held_weight() + spec_weight(fragment),
            final(self).outstanding_mass() <= old(self).outstanding_mass() + fragment.spec_mass(),
            (final(self).outstanding_mass() + 1 <= old(self).outstanding_mass()
                + fragment.spec_mass()) || (final(self).outstanding_mass() == old(
                self,
            ).outstanding_mass() + fragment.spec_mass() && final(self).remaining_count()
                == old(self).remaining_count()),
    {
        let new_block_size: i64 = self.pending_line.new_block_size_for_fragment(
            &fragment,
            &self.pending_line.new_metrics_for_fragment(&fragment),
        );
        let green_zone = self.pending_line.green_zone;
        // Record the last known good line-breaking opportunity: the index
        // the unit is about to take.
        if fragment_is_line_break_opportunity {
            self.last_known_line_breaking_opportunity = Option::Some(self.new_fragments.len());
        }
        // Under preserved white space, a trailing newline forces a flush
        // once this unit is placed.
        let line_flush_mode: LineFlushMode = if !matches!(
            fragment.white_space,
            WhiteSpaceCollapse::Collapse,
        ) && fragment.requires_line_break_afterward_if_wrapping_on_newlines(runs) {
            LineFlushMode::Flush
        } else {
            LineFlushMode::No
        };
        proof {
            fragment.lemma_inline_size_bounds(runs@);
        }
        let indentation: i64 = self.indentation_for_pending_fragment();
        let margin_box: i64 = fragment.margin_box_inline_size(runs);
        let new_inline_size: i64 = au_add(
            au_add(self.pending_line.bounds.size.inline, margin_box),
            indentation,
        );
        if new_inline_size <= green_zone.inline {
            // The unit fits without splitting.
            self.push_fragment_to_line(fragment, runs, line_flush_mode);
            return ;
        }
        if matches!(fragment.wrap_mode, TextWrapMode::Nowrap) {
            // Wrapping is disabled: back up to the last known good break.
            self.split_line_at_last_known_good_position(fragment, runs, line_flush_mode);
            return ;
        }
        // Split the unit at the furthest break opportunity that fits.
        let available_inline_size: i64 = green_zone.inline
            - self.pending_line.bounds.size.inline - indentation;
        let split_position: Option<usize> = if fragment.can_split() {
            fragment.calculate_split_position(
                runs,
                available_inline_size,
                self.pending_line_is_empty(),
            )
        } else {
            Option::None
        };
        match split_position {
            Option::None => {
                if fragment_is_line_break_opportunity {
                    // No valid split, but the line may break before the
                    // unit: defer it whole to the next line.
                    let ghost w0 = self.work_list@;
                    self.work_list.push(fragment);
                    proof {
                        crate::fragment::lemma_seq_mass_push(w0, fragment);
                        crate::fragment::lemma_seq_weight_push(w0, fragment);
                        assert(self.work_list@.drop_last() =~= w0);
                        assert(self.held_content(runs@) =~= old(self).held_content_with(
                            fragment,
                            runs@,
                        ));
                    }
                    self.flush_current_line(runs);
                } else {
                    self.split_line_at_last_known_good_position(
                        fragment,
                        runs,
                        LineFlushMode::No,
                    );
                }
            },
            Option::Some(p) => {
                let ghost f1 = fragment;
                let pieces = fragment.split_at(p, runs);
                let head = pieces.0;
                let tail = pieces.1;
                proof {
                    crate::fragment::lemma_seq_mass_nonneg(self.pending_fragments(), runs@);
                    assert(head.metrics == f1.metrics && head.vertical_align == f1.vertical_align);
                    assert(self.pending_line.spec_new_block_size_for_fragment(
                        head,
                        self.pending_line.spec_new_metrics_for_fragment(head),
                    ) == new_block_size);
                }
                let ghost st1 = *self;
                self.push_fragment_to_line(head, runs, LineFlushMode::Flush);
                let ghost w1 = self.work_list@;
                self.work_list.push(tail);
                proof {
                    crate::fragment::lemma_seq_mass_push(w1, tail);
                    crate::fragment::lemma_seq_weight_push(w1, tail);
                    assert(self.work_list@.drop_last() =~= w1);
                    assert(self.work_list@.last() == tail);
                    assert(seq_content_rev(self.work_list@, runs@) == tail.content(runs@)
                        + seq_content_rev(w1, runs@));
                    assert(seq_content(self.new_fragments@, runs@) == seq_content(
                        st1.new_fragments@,
                        runs@,
                    ) + head.content(runs@));
                    assert(head.content(runs@) + tail.content(runs@) == f1.content(runs@));
                    assert(self.held_content(runs@) =~= st1.held_content_with(f1, runs@));
                    assert(self.held_content(runs@) =~= old(self).held_content_with(
                        fragment,
                        runs@,
                    ));
                }
            },
        }
    }

    /// Places a unit on the pending line unconditionally, without regard
    /// to text-overflow, updating the line's bounds and metrics unless
    /// the unit is hypothetical or absolutely positioned.
    #[verifier::rlimit(100)]
    #[verifier::spinoff_prover]
    fn push_fragment_to_line_ignoring_text_overflow(&mut self, fragment: Fragment, runs: &Vec<
        TextRun,
    >)
        requires
            old(self).inv(runs@),
            fragment.wf(runs@),
            pristine_spacing(fragment),
            old(self).pending_line.spec_new_block_size_for_fragment(
                fragment,
                old(self).pending_line.spec_new_metrics_for_fragment(fragment),
            ) <= old(self).pending_line.green_zone.block,
            old(self).pending_line.range.length == 0 ==> !fragment.flags.is_ellipsis,
        ensures
            final(self).inv(runs@),
            final(self).new_fragments@ == old(self).new_fragments@.push(fragment),
            final(self).pending_line.range.begin == old(self).pending_line.range.begin,
            final(self).pending_line.range.length == old(self).pending_line.range.length + 1,
            final(self).pending_line.green_zone == old(self).pending_line.green_zone,
            final(self).pending_line.bounds.start == old(self).pending_line.bounds.start,
            final(self).held_content(runs@) == old(self).held_content_with(fragment, runs@),
            final(self).held_weight() == old(self).held_weight() + spec_weight(fragment),
            final(self).outstanding_mass() == old(self).outstanding_mass() + fragment.spec_mass(),
            final(self).remaining_count() == old(self).remaining_count(),
            final(self).lines@ == old(self).lines@,
            final(self).cur_b == old(self).cur_b,
            final(self).work_list@ == old(self).work_list@,
            final(self).last_known_line_breaking_opportunity
                == old(self).last_known_line_breaking_opportunity,
            final(self).minimum_metrics == old(self).minimum_metrics,
            final(self).pending_line.minimum_metrics == old(self).pending_line.minimum_metrics,
            final(self).pending_line.inline_overflow ==> (old(self).pending_line.inline_overflow
                || final(self).pending_line.bounds.size.inline
                > final(self).pending_line.green_zone.inline),
            ({
                let before = old(self).pending_line;
                let after = final(self).pending_line;
                let nm = before.spec_new_metrics_for_fragment(fragment);
                if !fragment.flags.is_inline_absolute && !fragment.flags.is_hypothetical {
                    after.metrics == nm && after.bounds.size.block
                        == before.spec_new_block_size_for_fragment(fragment, nm)
                        && after.bounds.size.inline == crate::geometry::au_clamp(
                        crate::geometry::au_clamp(
                            before.bounds.size.inline + fragment.spec_margin_box_inline_size(),
                        ) + old(self).spec_indentation_for_pending_fragment(),
                    )
                } else {
                    after.metrics == before.metrics && after.bounds.size == before.bounds.size
                }
            }),
    {
        let ghost old_frags = self.new_fragments@;
        let ghost old_pending = self.pending_fragments();
        let indentation: i64 = self.indentation_for_pending_fragment();
        proof {
            fragment.lemma_inline_size_bounds(runs@);
        }
        if !(fragment.flags.is_inline_absolute || fragment.flags.is_hypothetical) {
            let mbox: i64 = fragment.margin_box_inline_size(runs);
            self.pending_line.bounds.size.inline = au_add(
                au_add(self.pending_line.bounds.size.inline, mbox),
                indentation,
            );
            let new_metrics = self.pending_line.new_metrics_for_fragment(&fragment);
            let new_block: i64 = self.pending_line.new_block_size_for_fragment(
                &fragment,
                &new_metrics,
            );
            self.pending_line.metrics = new_metrics;
            self.pending_line.bounds.size.block = new_block;
        }
        if self.pending_line.bounds.size.inline > self.pending_line.green_zone.inline {
            self.pending_line.inline_overflow = true;
        }
        self.new_fragments.push(fragment);
        let n: usize = self.new_fragments.len();
        self.pending_line.range.length = n - self.pending_line.range.begin;
        proof {
            assert(self.new_fragments@ =~= old_frags.push(fragment));
            crate::fragment::lemma_seq_content_push(old_frags, runs@, fragment);
            crate::fragment::lemma_seq_mass_push(old_frags, fragment);
            crate::fragment::lemma_seq_weight_push(old_frags, fragment);
            crate::fragment::lemma_seq_mass_push(old_pending, fragment);
            assert(self.pending_fragments() =~= old_pending.push(fragment));
            assert(self.held_content(runs@) =~= old(self).held_content_with(fragment, runs@));
        }
    }
}


/// Every line of a covering sequence has a well-formed, nonempty range
/// that ends within the covered interval.
pub proof fn lemma_lines_cover_bounds(lines: Seq<Line>, upto: int, k: int)
    requires
        LineBreaker::lines_cover(lines, upto),
        0 <= k < lines.len(),
        upto >= 0,
    ensures
        lines[k].range.length > 0,
        lines[k].range.wf(),
        lines[k].range.spec_end() <= upto,
        k < lines.len() - 1 ==> lines[k].range.spec_end() <= lines[k + 1].range.begin,
        k == lines.len() - 1 ==> lines[k].range.spec_end() == upto,
        k > 0 ==> lines[k].range.begin == lines[k - 1].range.spec_end(),
    decreases lines.len(),
{
    if k == lines.len() - 1 {
        if k > 0 {
            assert(lines.drop_last()[k - 1] == lines[k - 1]);
            lemma_lines_cover_bounds(lines.drop_last(), lines[k].range.begin as int, k - 1);
        }
    } else {
        assert(lines.drop_last()[k] == lines[k]);
        if k + 1 < lines.len() - 1 {
            assert(lines.drop_last()[k + 1] == lines[k + 1]);
        }
        lemma_lines_cover_bounds(lines.drop_last(), lines.last().range.begin as int, k);
        if k > 0 {
            assert(lines.drop_last()[k - 1] == lines[k - 1]);
        }
    }
}

/// Covering depends only on the lines' ranges.
pub proof fn lemma_lines_cover_same_ranges(a: Seq<Line>, b: Seq<Line>, upto: int)
    requires
        LineBreaker::lines_cover(a, upto),
        a.len() == b.len(),
        forall|i: int| 0 <= i < a.len() ==> (#[trigger] b[i]).range == a[i].range,
    ensures
        LineBreaker::lines_cover(b, upto),
    decreases a.len(),
{
    if a.len() > 0 {
        assert(forall|i: int|
            0 <= i < a.drop_last().len() ==> (#[trigger] b.drop_last()[i]).range
                == a.drop_last()[i].range);
        lemma_lines_cover_same_ranges(
            a.drop_last(),
            b.drop_last(),
            a.last().range.begin as int,
        );
        assert(b.last() == b[a.len() - 1]);
        assert(a.last() == a[a.len() - 1]);
    }
}

/// One unit in canonical form: not a synthesized placeholder, and with
/// stripping, spacing and truncation from earlier passes undone.
pub open spec fn canonical_element(f: Fragment, runs: Seq<TextRun>) -> bool {
    &&& !f.flags.is_ellipsis
    &&& f == f.spec_restored(runs)
}

/// A unit sequence in canonical form: every unit canonical, and no two
/// neighbours re-mergeable — the state a fresh layout pass starts from.
pub open spec fn canonical_seq(fs: Seq<Fragment>, runs: Seq<TextRun>) -> bool
    decreases fs.len(),
{
    if fs.len() == 0 {
        true
    } else {
        &&& canonical_element(fs[0], runs)
        &&& (fs.len() == 1 || !fs[0].spec_mergeable(fs[1], runs))
        &&& canonical_seq(fs.drop_first(), runs)
    }
}

/// Appending a canonical unit that does not merge with the last keeps a
/// sequence canonical.
pub proof fn lemma_canonical_push(fs: Seq<Fragment>, runs: Seq<TextRun>, x: Fragment)
    requires
        canonical_seq(fs, runs),
        canonical_element(x, runs),
        fs.len() > 0 ==> !fs.last().spec_mergeable(x, runs),
    ensures
        canonical_seq(fs.push(x), runs),
    decreases fs.len(),
{
    if fs.len() == 0 {
        assert(fs.push(x)[0] == x);
        assert(fs.push(x).drop_first() =~= Seq::<Fragment>::empty());
        assert(canonical_seq(Seq::<Fragment>::empty(), runs));
        assert(canonical_seq(fs.push(x).drop_first(), runs));
        assert(fs.push(x).len() == 1);
        assert(canonical_seq(fs.push(x), runs));
    } else {
        assert(fs.push(x).drop_first() =~= fs.drop_first().push(x));
        if fs.len() > 1 {
            assert(fs.drop_first().last() == fs.last());
        }
        lemma_canonical_push(fs.drop_first(), runs, x);
        assert(canonical_seq(fs.push(x).drop_first(), runs));
        assert(fs.push(x)[0] == fs[0]);
        assert(canonical_element(fs.push(x)[0], runs));
        if fs.len() == 1 {
            assert(fs.push(x)[1] == x);
            assert(fs.last() == fs[0]);
            assert(!fs.push(x)[0].spec_mergeable(fs.push(x)[1], runs));
        } else {
            assert(fs.push(x)[1] == fs[1]);
            assert(!fs.push(x)[0].spec_mergeable(fs.push(x)[1], runs));
        }
        assert(canonical_seq(fs.push(x), runs));
    }
}

/// Each unit of a canonical sequence is canonical and does not merge
/// with its successor.
pub proof fn lemma_canonical_index(fs: Seq<Fragment>, runs: Seq<TextRun>, i: int)
    requires
        canonical_seq(fs, runs),
        0 <= i < fs.len(),
    ensures
        canonical_element(fs[i], runs),
        i + 1 < fs.len() ==> !fs[i].spec_mergeable(fs[i + 1], runs),
    decreases i,
{
    if i > 0 {
        lemma_canonical_index(fs.drop_first(), runs, i - 1);
        assert(fs.drop_first()[i - 1] == fs[i]);
        if i + 1 < fs.len() {
            assert(fs.drop_first()[i] == fs[i + 1]);
        }
    }
}

/// Dropping the last unit keeps a sequence canonical.
pub proof fn lemma_canonical_drop_last(fs: Seq<Fragment>, runs: Seq<TextRun>)
    requires
        canonical_seq(fs, runs),
        fs.len() > 0,
    ensures
        canonical_seq(fs.drop_last(), runs),
    decreases fs.len(),
{
    if fs.len() > 1 {
        lemma_canonical_drop_last(fs.drop_first(), runs);
        assert(fs.drop_last().drop_first() =~= fs.drop_first().drop_last());
        assert(fs.drop_last()[0] == fs[0]);
        if fs.len() > 2 {
            assert(fs.drop_last()[1] == fs[1]);
        }
    }
}


/// Appends a canonical unit to a canonical sequence, merging it onto the
/// last unit when the two are pieces of one previous split. When no merge
/// applies, the unit is appended unchanged.
#[verifier::rlimit(100)]
#[verifier::spinoff_prover]
fn append_canonical(out: &mut Vec<Fragment>, f: Fragment, runs: &Vec<TextRun>)
    requires
        runs_wf(runs@),
        all_wf(old(out)@, runs@),
        all_pristine(old(out)@),
        canonical_seq(old(out)@, runs@),
        f.wf(runs@),
        canonical_element(f, runs@),
    ensures
        all_wf(final(out)@, runs@),
        all_pristine(final(out)@),
        canonical_seq(final(out)@, runs@),
        seq_content(final(out)@, runs@) == seq_content(old(out)@, runs@) + f.content(runs@),
        seq_weight(final(out)@) == seq_weight(old(out)@) + spec_weight(f),
        (old(out)@.len() == 0 || !old(out)@.last().spec_mergeable(f, runs@)) ==> final(out)@
            == old(out)@.push(f),
{
    let ghost out0 = out@;
    let merged: bool = if out.len() > 0 {
        out[out.len() - 1].mergeable(&f, runs)
    } else {
        false
    };
    if merged {
        let a: Fragment = match out.pop() {
            Option::Some(a) => a,
            Option::None => { unreached() },
        };
        proof {
            assert(out0 =~= out@.push(a));
        }
        let ghost ga = a;
        let m: Fragment = a.merge_with(f, runs);
        let ghost gm = m;
        out.push(m);
        proof {
            assert(gm == gm.spec_restored(runs@));
            assert(canonical_element(gm, runs@));
            assert(out@.drop_last() =~= out0.drop_last());
            lemma_canonical_drop_last(out0, runs@);
            if out0.len() > 1 {
                let prev = out0[out0.len() - 2];
                lemma_canonical_index(out0, runs@, out0.len() - 2);
                assert(!prev.spec_mergeable(ga, runs@));
                assert(gm.text_slice().run == ga.text_slice().run && gm.text_slice().begin
                    == ga.text_slice().begin);
                assert(gm.margin_inline_start == ga.margin_inline_start
                    && gm.border_padding_inline_start == ga.border_padding_inline_start
                    && gm.selected == ga.selected && !gm.flags.is_ellipsis
                    == !ga.flags.is_ellipsis);
                match (prev.inline_context, ga.inline_context, gm.inline_context) {
                    (Option::Some(cp), Option::Some(ca), Option::Some(cm)) => {
                        assert(forall|i: int|
                            0 <= i < ca.nodes@.len() ==> (#[trigger] cm.nodes@[i]).address
                                == ca.nodes@[i].address);
                        assert(cp.spec_ptr_eq(cm) == cp.spec_ptr_eq(ca));
                    },
                    _ => {},
                }
                assert(crate::fragment::spec_inline_contexts_are_equal(
                    prev.inline_context,
                    gm.inline_context,
                ) == crate::fragment::spec_inline_contexts_are_equal(
                    prev.inline_context,
                    ga.inline_context,
                ));
                assert(!prev.spec_mergeable(gm, runs@));
                assert(out@.drop_last().last() == prev);
            }
            lemma_canonical_push(out@.drop_last(), runs@, gm);
            assert(out@ =~= out@.drop_last().push(gm));
            assert(canonical_seq(out@, runs@));
            crate::fragment::lemma_seq_content_push(out@.drop_last(), runs@, gm);
            crate::fragment::lemma_seq_content_push(out@.drop_last(), runs@, ga);
            crate::fragment::lemma_seq_weight_push(out@.drop_last(), gm);
            crate::fragment::lemma_seq_weight_push(out@.drop_last(), ga);
            assert(gm.content(runs@) == ga.content(runs@) + f.content(runs@));
            assert(seq_content(out@, runs@) =~= seq_content(out0, runs@) + f.content(runs@));
        }
    } else {
        proof {
            if out@.len() > 0 {
                assert(!out@.last().spec_mergeable(f, runs@));
            }
            lemma_canonical_push(out@, runs@, f);
            crate::fragment::lemma_seq_content_push(out@, runs@, f);
            crate::fragment::lemma_seq_weight_push(out@, f);
        }
        out.push(f);
        proof {
            assert(canonical_seq(out@, runs@));
        }
    }
}

/// Brings a unit sequence into canonical form: undoes white-space
/// stripping, justification spacing and truncation from previous layout
/// passes, drops synthesized ellipsis placeholders, and merges adjacent
/// units that a previous pass split apart, so that repeated incremental
/// layout starts from the same units every time. A sequence already in
/// canonical form is returned unchanged.
#[verifier::rlimit(100)]
#[verifier::spinoff_prover]
pub fn canonicalize_fragments(fragments: Vec<Fragment>, runs: &Vec<TextRun>) -> (r: Vec<Fragment>)
    requires
        all_wf(fragments@, runs@),
        runs_wf(runs@),
    ensures
        all_wf(r@, runs@),
        all_pristine(r@),
        canonical_seq(r@, runs@),
        seq_content(r@, runs@) == seq_content(fragments@, runs@),
        seq_weight(r@) == seq_weight(fragments@),
        canonical_seq(fragments@, runs@) ==> r@ == fragments@,
{
    let ghost in_frags = fragments@;
    let n: usize = fragments.len();
    let mut source = fragments;
    let mut stack: Vec<Fragment> = Vec::new();
    while source.len() > 0
        invariant
            all_wf(in_frags, runs@),
            in_frags.len() == n,
            source@ =~= in_frags.subrange(0, source@.len() as int),
            stack@.len() + source@.len() == n,
            forall|j: int|
                0 <= j < stack@.len() ==> #[trigger] stack@[j] == in_frags[n - 1 - j],
            seq_content(source@, runs@) + seq_content_rev(stack@, runs@) =~= seq_content(
                in_frags,
                runs@,
            ),
            seq_weight(source@) + seq_weight(stack@) == seq_weight(in_frags),
        decreases source@.len(),
    {
        let ghost src0 = source@;
        let ghost stk0 = stack@;
        let f: Fragment = match source.pop() {
            Option::Some(f) => f,
            Option::None => { unreached() },
        };
        stack.push(f);
        proof {
            assert(src0 =~= source@.push(f));
            assert(f == in_frags[source@.len() as int]);
            assert(source@ =~= in_frags.subrange(0, source@.len() as int));
            crate::fragment::lemma_seq_content_push(source@, runs@, f);
            crate::fragment::lemma_seq_weight_push(source@, f);
            crate::fragment::lemma_seq_weight_push(stk0, f);
            assert(stack@.drop_last() =~= stk0);
            assert(stack@.last() == f);
            assert(seq_content_rev(stack@, runs@) == f.content(runs@) + seq_content_rev(
                stk0,
                runs@,
            ));
            assert(seq_content(source@, runs@) + seq_content_rev(stack@, runs@) =~= seq_content(
                in_frags,
                runs@,
            ));
        }
    }
    proof {
        assert(seq_content(source@, runs@) == Seq::<u8>::empty());
        assert(in_frags.subrange(0, n as int) =~= in_frags);
        assert(Seq::<u8>::empty() + seq_content_rev(stack@, runs@) =~= seq_content_rev(
            stack@,
            runs@,
        ));
    }
    let mut out: Vec<Fragment> = Vec::new();
    while stack.len() > 0
        invariant
            runs_wf(runs@),
            all_wf(in_frags, runs@),
            in_frags.len() == n,
            stack@.len() <= n,
            forall|j: int|
                0 <= j < stack@.len() ==> #[trigger] stack@[j] == in_frags[n - 1 - j],
            all_wf(out@, runs@),
            all_pristine(out@),
            canonical_seq(out@, runs@),
            seq_content(out@, runs@) + seq_content_rev(stack@, runs@) =~= seq_content(
                in_frags.subrange(0, n as int),
                runs@,
            ),
            seq_weight(out@) + seq_weight(stack@) == seq_weight(in_frags),
            canonical_seq(in_frags, runs@) ==> out@ =~= in_frags.subrange(
                0,
                n - stack@.len(),
            ),
        decreases stack@.len(),
    {
        let ghost k = n - stack@.len();
        let ghost out0 = out@;
        let ghost stack0 = stack@;
        let mut f: Fragment = match stack.pop() {
            Option::Some(f) => f,
            Option::None => { unreached() },
        };
        proof {
            assert(stack0 =~= stack@.push(f));
            assert(f == in_frags[k as int]);
            assert(seq_content_rev(stack0, runs@) == f.content(runs@) + seq_content_rev(
                stack@,
                runs@,
            ));
            crate::fragment::lemma_seq_weight_push(stack@, f);
        }
        let ghost f_in = f;
        f.reset_text_range_and_inline_size(runs);
        proof {
            assert(f.content(runs@) == f_in.content(runs@));
            assert(f == f.spec_restored(runs@));
            if canonical_seq(in_frags, runs@) {
                lemma_canonical_index(in_frags, runs@, k as int);
                assert(f == f_in);
            }
        }
        if f.flags.is_ellipsis {
            // A synthesized placeholder from an earlier pass: drop it.
            proof {
                assert(f.content(runs@) =~= Seq::<u8>::empty());
                assert(seq_content(out@, runs@) + seq_content_rev(stack@, runs@) =~= seq_content(
                    in_frags.subrange(0, n as int),
                    runs@,
                ));
                if canonical_seq(in_frags, runs@) {
                    lemma_canonical_index(in_frags, runs@, k as int);
                    assert(false);
                }
            }
            continue ;
        }
        let ghost out_before = out@;
        append_canonical(&mut out, f, runs);
        proof {
            assert(seq_content(out@, runs@) + seq_content_rev(stack@, runs@) =~= seq_content(
                in_frags.subrange(0, n as int),
                runs@,
            ));
            if canonical_seq(in_frags, runs@) {
                if out_before.len() > 0 {
                    lemma_canonical_index(in_frags, runs@, k - 1);
                    assert(out_before.last() == in_frags[k - 1]);
                    assert(!out_before.last().spec_mergeable(f, runs@));
                }
                assert(out@ =~= out_before.push(f));
                assert(out@ =~= in_frags.subrange(0, k + 1));
            }
        }
    }
    proof {
        assert(in_frags.subrange(0, n as int) =~= in_frags);
        assert(seq_content_rev(stack@, runs@) == Seq::<u8>::empty());
        assert(seq_content(out@, runs@) + Seq::<u8>::empty() =~= seq_content(out@, runs@));
        if canonical_seq(in_frags, runs@) {
            assert(out@ =~= in_frags);
        }
    }
    out
}

} // verus!
