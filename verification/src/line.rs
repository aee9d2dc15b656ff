//! One visual row: a range of unit indices, its bounds, the green zone it
//! may grow into before colliding with a float, and its vertical metrics.

use vstd::prelude::*;
use crate::fragment::Fragment;
use crate::fragment_range::FragmentRange;
use crate::geometry::{LogicalRect, LogicalSize, MAX_SCALAR};
use crate::metrics::LineMetrics;

verus! {

/// A maximal sub-range of a line sharing one bidi embedding level, in
/// reading order.
#[derive(Clone, Copy, PartialEq, Eq, Structural, Debug)]
pub struct VisualRun {
    pub range: FragmentRange,
    pub level: u8,
}

/// One visual line of the flow.
#[derive(Clone, PartialEq, Eq, Debug)]
pub struct Line {
    /// The range of unit indices laid out on this line.
    pub range: FragmentRange,
    /// The bidi level runs of this line in reading order; left as `None`
    /// when the whole flow matches the base direction.
    pub visual_runs: Option<Vec<VisualRun>>,
    /// The exact position and extents of the line relative to the flow.
    pub bounds: LogicalRect,
    /// The greatest extent the line could reach before colliding with a
    /// float, anchored at the line's origin.
    pub green_zone: LogicalSize,
    /// The minimum metrics for this line, as specified by the style.
    pub minimum_metrics: LineMetrics,
    /// The actual metrics of this line after placing content.
    pub metrics: LineMetrics,
    /// True when the engine deliberately placed content wider than the
    /// green zone on this line (unsplittable overflow policy).
    pub inline_overflow: bool,
}

impl Line {
    /// A fresh, empty pending line.
    pub fn new(minimum_metrics: &LineMetrics) -> (r: Line)
        ensures
            r.range.begin == 0 && r.range.length == 0,
            r.visual_runs is None,
            r.bounds.start.i == 0 && r.bounds.start.b == 0,
            r.bounds.size.inline == 0 && r.bounds.size.block == 0,
            r.green_zone.inline == 0 && r.green_zone.block == 0,
            r.minimum_metrics == *minimum_metrics,
            r.metrics == *minimum_metrics,
            !r.inline_overflow,
    {
        Line {
            range: FragmentRange::empty(),
            visual_runs: Option::None,
            bounds: LogicalRect::zero(),
            green_zone: LogicalSize::zero(),
            minimum_metrics: *minimum_metrics,
            metrics: *minimum_metrics,
            inline_overflow: false,
        }
    }

    /// The metrics this line would have if `new_fragment` were added:
    /// top- and bottom-aligned units stay out of baseline stacking.
    pub open spec fn spec_new_metrics_for_fragment(self, new_fragment: Fragment) -> LineMetrics {
        if !new_fragment.spec_is_vertically_aligned_to_top_or_bottom() {
            self.metrics.spec_combine(new_fragment.metrics)
        } else {
            self.metrics
        }
    }

    /// Returns the metrics this line would have if `new_fragment` were
    /// added to it.
    pub fn new_metrics_for_fragment(&self, new_fragment: &Fragment) -> (r: LineMetrics)
        ensures
            r == self.spec_new_metrics_for_fragment(*new_fragment),
    {
        if !new_fragment.is_vertically_aligned_to_top_or_bottom() {
            self.metrics.new_metrics_for_fragment(&new_fragment.metrics)
        } else {
            self.metrics
        }
    }

    /// The block size this line would have if `new_fragment` were added,
    /// given the metrics the line would then have.
    pub open spec fn spec_new_block_size_for_fragment(
        self,
        new_fragment: Fragment,
        new_line_metrics: LineMetrics,
    ) -> int {
        let needed = if new_fragment.spec_is_vertically_aligned_to_top_or_bottom() {
            let unit_needed = new_fragment.metrics.spec_space_needed();
            let floor = self.minimum_metrics.spec_space_needed();
            if unit_needed > floor {
                unit_needed
            } else {
                floor
            }
        } else {
            new_line_metrics.spec_space_needed()
        };
        if self.bounds.size.block > needed {
            self.bounds.size.block as int
        } else {
            needed
        }
    }

    /// Returns the block size this line would have if `new_fragment` were
    /// added to it; `new_line_metrics` is the line's would-be metrics.
    pub fn new_block_size_for_fragment(&self, new_fragment: &Fragment, new_line_metrics:
        &LineMetrics) -> (r: i64)
        requires
            new_fragment.metrics.wf(),
            self.minimum_metrics.wf(),
            new_line_metrics.wf(),
            0 <= self.bounds.size.block <= 4 * MAX_SCALAR,
        ensures
            r == self.spec_new_block_size_for_fragment(*new_fragment, *new_line_metrics),
            0 <= r <= 4 * MAX_SCALAR,
    {
        let needed: i64 = if new_fragment.is_vertically_aligned_to_top_or_bottom() {
            let unit_needed: i64 = new_fragment.metrics.space_needed();
            let floor: i64 = self.minimum_metrics.space_needed();
            if unit_needed > floor {
                unit_needed
            } else {
                floor
            }
        } else {
            new_line_metrics.space_needed()
        };
        if self.bounds.size.block > needed {
            self.bounds.size.block
        } else {
            needed
        }
    }
}

} // verus!
