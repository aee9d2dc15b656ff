//! Baseline-relative vertical envelopes: the metrics of one layout unit and
//! of one line, and the pure functions that combine them.

use vstd::prelude::*;
use crate::geometry::{scalar_ok, MAX_SCALAR};

verus! {

/// Font measurements a unit's metrics are derived from. Ascent and descent
/// are distances from the baseline, both nonnegative for well-formed input.
#[derive(Clone, Copy, PartialEq, Eq, Structural, Debug)]
pub struct FontMetrics {
    pub ascent: i64,
    pub descent: i64,
}

/// Half of `x`, rounded toward zero, as machine division computes it.
pub open spec fn half_toward_zero(x: int) -> int {
    if x >= 0 {
        x / 2
    } else {
        -((-x) / 2)
    }
}

/// Ascent and space needed above and below the baseline for one unit.
///
/// Descent is not carried here because it can be computed from the unit's
/// box and the ascent. `ascent` can differ from `space_above_baseline` when
/// line-height injects extra leading above the glyphs.
#[derive(Clone, Copy, PartialEq, Eq, Structural, Debug)]
pub struct InlineMetrics {
    /// The amount of space above the baseline needed for this unit.
    pub space_above_baseline: i64,
    /// The amount of space below the baseline needed for this unit.
    pub space_below_baseline: i64,
    /// The distance from the baseline to the top of this unit.
    pub ascent: i64,
}

impl InlineMetrics {
    pub open spec fn wf(self) -> bool {
        &&& scalar_ok(self.space_above_baseline)
        &&& scalar_ok(self.space_below_baseline)
        &&& scalar_ok(self.ascent)
    }

    /// Creates a new set of unit metrics.
    pub fn new(space_above_baseline: i64, space_below_baseline: i64, ascent: i64) -> (r:
        InlineMetrics)
        ensures
            r.space_above_baseline == space_above_baseline,
            r.space_below_baseline == space_below_baseline,
            r.ascent == ascent,
    {
        InlineMetrics { space_above_baseline, space_below_baseline, ascent }
    }

    /// Derives unit metrics from font metrics and a line block-size. The
    /// leading is split around the glyphs so that the space above plus the
    /// space below equals the requested line height exactly.
    pub fn from_font_metrics(font_metrics: &FontMetrics, line_height: i64) -> (r: InlineMetrics)
        requires
            scalar_ok(font_metrics.ascent),
            scalar_ok(font_metrics.descent),
            0 <= line_height <= MAX_SCALAR,
        ensures
            r.ascent == font_metrics.ascent,
            r.space_above_baseline + r.space_below_baseline == line_height,
            r.space_above_baseline == font_metrics.ascent + half_toward_zero(
                line_height - font_metrics.ascent - font_metrics.descent,
            ),
    {
        let leading: i64 = line_height - (font_metrics.ascent + font_metrics.descent);
        // Taking half here and the remainder below keeps rounding from
        // changing the total: the envelope must sum to `line_height` exactly.
        let half_leading: i64 = leading / 2;
        InlineMetrics {
            space_above_baseline: font_metrics.ascent + half_leading,
            space_below_baseline: font_metrics.descent + (leading - half_leading),
            ascent: font_metrics.ascent,
        }
    }

    /// The sum of the space needed above and below the baseline.
    pub open spec fn spec_space_needed(self) -> int {
        self.space_above_baseline + self.space_below_baseline
    }

    /// The sum of the space needed above and below the baseline.
    pub fn space_needed(&self) -> (r: i64)
        requires
            self.wf(),
        ensures
            r == self.spec_space_needed(),
    {
        self.space_above_baseline + self.space_below_baseline
    }
}

/// A line's vertical envelope relative to its own baseline.
#[derive(Clone, Copy, PartialEq, Eq, Structural, Debug)]
pub struct LineMetrics {
    pub space_above_baseline: i64,
    pub space_below_baseline: i64,
}

impl LineMetrics {
    /// A line's envelope can reach twice the input scalar bound: a
    /// top-aligned box can force both halves at once.
    pub open spec fn wf(self) -> bool {
        &&& 0 <= self.space_above_baseline <= 2 * MAX_SCALAR
        &&& 0 <= self.space_below_baseline <= 2 * MAX_SCALAR
    }

    pub fn new(space_above_baseline: i64, space_below_baseline: i64) -> (r: LineMetrics)
        ensures
            r.space_above_baseline == space_above_baseline,
            r.space_below_baseline == space_below_baseline,
    {
        LineMetrics { space_above_baseline, space_below_baseline }
    }

    /// The metrics that result from combining this line's envelope with a
    /// unit's envelope: the pointwise maximum.
    pub open spec fn spec_combine(self, unit: InlineMetrics) -> LineMetrics {
        LineMetrics {
            space_above_baseline: if unit.space_above_baseline > self.space_above_baseline {
                unit.space_above_baseline
            } else {
                self.space_above_baseline
            },
            space_below_baseline: if unit.space_below_baseline > self.space_below_baseline {
                unit.space_below_baseline
            } else {
                self.space_below_baseline
            },
        }
    }

    /// Combines this line's envelope with the envelope of one more unit.
    pub fn new_metrics_for_fragment(&self, fragment_inline_metrics: &InlineMetrics) -> (r:
        LineMetrics)
        ensures
            r == self.spec_combine(*fragment_inline_metrics),
    {
        LineMetrics {
            space_above_baseline: if fragment_inline_metrics.space_above_baseline
                > self.space_above_baseline {
                fragment_inline_metrics.space_above_baseline
            } else {
                self.space_above_baseline
            },
            space_below_baseline: if fragment_inline_metrics.space_below_baseline
                > self.space_below_baseline {
                fragment_inline_metrics.space_below_baseline
            } else {
                self.space_below_baseline
            },
        }
    }

    /// The sum of the space needed above and below the baseline.
    pub open spec fn spec_space_needed(self) -> int {
        self.space_above_baseline + self.space_below_baseline
    }

    /// The sum of the space needed above and below the baseline.
    pub fn space_needed(&self) -> (r: i64)
        requires
            self.wf(),
        ensures
            r == self.spec_space_needed(),
    {
        self.space_above_baseline + self.space_below_baseline
    }
}

} // verus!
