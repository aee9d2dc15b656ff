//! The float oracle: an immutable snapshot of float-constrained space,
//! queried as "where can a box of this size fit without colliding with a
//! float, at or below this vertical ceiling". The snapshot is a list of
//! consecutive horizontal bands, each giving the available inline strip
//! while it lasts; below the last band nothing constrains the line. The
//! answer is deterministic, and raising the ceiling never moves the
//! placement upward.

use vstd::prelude::*;
use crate::geometry::{scalar_ok, LogicalPoint, LogicalRect, LogicalSize, MAX_SCALAR,
    UNBOUNDED_BLOCK};

verus! {

/// One horizontal band of float-constrained space: up to `end_b`, a line
/// must fit in the inline strip starting at `origin_i` of width `width`.
#[derive(Clone, Copy, PartialEq, Eq, Structural, Debug)]
pub struct FloatBand {
    /// Where this band ends (exclusive) on the block axis. The band
    /// starts where the previous one ends, the first at zero.
    pub end_b: i64,
    /// Inline origin of the available strip inside this band.
    pub origin_i: i64,
    /// Inline extent of the available strip inside this band.
    pub width: i64,
}

/// An immutable snapshot of the float-constrained space of one flow.
#[derive(Clone, PartialEq, Eq, Debug)]
pub struct FloatState {
    /// Consecutive bands from the block-axis origin downward.
    pub bands: Vec<FloatBand>,
}

/// A placement request handed to the float oracle.
#[derive(Clone, Copy, PartialEq, Eq, Structural, Debug)]
pub struct PlacementInfo {
    /// The size the line needs.
    pub size: LogicalSize,
    /// The placement must not start above this block coordinate.
    pub ceiling: i64,
    /// The inline size of the containing block.
    pub max_inline_size: i64,
}

impl FloatState {
    /// Where the band at index `k` starts on the block axis.
    pub open spec fn band_start(self, k: int) -> i64 {
        if k == 0 {
            0
        } else {
            self.bands@[k - 1].end_b
        }
    }

    pub open spec fn wf(self) -> bool {
        forall|k: int|
            0 <= k < self.bands@.len() ==> {
                &&& scalar_ok((#[trigger] self.bands@[k]).end_b)
                &&& scalar_ok(self.bands@[k].origin_i)
                &&& scalar_ok(self.bands@[k].width)
                &&& self.band_start(k) < self.bands@[k].end_b
            }
    }

    /// A snapshot with no floats at all.
    pub fn new() -> (r: FloatState)
        ensures
            r.bands@.len() == 0,
            r.wf(),
    {
        FloatState { bands: Vec::new() }
    }

    /// Where the space below every band begins.
    pub open spec fn spec_floor(self) -> i64 {
        if self.bands@.len() == 0 {
            0
        } else {
            self.bands@[self.bands@.len() - 1].end_b
        }
    }

    /// The oracle's answer, scanning bands from index `k` downward: the
    /// first band at or below the ceiling whose remaining extent admits
    /// the requested size, or else the unconstrained space below all
    /// bands. The returned rectangle's origin is the placement and its
    /// size is the green zone there.
    pub open spec fn spec_place_from(self, k: int, info: PlacementInfo) -> LogicalRect
        decreases self.bands@.len() - k,
    {
        if k < 0 || k >= self.bands@.len() {
            LogicalRect {
                start: LogicalPoint {
                    i: 0,
                    b: if info.ceiling > self.spec_floor() {
                        info.ceiling
                    } else {
                        self.spec_floor()
                    },
                },
                size: LogicalSize { inline: info.max_inline_size, block: UNBOUNDED_BLOCK },
            }
        } else {
            let band = self.bands@[k];
            let cand: i64 = if info.ceiling > self.band_start(k) {
                info.ceiling
            } else {
                self.band_start(k)
            };
            let avail_inline: i64 = if band.width < info.max_inline_size {
                band.width
            } else {
                info.max_inline_size
            };
            if cand < band.end_b && avail_inline >= info.size.inline && band.end_b - cand
                >= info.size.block {
                LogicalRect {
                    start: LogicalPoint { i: band.origin_i, b: cand },
                    size: LogicalSize { inline: avail_inline, block: (band.end_b - cand) as i64 },
                }
            } else {
                self.spec_place_from(k + 1, info)
            }
        }
    }

    /// What the oracle guarantees of every answer: the placement honors
    /// the ceiling, never lies above the block-axis origin, stays within
    /// a band or at the floor, and its green zone admits the requested
    /// block extent and never exceeds the containing block inline size.
    pub proof fn lemma_place_props(self, k: int, info: PlacementInfo)
        requires
            self.wf(),
            0 <= k,
            info.ceiling >= 0,
            0 <= info.max_inline_size <= MAX_SCALAR,
            0 <= info.size.block <= 4 * MAX_SCALAR,
        ensures
            ({
                let r = self.spec_place_from(k, info);
                &&& r.start.b >= info.ceiling
                &&& r.start.b >= 0
                &&& r.start.b <= info.ceiling + MAX_SCALAR
                &&& (r.start.b <= info.ceiling || r.start.b <= MAX_SCALAR)
                &&& 0 <= r.start.i <= MAX_SCALAR
                &&& 0 <= r.size.inline <= info.max_inline_size
                &&& info.size.block <= r.size.block <= UNBOUNDED_BLOCK
            }),
        decreases self.bands@.len() - k,
    {
        if 0 <= k < self.bands@.len() {
            let band = self.bands@[k];
            let cand: i64 = if info.ceiling > self.band_start(k) {
                info.ceiling
            } else {
                self.band_start(k)
            };
            let avail_inline: i64 = if band.width < info.max_inline_size {
                band.width
            } else {
                info.max_inline_size
            };
            if cand < band.end_b && avail_inline >= info.size.inline && band.end_b - cand
                >= info.size.block {
            } else {
                self.lemma_place_props(k + 1, info);
            }
        }
    }

    /// Answers a placement request. Deterministic: the result is exactly
    /// the specified scan of the band list.
    pub fn place_between_floats(&self, info: &PlacementInfo) -> (r: LogicalRect)
        requires
            self.wf(),
            info.ceiling >= 0,
            0 <= info.max_inline_size <= MAX_SCALAR,
            0 <= info.size.block <= 4 * MAX_SCALAR,
        ensures
            r == self.spec_place_from(0, *info),
            r.start.b >= info.ceiling,
            r.start.b <= info.ceiling + MAX_SCALAR,
            r.start.b <= info.ceiling || r.start.b <= MAX_SCALAR,
            0 <= r.start.i <= MAX_SCALAR,
            0 <= r.size.inline <= info.max_inline_size,
            info.size.block <= r.size.block <= UNBOUNDED_BLOCK,
    {
        proof {
            self.lemma_place_props(0, *info);
        }
        let mut k: usize = 0;
        while k < self.bands.len()
            invariant
                self.wf(),
                info.ceiling >= 0,
                0 <= info.max_inline_size <= MAX_SCALAR,
                0 <= info.size.block <= 4 * MAX_SCALAR,
                k <= self.bands@.len(),
                self.spec_place_from(0, *info) == self.spec_place_from(k as int, *info),
            decreases self.bands@.len() - k,
        {
            let band = self.bands[k];
            let start: i64 = if k == 0 {
                0
            } else {
                self.bands[k - 1].end_b
            };
            let cand: i64 = if info.ceiling > start {
                info.ceiling
            } else {
                start
            };
            let avail_inline: i64 = if band.width < info.max_inline_size {
                band.width
            } else {
                info.max_inline_size
            };
            if cand < band.end_b && avail_inline >= info.size.inline && band.end_b - cand
                >= info.size.block {
                return LogicalRect {
                    start: LogicalPoint { i: band.origin_i, b: cand },
                    size: LogicalSize { inline: avail_inline, block: band.end_b - cand },
                };
            }
            k = k + 1;
        }
        let floor: i64 = if self.bands.len() == 0 {
            0
        } else {
            self.bands[self.bands.len() - 1].end_b
        };
        let b: i64 = if info.ceiling > floor {
            info.ceiling
        } else {
            floor
        };
        LogicalRect {
            start: LogicalPoint { i: 0, b },
            size: LogicalSize { inline: info.max_inline_size, block: UNBOUNDED_BLOCK },
        }
    }

    /// Raising the ceiling never moves a placement upward: the oracle is
    /// monotonic on the block axis.
    pub proof fn lemma_place_monotonic(self, k: int, lo: PlacementInfo, hi: PlacementInfo)
        requires
            self.wf(),
            0 <= k,
            lo.size == hi.size,
            lo.max_inline_size == hi.max_inline_size,
            0 <= lo.ceiling <= hi.ceiling,
        ensures
            self.spec_place_from(k, lo).start.b <= self.spec_place_from(k, hi).start.b,
        decreases self.bands@.len() - k,
    {
        if 0 <= k < self.bands@.len() {
            let band = self.bands@[k];
            let cand_lo: i64 = if lo.ceiling > self.band_start(k) {
                lo.ceiling
            } else {
                self.band_start(k)
            };
            let cand_hi: i64 = if hi.ceiling > self.band_start(k) {
                hi.ceiling
            } else {
                self.band_start(k)
            };
            let avail_inline: i64 = if band.width < lo.max_inline_size {
                band.width
            } else {
                lo.max_inline_size
            };
            let fits_lo = cand_lo < band.end_b && avail_inline >= lo.size.inline && band.end_b
                - cand_lo >= lo.size.block;
            let fits_hi = cand_hi < band.end_b && avail_inline >= hi.size.inline && band.end_b
                - cand_hi >= hi.size.block;
            if fits_lo && fits_hi {
            } else if fits_lo && !fits_hi {
                self.lemma_place_from_below_band(k + 1, hi);
            } else {
                // A request that fits at the higher ceiling also fits at
                // the lower one, so only the both-continue case remains.
                self.lemma_place_monotonic(k + 1, lo, hi);
            }
        }
    }

    /// A placement scanned from band `k` onward never lies above band
    /// `k`'s start.
    proof fn lemma_place_from_below_band(self, k: int, info: PlacementInfo)
        requires
            self.wf(),
            1 <= k <= self.bands@.len(),
        ensures
            self.spec_place_from(k, info).start.b >= self.bands@[k - 1].end_b,
        decreases self.bands@.len() - k,
    {
        if k < self.bands@.len() {
            self.lemma_place_from_below_band(k + 1, info);
        }
    }
}

} // verus!
