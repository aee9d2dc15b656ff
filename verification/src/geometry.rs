//! Flow-local logical geometry: lengths in app units (integer fixed point),
//! points, sizes and rectangles with an inline axis and a block axis.

use vstd::prelude::*;

verus! {

/// Upper bound on the magnitude of any single input length (a margin, a
/// border+padding extent, a box size, a per-character advance, an
/// indentation, or a float-band extent), in app units.
pub const MAX_SCALAR: i64 = 0x200000;

/// Upper bound on the number of characters a single text run may carry;
/// generous for any shaped run, and small enough that every per-line
/// accumulation fits comfortably in sixty-four bits.
pub const MAX_RUN_CHARS: usize = 0x10_0000;

/// A block-axis extent standing for "no float below this point constrains
/// the line": larger than any extent a well-formed input can demand.
pub const UNBOUNDED_BLOCK: i64 = 0x4000_0000_0000;

/// A length value is a well-formed input scalar when it is a nonnegative
/// app-unit count no larger than `MAX_SCALAR`.
pub open spec fn scalar_ok(v: i64) -> bool {
    0 <= v <= MAX_SCALAR
}

/// The saturation limit of accumulated app-unit coordinates. Sums of
/// lengths saturate here instead of wrapping, as app-unit arithmetic
/// conventionally does.
pub const AU_LIMIT: i64 = 0x1000_0000_0000_0000;

/// A coordinate value inside the saturation range.
pub open spec fn au_ok(v: i64) -> bool {
    -AU_LIMIT <= v <= AU_LIMIT
}

/// `x` clamped into the saturation range.
pub open spec fn au_clamp(x: int) -> i64 {
    if x > AU_LIMIT {
        AU_LIMIT
    } else if x < -(AU_LIMIT as int) {
        (-(AU_LIMIT as int)) as i64
    } else {
        x as i64
    }
}

/// Saturating addition of app-unit values.
pub fn au_add(a: i64, b: i64) -> (r: i64)
    requires
        au_ok(a),
        au_ok(b),
    ensures
        r == au_clamp(a + b),
        au_ok(r),
        a >= 0 && b >= 0 ==> r >= 0,
{
    let s: i64 = a + b;
    if s > AU_LIMIT {
        AU_LIMIT
    } else if s < -AU_LIMIT {
        -AU_LIMIT
    } else {
        s
    }
}

/// A size in flow-relative logical coordinates.
#[derive(Clone, Copy, PartialEq, Eq, Structural, Debug)]
pub struct LogicalSize {
    /// Extent along the inline (writing) axis.
    pub inline: i64,
    /// Extent along the block (line-stacking) axis.
    pub block: i64,
}

impl LogicalSize {
    /// The zero size.
    pub fn zero() -> (r: LogicalSize)
        ensures
            r.inline == 0 && r.block == 0,
    {
        LogicalSize { inline: 0, block: 0 }
    }

    pub fn new(inline: i64, block: i64) -> (r: LogicalSize)
        ensures
            r.inline == inline && r.block == block,
    {
        LogicalSize { inline, block }
    }
}

/// A point in flow-relative logical coordinates.
#[derive(Clone, Copy, PartialEq, Eq, Structural, Debug)]
pub struct LogicalPoint {
    /// Inline-axis coordinate.
    pub i: i64,
    /// Block-axis coordinate.
    pub b: i64,
}

impl LogicalPoint {
    pub fn zero() -> (r: LogicalPoint)
        ensures
            r.i == 0 && r.b == 0,
    {
        LogicalPoint { i: 0, b: 0 }
    }

    pub fn new(i: i64, b: i64) -> (r: LogicalPoint)
        ensures
            r.i == i && r.b == b,
    {
        LogicalPoint { i, b }
    }
}

/// A rectangle in flow-relative logical coordinates: an origin and a size.
#[derive(Clone, Copy, PartialEq, Eq, Structural, Debug)]
pub struct LogicalRect {
    pub start: LogicalPoint,
    pub size: LogicalSize,
}

impl LogicalRect {
    /// The zero rectangle.
    pub fn zero() -> (r: LogicalRect)
        ensures
            r.start.i == 0 && r.start.b == 0 && r.size.inline == 0 && r.size.block == 0,
    {
        LogicalRect { start: LogicalPoint { i: 0, b: 0 }, size: LogicalSize { inline: 0, block: 0 } }
    }

    pub fn new(i: i64, b: i64, inline: i64, block: i64) -> (r: LogicalRect)
        ensures
            r.start.i == i && r.start.b == b && r.size.inline == inline && r.size.block == block,
    {
        LogicalRect { start: LogicalPoint { i, b }, size: LogicalSize { inline, block } }
    }
}

} // verus!
