//! The resolved style values the engine reads from each layout unit. These
//! carry exactly what the line-breaking, alignment and truncation rules
//! consume; cascade and value resolution happen upstream.

use vstd::prelude::*;
use crate::geometry::scalar_ok;

verus! {

/// Horizontal alignment of a line's content. `Left` and `Right` are
/// physical directions and are remapped to logical `Start`/`End` according
/// to the writing direction before use.
#[derive(Clone, Copy, PartialEq, Eq, Structural, Debug)]
pub enum TextAlign {
    Start,
    End,
    Center,
    Justify,
    Left,
    Right,
}

/// Whether justification is enabled by style.
#[derive(Clone, Copy, PartialEq, Eq, Structural, Debug)]
pub enum TextJustify {
    Auto,
    Disabled,
}

/// Whether a unit's content may be wrapped onto the next line.
#[derive(Clone, Copy, PartialEq, Eq, Structural, Debug)]
pub enum TextWrapMode {
    Wrap,
    Nowrap,
}

/// Whether white space in a unit's content collapses or is preserved.
#[derive(Clone, Copy, PartialEq, Eq, Structural, Debug)]
pub enum WhiteSpaceCollapse {
    Collapse,
    Preserve,
}

/// How content overflowing the line's available inline extent is treated.
/// The ellipsis variant carries the margin-box inline size of the
/// placeholder that would be synthesized, measured upstream.
#[derive(Clone, Copy, PartialEq, Eq, Structural, Debug)]
pub enum TextOverflowSide {
    Clip,
    Ellipsis { advance: i64 },
}

impl TextOverflowSide {
    pub open spec fn wf(self) -> bool {
        match self {
            TextOverflowSide::Clip => true,
            TextOverflowSide::Ellipsis { advance } => scalar_ok(advance),
        }
    }
}

/// The vertical-align value of a unit. A length is a signed baseline shift.
#[derive(Clone, Copy, PartialEq, Eq, Structural, Debug)]
pub enum VerticalAlign {
    Baseline,
    Top,
    Bottom,
    Length { shift: i64 },
}

impl VerticalAlign {
    /// True for the keywords that take a unit out of ordinary
    /// baseline-relative stacking.
    pub open spec fn spec_is_top_or_bottom(self) -> bool {
        self is Top || self is Bottom
    }

    pub fn is_top_or_bottom(&self) -> (r: bool)
        ensures
            r == self.spec_is_top_or_bottom(),
    {
        match self {
            VerticalAlign::Top => true,
            VerticalAlign::Bottom => true,
            _ => false,
        }
    }
}

/// The display type of an enclosing element, as far as the minimum-metrics
/// rules distinguish it.
#[derive(Clone, Copy, PartialEq, Eq, Structural, Debug)]
pub enum Display {
    Inline,
    Block,
    InlineBlock,
    InlineFlex,
    Other,
}

impl Display {
    /// True for the display types whose top- or bottom-aligned boxes are
    /// kept out of baseline stacking when computing minimum line metrics.
    pub open spec fn spec_stacks_outside_baseline(self) -> bool {
        self is Inline || self is Block || self is InlineBlock || self is InlineFlex
    }

    pub fn stacks_outside_baseline(&self) -> (r: bool)
        ensures
            r == self.spec_stacks_outside_baseline(),
    {
        match self {
            Display::Inline => true,
            Display::Block => true,
            Display::InlineBlock => true,
            Display::InlineFlex => true,
            Display::Other => false,
        }
    }
}

} // verus!
