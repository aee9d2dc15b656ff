//! Inline layout: a line-breaking engine for one paragraph-like formatting
//! context. A flat sequence of inline-level layout units (text slices and
//! replaced boxes) is partitioned into visual lines, with fragment splitting,
//! float avoidance, bidirectional reordering, alignment and justification,
//! vertical alignment, and text-overflow truncation.

use vstd::prelude::*;

pub mod bidi;
pub mod breaker;
pub mod flow;
pub mod fragment;
pub mod floats;
pub mod fragment_range;
pub mod geometry;
pub mod line;
pub mod metrics;
pub mod position;
pub mod style_data;
pub mod text_run;

verus! {

} // verus!
