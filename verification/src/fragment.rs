//! Layout units ("fragments"): atomic inline-level content items — text
//! slices referencing shared runs, and replaced or inline-block boxes —
//! together with the capability surface the line-breaking engine consumes.

use vstd::prelude::*;
use crate::geometry::{scalar_ok, LogicalPoint, MAX_RUN_CHARS, MAX_SCALAR};
use crate::metrics::InlineMetrics;
use crate::style_data::{
    TextOverflowSide, TextWrapMode, VerticalAlign, WhiteSpaceCollapse,
};
use crate::text_run::{weighted_advance, TextRun};

verus! {

/// Upper bound on the margin-box inline size of any well-formed unit.
pub const MAX_BOX_SIZE: i64 = 0x800_0000_0000;

/// Classification flags of one unit: a small named flag set rather than
/// loose booleans scattered over the unit.
#[derive(Clone, Copy, PartialEq, Eq, Structural, Debug)]
pub struct FragmentFlags {
    /// The unit is a synthesized ellipsis placeholder, not input content.
    pub is_ellipsis: bool,
    /// The unit is a hypothetical box (absolutely positioned placeholder)
    /// that takes up no space in the line.
    pub is_hypothetical: bool,
    /// The unit is an absolutely positioned inline box.
    pub is_inline_absolute: bool,
    /// The unit is replaced content or an inline-block box.
    pub is_replaced: bool,
    /// A line break directly before this unit is suppressed.
    pub suppress_line_break_before: bool,
    /// The unit's content starts on a glyph-run boundary, so a break
    /// before it is legal.
    pub on_glyph_run_boundary: bool,
}

impl FragmentFlags {
    /// The flag set of an ordinary unbroken content unit.
    pub fn plain() -> (r: FragmentFlags)
        ensures
            r == (FragmentFlags {
                is_ellipsis: false,
                is_hypothetical: false,
                is_inline_absolute: false,
                is_replaced: false,
                suppress_line_break_before: false,
                on_glyph_run_boundary: true,
            }),
    {
        FragmentFlags {
            is_ellipsis: false,
            is_hypothetical: false,
            is_inline_absolute: false,
            is_replaced: false,
            suppress_line_break_before: false,
            on_glyph_run_boundary: true,
        }
    }
}

/// Per-element flags on an enclosing-element record.
#[derive(Clone, Copy, PartialEq, Eq, Structural, Debug)]
pub struct InlineFragmentNodeFlags {
    /// The unit is the first fragment generated for its element.
    pub first_fragment_of_element: bool,
    /// The unit is the last fragment generated for its element.
    pub last_fragment_of_element: bool,
}

/// One enclosing element a unit inherits inline styles from. The address
/// is an opaque node handle; metrics and style values are resolved
/// upstream and carried as plain values.
#[derive(Clone, Copy, PartialEq, Eq, Structural, Debug)]
pub struct InlineFragmentNodeInfo {
    pub address: u64,
    pub flags: InlineFragmentNodeFlags,
    pub metrics: InlineMetrics,
    pub display: crate::style_data::Display,
    pub vertical_align: VerticalAlign,
}

/// The list of enclosing elements a unit inherits styles from, from the
/// most deeply nested element out.
#[derive(Clone, PartialEq, Eq, Debug)]
#[verifier::ext_equal]
pub struct InlineFragmentContext {
    pub nodes: Vec<InlineFragmentNodeInfo>,
}

impl InlineFragmentContext {
    pub fn new() -> (r: InlineFragmentContext)
        ensures
            r.nodes@.len() == 0,
    {
        InlineFragmentContext { nodes: Vec::new() }
    }

    /// True when some enclosing element has the given node address.
    pub fn contains_node(&self, node_address: u64) -> (r: bool)
        ensures
            r == exists|i: int|
                0 <= i < self.nodes@.len() && #[trigger] self.nodes@[i].address == node_address,
    {
        let mut i: usize = 0;
        while i < self.nodes.len()
            invariant
                i <= self.nodes@.len(),
                forall|j: int| 0 <= j < i ==> #[trigger] self.nodes@[j].address != node_address,
            decreases self.nodes@.len() - i,
        {
            if self.nodes[i].address == node_address {
                return true;
            }
            i = i + 1;
        }
        false
    }

    /// Two contexts describe the same element chain.
    pub open spec fn spec_ptr_eq(self, other: InlineFragmentContext) -> bool {
        &&& self.nodes@.len() == other.nodes@.len()
        &&& forall|i: int|
            0 <= i < self.nodes@.len() ==> #[trigger] self.nodes@[i].address
                == other.nodes@[i].address
    }

    /// Compares the element chains of two contexts by node identity.
    pub fn ptr_eq(&self, other: &InlineFragmentContext) -> (r: bool)
        ensures
            r == self.spec_ptr_eq(*other),
    {
        if self.nodes.len() != other.nodes.len() {
            return false;
        }
        let mut i: usize = 0;
        while i < self.nodes.len()
            invariant
                i <= self.nodes@.len(),
                self.nodes@.len() == other.nodes@.len(),
                forall|j: int|
                    0 <= j < i ==> #[trigger] self.nodes@[j].address == other.nodes@[j].address,
            decreases self.nodes@.len() - i,
        {
            if self.nodes[i].address != other.nodes[i].address {
                return false;
            }
            i = i + 1;
        }
        true
    }
}

/// Whether two optional contexts describe the same element chain.
pub open spec fn spec_inline_contexts_are_equal(
    a: Option<InlineFragmentContext>,
    b: Option<InlineFragmentContext>,
) -> bool {
    match (a, b) {
        (Some(ca), Some(cb)) => ca.spec_ptr_eq(cb),
        (None, None) => true,
        _ => false,
    }
}

pub fn inline_contexts_are_equal(
    inline_context_a: &Option<InlineFragmentContext>,
    inline_context_b: &Option<InlineFragmentContext>,
) -> (r: bool)
    ensures
        r == spec_inline_contexts_are_equal(*inline_context_a, *inline_context_b),
{
    match (inline_context_a, inline_context_b) {
        (Some(ca), Some(cb)) => ca.ptr_eq(cb),
        (None, None) => true,
        _ => false,
    }
}

/// A slice of a shared text run. The provenance interval `[begin, end)`
/// names the characters this unit derives from; the visible interval is
/// the provenance interval less any stripped leading or trailing white
/// space, so stripping is always reversible.
#[derive(Clone, Copy, PartialEq, Eq, Structural, Debug)]
pub struct TextSlice {
    /// Index of the source run in the flow's run table.
    pub run: usize,
    /// Provenance start (inclusive), in characters of the run.
    pub begin: usize,
    /// Provenance end (exclusive).
    pub end: usize,
    /// Leading characters hidden by white-space stripping.
    pub strip_front: usize,
    /// Trailing characters hidden by white-space stripping.
    pub strip_back: usize,
    /// Justification spacing added to each word separator, in app units.
    pub extra_word_spacing: i64,
    /// Leftover justification width assigned to this slice when the slack
    /// does not divide evenly among the line's separators, in app units.
    pub extra_justification: i64,
}

impl TextSlice {
    /// First visible character (inclusive).
    pub open spec fn vis_begin(self) -> int {
        self.begin + self.strip_front
    }

    /// End of the visible characters (exclusive).
    pub open spec fn vis_end(self) -> int {
        self.end - self.strip_back
    }

    pub open spec fn wf(self, runs: Seq<TextRun>) -> bool {
        &&& self.run < runs.len()
        &&& self.begin <= self.end <= runs[self.run as int].chars@.len()
        &&& self.strip_front + self.strip_back <= self.end - self.begin
        &&& 0 <= self.extra_word_spacing <= MAX_SCALAR
        &&& 0 <= self.extra_justification <= MAX_SCALAR
    }

    /// The inline extent of the visible characters.
    pub open spec fn vis_advance(self, runs: Seq<TextRun>) -> int {
        weighted_advance(
            runs[self.run as int],
            self.vis_begin(),
            self.vis_end(),
            self.extra_word_spacing as int,
        )
    }
}

/// What kind of content a unit carries.
#[derive(Clone, Copy, PartialEq, Eq, Structural, Debug)]
pub enum SpecificInfo {
    /// A slice of a shared text run.
    Text(TextSlice),
    /// A replaced, inline-block, or otherwise atomic non-text box.
    Generic,
    /// A text slice truncated by text-overflow; the untruncated slice is
    /// retained so a later layout pass can recover the full content.
    Truncated(TruncatedInfo),
}

/// A truncated text unit: the visible kept portion and the full original.
#[derive(Clone, Copy, PartialEq, Eq, Structural, Debug)]
pub struct TruncatedInfo {
    /// The portion kept on the line.
    pub text: TextSlice,
    /// The original, untruncated slice, recoverable on the next pass.
    pub full: TextSlice,
}

/// One atomic inline-level layout unit.
#[derive(Clone, PartialEq, Eq, Debug)]
pub struct Fragment {
    /// The unit's content.
    pub specific: SpecificInfo,
    /// Border-box inline size.
    pub inline_size: i64,
    /// Border-box block size.
    pub block_size: i64,
    /// Border-box origin in flow-local logical coordinates, assigned by
    /// the positioning pass.
    pub position: LogicalPoint,
    pub margin_inline_start: i64,
    pub margin_inline_end: i64,
    pub border_padding_inline_start: i64,
    pub border_padding_inline_end: i64,
    pub border_padding_block_start: i64,
    /// The unit's baseline-relative vertical envelope, precomputed from
    /// font metrics, line-height and vertical-align upstream.
    pub metrics: InlineMetrics,
    /// Resolved bidi embedding level of the unit's content.
    pub bidi_level: u8,
    pub wrap_mode: TextWrapMode,
    pub white_space: WhiteSpaceCollapse,
    pub text_overflow: TextOverflowSide,
    /// True when the enclosing box's overflow is visible, which disables
    /// text-overflow truncation.
    pub overflow_visible: bool,
    pub vertical_align: VerticalAlign,
    pub flags: FragmentFlags,
    /// Whether the unit's content is selected; split pieces keep it and
    /// merging requires it to agree.
    pub selected: bool,
    /// The enclosing elements this unit inherits inline styles from.
    pub inline_context: Option<InlineFragmentContext>,
}

impl Fragment {
    /// Well-formedness of one unit with respect to the flow's run table.
    pub open spec fn wf(self, runs: Seq<TextRun>) -> bool {
        &&& scalar_ok(self.margin_inline_start)
        &&& scalar_ok(self.margin_inline_end)
        &&& scalar_ok(self.border_padding_inline_start)
        &&& scalar_ok(self.border_padding_inline_end)
        &&& scalar_ok(self.border_padding_block_start)
        &&& scalar_ok(self.block_size)
        &&& self.metrics.wf()
        &&& self.text_overflow.wf()
        &&& match self.specific {
            SpecificInfo::Text(t) => {
                &&& t.wf(runs)
                &&& self.inline_size == self.border_padding_inline_start + t.vis_advance(runs)
                    + t.extra_justification + self.border_padding_inline_end
            },
            SpecificInfo::Generic => scalar_ok(self.inline_size),
            SpecificInfo::Truncated(tr) => {
                &&& tr.text.wf(runs)
                &&& tr.full.wf(runs)
                &&& tr.text.run == tr.full.run
                &&& self.inline_size == self.border_padding_inline_start + tr.text.vis_advance(
                    runs,
                ) + tr.text.extra_justification + self.border_padding_inline_end
            },
        }
    }

    /// The text content this unit derives from: its provenance characters.
    /// A synthesized ellipsis placeholder carries no content; a truncated
    /// unit's content is the full untruncated slice.
    pub open spec fn content(self, runs: Seq<TextRun>) -> Seq<u8> {
        if self.flags.is_ellipsis {
            Seq::empty()
        } else {
            match self.specific {
                SpecificInfo::Text(t) => runs[t.run as int].chars@.subrange(
                    t.begin as int,
                    t.end as int,
                ),
                SpecificInfo::Generic => Seq::empty(),
                SpecificInfo::Truncated(tr) => runs[tr.full.run as int].chars@.subrange(
                    tr.full.begin as int,
                    tr.full.end as int,
                ),
            }
        }
    }

    /// The margin-box inline size: margins plus the border box.
    pub open spec fn spec_margin_box_inline_size(self) -> int {
        self.margin_inline_start + self.inline_size + self.margin_inline_end
    }

    pub fn margin_box_inline_size(&self, runs: &Vec<TextRun>) -> (r: i64)
        requires
            self.wf(runs@),
            crate::text_run::runs_wf(runs@),
        ensures
            r == self.spec_margin_box_inline_size(),
    {
        proof {
            self.lemma_inline_size_bounds(runs@);
        }
        self.margin_inline_start + self.inline_size + self.margin_inline_end
    }

    /// A well-formed unit's inline sizes are nonnegative and bounded.
    pub proof fn lemma_inline_size_bounds(self, runs: Seq<TextRun>)
        requires
            self.wf(runs),
            crate::text_run::runs_wf(runs),
        ensures
            0 <= self.inline_size <= MAX_BOX_SIZE,
            0 <= self.spec_margin_box_inline_size() <= MAX_BOX_SIZE,
    {
        match self.specific {
            SpecificInfo::Text(t) => {
                crate::text_run::lemma_weighted_advance_bounds(
                    runs[t.run as int],
                    t.vis_begin(),
                    t.vis_end(),
                    t.extra_word_spacing as int,
                );
                assert((t.vis_end() - t.vis_begin()) * (2 * MAX_SCALAR) <= MAX_RUN_CHARS * (2
                    * MAX_SCALAR)) by (nonlinear_arith)
                    requires
                        0 <= t.vis_end() - t.vis_begin() <= MAX_RUN_CHARS,
                ;
            },
            SpecificInfo::Generic => {},
            SpecificInfo::Truncated(tr) => {
                crate::text_run::lemma_weighted_advance_bounds(
                    runs[tr.text.run as int],
                    tr.text.vis_begin(),
                    tr.text.vis_end(),
                    tr.text.extra_word_spacing as int,
                );
                assert((tr.text.vis_end() - tr.text.vis_begin()) * (2 * MAX_SCALAR)
                    <= MAX_RUN_CHARS * (2 * MAX_SCALAR)) by (nonlinear_arith)
                    requires
                        0 <= tr.text.vis_end() - tr.text.vis_begin() <= MAX_RUN_CHARS,
                ;
            },
        }
    }

    /// True when the engine may try to split this unit's content.
    pub open spec fn spec_can_split(self) -> bool {
        self.specific is Text
    }

    pub fn can_split(&self) -> (r: bool)
        ensures
            r == self.spec_can_split(),
    {
        match self.specific {
            SpecificInfo::Text(_) => true,
            _ => false,
        }
    }

    /// True when the unit is a text slice or replaced content, so it
    /// contributes to content-derived line metrics.
    pub open spec fn spec_is_text_or_replaced(self) -> bool {
        self.specific is Text || self.specific is Truncated || self.flags.is_replaced
    }

    pub fn is_text_or_replaced(&self) -> (r: bool)
        ensures
            r == self.spec_is_text_or_replaced(),
    {
        match self.specific {
            SpecificInfo::Text(_) => true,
            SpecificInfo::Truncated(_) => true,
            SpecificInfo::Generic => self.flags.is_replaced,
        }
    }

    /// True when the unit is taken out of ordinary baseline stacking by
    /// its vertical-align keyword.
    pub open spec fn spec_is_vertically_aligned_to_top_or_bottom(self) -> bool {
        self.vertical_align.spec_is_top_or_bottom()
    }

    pub fn is_vertically_aligned_to_top_or_bottom(&self) -> (r: bool)
        ensures
            r == self.spec_is_vertically_aligned_to_top_or_bottom(),
    {
        self.vertical_align.is_top_or_bottom()
    }

    /// True when, under preserved white space, a hard line break must
    /// follow this unit: its last visible character is a newline.
    pub open spec fn spec_requires_line_break_afterward(self, runs: Seq<TextRun>) -> bool {
        match self.specific {
            SpecificInfo::Text(t) => t.vis_begin() < t.vis_end() && runs[t.run as int].chars@[t.vis_end()
                - 1] == crate::text_run::NEWLINE_CHAR,
            _ => false,
        }
    }

    pub fn requires_line_break_afterward_if_wrapping_on_newlines(&self, runs: &Vec<TextRun>) -> (r:
        bool)
        requires
            self.wf(runs@),
        ensures
            r == self.spec_requires_line_break_afterward(runs@),
    {
        match &self.specific {
            SpecificInfo::Text(t) => {
                let vb: usize = t.begin + t.strip_front;
                let ve: usize = t.end - t.strip_back;
                vb < ve && runs[t.run].chars[ve - 1] == crate::text_run::NEWLINE_CHAR
            },
            _ => false,
        }
    }
}

/// The node record with its last-fragment-of-element flag cleared.
pub open spec fn spec_node_without_last(n: InlineFragmentNodeInfo) -> InlineFragmentNodeInfo {
    InlineFragmentNodeInfo {
        flags: InlineFragmentNodeFlags {
            first_fragment_of_element: n.flags.first_fragment_of_element,
            last_fragment_of_element: false,
        },
        ..n
    }
}

/// The node record with its first-fragment-of-element flag cleared.
pub open spec fn spec_node_without_first(n: InlineFragmentNodeInfo) -> InlineFragmentNodeInfo {
    InlineFragmentNodeInfo {
        flags: InlineFragmentNodeFlags {
            first_fragment_of_element: false,
            last_fragment_of_element: n.flags.last_fragment_of_element,
        },
        ..n
    }
}

/// `new` is `old` with the last-fragment flag cleared on every node.
pub open spec fn spec_ctx_without_last(
    old_ctx: Option<InlineFragmentContext>,
    new_ctx: Option<InlineFragmentContext>,
) -> bool {
    match (old_ctx, new_ctx) {
        (None, None) => true,
        (Some(a), Some(b)) => b.nodes@.len() == a.nodes@.len() && forall|i: int|
            0 <= i < a.nodes@.len() ==> b.nodes@[i] == spec_node_without_last(
                #[trigger] a.nodes@[i],
            ),
        _ => false,
    }
}

/// `new` is `old` with the first-fragment flag cleared on every node.
pub open spec fn spec_ctx_without_first(
    old_ctx: Option<InlineFragmentContext>,
    new_ctx: Option<InlineFragmentContext>,
) -> bool {
    match (old_ctx, new_ctx) {
        (None, None) => true,
        (Some(a), Some(b)) => b.nodes@.len() == a.nodes@.len() && forall|i: int|
            0 <= i < a.nodes@.len() ==> b.nodes@[i] == spec_node_without_first(
                #[trigger] a.nodes@[i],
            ),
        _ => false,
    }
}

/// Clears the last-fragment flag on every node of a context.
fn ctx_without_last(ctx: &Option<InlineFragmentContext>) -> (r: Option<InlineFragmentContext>)
    ensures
        spec_ctx_without_last(*ctx, r),
{
    match ctx {
        Option::None => Option::None,
        Option::Some(c) => {
            let mut nodes: Vec<InlineFragmentNodeInfo> = Vec::new();
            let mut i: usize = 0;
            while i < c.nodes.len()
                invariant
                    i <= c.nodes@.len(),
                    nodes@.len() == i,
                    forall|j: int|
                        0 <= j < i ==> nodes@[j] == spec_node_without_last(#[trigger] c.nodes@[j]),
                decreases c.nodes@.len() - i,
            {
                let n = c.nodes[i];
                nodes.push(
                    InlineFragmentNodeInfo {
                        address: n.address,
                        flags: InlineFragmentNodeFlags {
                            first_fragment_of_element: n.flags.first_fragment_of_element,
                            last_fragment_of_element: false,
                        },
                        metrics: n.metrics,
                        display: n.display,
                        vertical_align: n.vertical_align,
                    },
                );
                i = i + 1;
            }
            Option::Some(InlineFragmentContext { nodes })
        },
    }
}

/// Clears the first-fragment flag on every node of a context.
fn ctx_without_first(ctx: &Option<InlineFragmentContext>) -> (r: Option<InlineFragmentContext>)
    ensures
        spec_ctx_without_first(*ctx, r),
{
    match ctx {
        Option::None => Option::None,
        Option::Some(c) => {
            let mut nodes: Vec<InlineFragmentNodeInfo> = Vec::new();
            let mut i: usize = 0;
            while i < c.nodes.len()
                invariant
                    i <= c.nodes@.len(),
                    nodes@.len() == i,
                    forall|j: int|
                        0 <= j < i ==> nodes@[j] == spec_node_without_first(#[trigger] c.nodes@[j]),
                decreases c.nodes@.len() - i,
            {
                let n = c.nodes[i];
                nodes.push(
                    InlineFragmentNodeInfo {
                        address: n.address,
                        flags: InlineFragmentNodeFlags {
                            first_fragment_of_element: false,
                            last_fragment_of_element: n.flags.last_fragment_of_element,
                        },
                        metrics: n.metrics,
                        display: n.display,
                        vertical_align: n.vertical_align,
                    },
                );
                i = i + 1;
            }
            Option::Some(InlineFragmentContext { nodes })
        },
    }
}

impl Fragment {
    /// The text slice of a text or truncated unit (a placeholder slice for
    /// any other unit).
    pub open spec fn text_slice(self) -> TextSlice {
        match self.specific {
            SpecificInfo::Text(t) => t,
            SpecificInfo::Truncated(tr) => tr.text,
            SpecificInfo::Generic => TextSlice {
                run: 0,
                begin: 0,
                end: 0,
                strip_front: 0,
                strip_back: 0,
                extra_word_spacing: 0,
                extra_justification: 0,
            },
        }
    }

    /// The unit's content weight for the engine's termination measure: a
    /// synthesized placeholder weighs nothing, any other unit weighs one
    /// plus the number of its provenance characters.
    pub open spec fn spec_mass(self) -> int {
        if self.flags.is_ellipsis {
            0
        } else {
            1 + match self.specific {
                SpecificInfo::Text(t) => t.end - t.begin,
                SpecificInfo::Truncated(tr) => tr.full.end - tr.full.begin,
                SpecificInfo::Generic => 0int,
            }
        }
    }

    /// The unit with white-space stripping and justification spacing
    /// undone and truncation reverted: the state it presents to a fresh
    /// layout pass.
    pub open spec fn spec_restored(self, runs: Seq<TextRun>) -> Fragment {
        match self.specific {
            SpecificInfo::Text(t) => Fragment {
                specific: SpecificInfo::Text(spec_reset_slice(t)),
                inline_size: (self.border_padding_inline_start + weighted_advance(
                    runs[t.run as int],
                    t.begin as int,
                    t.end as int,
                    0,
                ) + self.border_padding_inline_end) as i64,
                ..self
            },
            SpecificInfo::Truncated(tr) => Fragment {
                specific: SpecificInfo::Text(spec_reset_slice(tr.full)),
                inline_size: (self.border_padding_inline_start + weighted_advance(
                    runs[tr.full.run as int],
                    tr.full.begin as int,
                    tr.full.end as int,
                    0,
                ) + self.border_padding_inline_end) as i64,
                ..self
            },
            SpecificInfo::Generic => self,
        }
    }

    /// Undoes any white-space stripping, justification spacing and
    /// truncation from previous layout passes, recomputing the border-box
    /// inline size from the full content.
    #[verifier::rlimit(100)]
    #[verifier::spinoff_prover]
    pub fn reset_text_range_and_inline_size(&mut self, runs: &Vec<TextRun>)
        requires
            old(self).wf(runs@),
            crate::text_run::runs_wf(runs@),
        ensures
            *final(self) == old(self).spec_restored(runs@),
            final(self).wf(runs@),
            spec_weight(*final(self)) == spec_weight(*old(self)),
            final(self).content(runs@) == old(self).content(runs@),
    {
        proof {
            self.lemma_inline_size_bounds(runs@);
        }
        let full: Option<TextSlice> = match &self.specific {
            SpecificInfo::Text(t) => Option::Some(*t),
            SpecificInfo::Truncated(tr) => Option::Some(tr.full),
            SpecificInfo::Generic => Option::None,
        };
        match full {
            Option::Some(t) => {
                let advance: i64 = runs[t.run].advance_for_range(t.begin, t.end, 0);
                self.specific = SpecificInfo::Text(
                    TextSlice {
                        run: t.run,
                        begin: t.begin,
                        end: t.end,
                        strip_front: 0,
                        strip_back: 0,
                        extra_word_spacing: 0,
                        extra_justification: 0,
                    },
                );
                self.inline_size = self.border_padding_inline_start + advance
                    + self.border_padding_inline_end;
            },
            Option::None => {},
        }
    }

    /// The unit after stripping leading white space, when its white-space
    /// mode permits collapsing and it is a text slice.
    pub open spec fn spec_stripped_leading(self, runs: Seq<TextRun>) -> Fragment {
        if self.white_space is Collapse && self.specific is Text {
            let t = self.text_slice();
            let k = crate::text_run::leading_separator_run(
                runs[t.run as int],
                t.vis_begin(),
                t.vis_end(),
            );
            let t2 = TextSlice { strip_front: (t.strip_front + k) as usize, ..t };
            Fragment {
                specific: SpecificInfo::Text(t2),
                inline_size: (self.border_padding_inline_start + t2.vis_advance(runs)
                    + t2.extra_justification + self.border_padding_inline_end) as i64,
                ..self
            }
        } else {
            self
        }
    }

    /// The unit after stripping trailing white space, when its white-space
    /// mode permits collapsing and it is a text slice.
    pub open spec fn spec_stripped_trailing(self, runs: Seq<TextRun>) -> Fragment {
        if self.white_space is Collapse && self.specific is Text {
            let t = self.text_slice();
            let k = crate::text_run::trailing_separator_run(
                runs[t.run as int],
                t.vis_begin(),
                t.vis_end(),
            );
            let t2 = TextSlice { strip_back: (t.strip_back + k) as usize, ..t };
            Fragment {
                specific: SpecificInfo::Text(t2),
                inline_size: (self.border_padding_inline_start + t2.vis_advance(runs)
                    + t2.extra_justification + self.border_padding_inline_end) as i64,
                ..self
            }
        } else {
            self
        }
    }

    /// Strips leading white space if the applicable mode permits
    /// collapsing. Content is only hidden, never discarded.
    pub fn strip_leading_whitespace_if_necessary(&mut self, runs: &Vec<TextRun>)
        requires
            old(self).wf(runs@),
            crate::text_run::runs_wf(runs@),
        ensures
            *final(self) == old(self).spec_stripped_leading(runs@),
            final(self).wf(runs@),
            spec_weight(*final(self)) == spec_weight(*old(self)),
            final(self).content(runs@) == old(self).content(runs@),
    {
        if !matches!(self.white_space, WhiteSpaceCollapse::Collapse) {
            return ;
        }
        let t: TextSlice = match &self.specific {
            SpecificInfo::Text(t) => *t,
            _ => { return ; },
        };
        let ghost run_g = runs@[t.run as int];
        let vb: usize = t.begin + t.strip_front;
        let ve: usize = t.end - t.strip_back;
        let mut m: usize = vb;
        while m < ve && crate::text_run::is_separator(runs[t.run].chars[m])
            invariant
                t.wf(runs@),
                run_g == runs@[t.run as int],
                vb == t.vis_begin() && ve == t.vis_end(),
                vb <= m <= ve,
                forall|i: int|
                    vb <= i < m ==> crate::text_run::spec_is_separator(
                        #[trigger] run_g.chars@[i],
                    ),
            decreases ve - m,
        {
            m = m + 1;
        }
        proof {
            crate::text_run::lemma_leading_separator_run(run_g, vb as int, m as int, ve as int);
        }
        let advance: i64 = runs[t.run].advance_for_range(m, ve, t.extra_word_spacing);
        self.specific = SpecificInfo::Text(
            TextSlice {
                run: t.run,
                begin: t.begin,
                end: t.end,
                strip_front: t.strip_front + (m - vb),
                strip_back: t.strip_back,
                extra_word_spacing: t.extra_word_spacing,
                extra_justification: t.extra_justification,
            },
        );
        self.inline_size = self.border_padding_inline_start + advance + t.extra_justification
            + self.border_padding_inline_end;
    }

    /// Strips trailing white space if the applicable mode permits
    /// collapsing. Content is only hidden, never discarded.
    pub fn strip_trailing_whitespace_if_necessary(&mut self, runs: &Vec<TextRun>)
        requires
            old(self).wf(runs@),
            crate::text_run::runs_wf(runs@),
        ensures
            *final(self) == old(self).spec_stripped_trailing(runs@),
            final(self).wf(runs@),
            spec_weight(*final(self)) == spec_weight(*old(self)),
            final(self).content(runs@) == old(self).content(runs@),
    {
        if !matches!(self.white_space, WhiteSpaceCollapse::Collapse) {
            return ;
        }
        let t: TextSlice = match &self.specific {
            SpecificInfo::Text(t) => *t,
            _ => { return ; },
        };
        let ghost run_g = runs@[t.run as int];
        let vb: usize = t.begin + t.strip_front;
        let ve: usize = t.end - t.strip_back;
        let mut m: usize = ve;
        while m > vb && crate::text_run::is_separator(runs[t.run].chars[m - 1])
            invariant
                t.wf(runs@),
                run_g == runs@[t.run as int],
                vb == t.vis_begin() && ve == t.vis_end(),
                vb <= m <= ve,
                forall|i: int|
                    m <= i < ve ==> crate::text_run::spec_is_separator(
                        #[trigger] run_g.chars@[i],
                    ),
            decreases m,
        {
            m = m - 1;
        }
        proof {
            crate::text_run::lemma_trailing_separator_run(run_g, vb as int, m as int, ve as int);
        }
        let advance: i64 = runs[t.run].advance_for_range(vb, m, t.extra_word_spacing);
        self.specific = SpecificInfo::Text(
            TextSlice {
                run: t.run,
                begin: t.begin,
                end: t.end,
                strip_front: t.strip_front,
                strip_back: t.strip_back + (ve - m),
                extra_word_spacing: t.extra_word_spacing,
                extra_justification: t.extra_justification,
            },
        );
        self.inline_size = self.border_padding_inline_start + advance + t.extra_justification
            + self.border_padding_inline_end;
    }
}

/// The head slice of a text slice split at absolute character position `p`.
pub open spec fn spec_head_slice(t: TextSlice, p: usize) -> TextSlice {
    TextSlice {
        run: t.run,
        begin: t.begin,
        end: p,
        strip_front: t.strip_front,
        strip_back: 0,
        extra_word_spacing: t.extra_word_spacing,
        extra_justification: 0,
    }
}

/// The tail slice of a text slice split at absolute character position `p`.
pub open spec fn spec_tail_slice(t: TextSlice, p: usize) -> TextSlice {
    TextSlice {
        run: t.run,
        begin: p,
        end: t.end,
        strip_front: 0,
        strip_back: t.strip_back,
        extra_word_spacing: t.extra_word_spacing,
        extra_justification: 0,
    }
}

impl Fragment {
    /// Searches the visible slice for the split position to use when the
    /// unit's margin box exceeds `available` inline units. The result is
    /// the furthest break opportunity whose head content fits; when none
    /// fits and the line is still empty, it is the first break
    /// opportunity, so the line always makes progress; when none exists
    /// under those rules, there is no valid split.
    pub fn calculate_split_position(&self, runs: &Vec<TextRun>, available: i64, line_is_empty:
        bool) -> (r: Option<usize>)
        requires
            self.wf(runs@),
            crate::text_run::runs_wf(runs@),
            self.specific is Text,
        ensures
            ({
                let t = self.text_slice();
                let run = runs@[t.run as int];
                let x = t.extra_word_spacing as int;
                match r {
                    Option::Some(p) => {
                        &&& t.vis_begin() < p < t.vis_end()
                        &&& crate::text_run::spec_is_separator(run.chars@[p - 1])
                        &&& (weighted_advance(run, t.vis_begin(), p as int, x) <= available || (
                        line_is_empty && forall|q: int|
                            t.vis_begin() < q < p ==> !crate::text_run::spec_is_separator(
                                #[trigger] run.chars@[q - 1],
                            )))
                        &&& forall|q: int|
                            p < q < t.vis_end() && crate::text_run::spec_is_separator(
                                #[trigger] run.chars@[q - 1],
                            ) ==> weighted_advance(run, t.vis_begin(), q, x) > available
                    },
                    Option::None => {
                        &&& forall|q: int|
                            t.vis_begin() < q < t.vis_end() && crate::text_run::spec_is_separator(
                                #[trigger] run.chars@[q - 1],
                            ) ==> weighted_advance(run, t.vis_begin(), q, x) > available
                        &&& (line_is_empty ==> forall|q: int|
                            t.vis_begin() < q < t.vis_end() ==> !crate::text_run::spec_is_separator(
                                #[trigger] run.chars@[q - 1],
                            ))
                    },
                }
            }),
    {
        let t: TextSlice = match &self.specific {
            SpecificInfo::Text(t) => *t,
            _ => { return Option::None; },
        };
        let ghost run_g = runs@[t.run as int];
        let ghost x = t.extra_word_spacing as int;
        let vb: usize = t.begin + t.strip_front;
        let ve: usize = t.end - t.strip_back;
        let mut best_fit: Option<usize> = Option::None;
        let mut first_break: Option<usize> = Option::None;
        let mut adv: i64 = 0;
        let mut p: usize = vb;
        while p < ve
            invariant
                t.wf(runs@),
                crate::text_run::runs_wf(runs@),
                run_g == runs@[t.run as int],
                x == t.extra_word_spacing as int,
                0 <= t.extra_word_spacing <= MAX_SCALAR,
                vb == t.vis_begin() && ve == t.vis_end(),
                vb <= p <= ve,
                adv == weighted_advance(run_g, vb as int, p as int, x),
                0 <= adv <= MAX_RUN_CHARS * (2 * MAX_SCALAR),
                match best_fit {
                    Option::Some(b) => {
                        &&& vb < b <= p && b < ve
                        &&& crate::text_run::spec_is_separator(run_g.chars@[b - 1])
                        &&& weighted_advance(run_g, vb as int, b as int, x) <= available
                        &&& forall|q: int|
                            b < q <= p && q < ve && crate::text_run::spec_is_separator(
                                #[trigger] run_g.chars@[q - 1],
                            ) ==> weighted_advance(run_g, vb as int, q, x) > available
                    },
                    Option::None => forall|q: int|
                        vb < q <= p && q < ve && crate::text_run::spec_is_separator(
                            #[trigger] run_g.chars@[q - 1],
                        ) ==> weighted_advance(run_g, vb as int, q, x) > available,
                },
                match first_break {
                    Option::Some(b) => {
                        &&& vb < b <= p && b < ve
                        &&& crate::text_run::spec_is_separator(run_g.chars@[b - 1])
                        &&& forall|q: int|
                            vb < q < b ==> !crate::text_run::spec_is_separator(
                                #[trigger] run_g.chars@[q - 1],
                            )
                    },
                    Option::None => forall|q: int|
                        vb < q <= p && q < ve ==> !crate::text_run::spec_is_separator(
                            #[trigger] run_g.chars@[q - 1],
                        ),
                },
            decreases ve - p,
        {
            let step: i64 = if crate::text_run::is_separator(runs[t.run].chars[p]) {
                runs[t.run].advances[p] + t.extra_word_spacing
            } else {
                runs[t.run].advances[p]
            };
            proof {
                crate::text_run::lemma_weighted_advance_bounds(run_g, vb as int, p as int, x);
                crate::text_run::lemma_weighted_advance_bounds(run_g, vb as int, p + 1, x);
                assert((p + 1 - vb) * (2 * MAX_SCALAR) <= MAX_RUN_CHARS * (2 * MAX_SCALAR))
                    by (nonlinear_arith)
                    requires
                        0 <= p + 1 - vb <= MAX_RUN_CHARS,
                ;
            }
            adv = adv + step;
            p = p + 1;
            if p < ve && crate::text_run::is_separator(runs[t.run].chars[p - 1]) {
                if first_break.is_none() {
                    first_break = Option::Some(p);
                }
                if adv <= available {
                    best_fit = Option::Some(p);
                }
            }
        }
        match best_fit {
            Option::Some(b) => Option::Some(b),
            Option::None => {
                if line_is_empty {
                    first_break
                } else {
                    Option::None
                }
            },
        }
    }

    /// Splits a text unit at absolute character position `p`, distributing
    /// border and padding and the first- and last-fragment element flags
    /// across the two pieces so decorations are not duplicated. The pieces
    /// together carry exactly the original content.
    pub fn split_at(&self, p: usize, runs: &Vec<TextRun>) -> (r: (Fragment, Fragment))
        requires
            self.wf(runs@),
            crate::text_run::runs_wf(runs@),
            self.specific is Text,
            !self.flags.is_ellipsis,
            self.text_slice().vis_begin() < p < self.text_slice().vis_end(),
        ensures
            ({
                let t = self.text_slice();
                let head = r.0;
                let tail = r.1;
                &&& head.specific == SpecificInfo::Text(spec_head_slice(t, p))
                &&& tail.specific == SpecificInfo::Text(spec_tail_slice(t, p))
                &&& head.wf(runs@)
                &&& tail.wf(runs@)
                &&& head.margin_inline_start == self.margin_inline_start
                &&& head.margin_inline_end == 0
                &&& head.border_padding_inline_start == self.border_padding_inline_start
                &&& head.border_padding_inline_end == 0
                &&& tail.margin_inline_start == 0
                &&& tail.margin_inline_end == self.margin_inline_end
                &&& tail.border_padding_inline_start == 0
                &&& tail.border_padding_inline_end == self.border_padding_inline_end
                &&& head.block_size == self.block_size && tail.block_size == self.block_size
                &&& head.border_padding_block_start == self.border_padding_block_start
                &&& tail.border_padding_block_start == self.border_padding_block_start
                &&& head.metrics == self.metrics && tail.metrics == self.metrics
                &&& head.bidi_level == self.bidi_level && tail.bidi_level == self.bidi_level
                &&& head.wrap_mode == self.wrap_mode && tail.wrap_mode == self.wrap_mode
                &&& head.white_space == self.white_space && tail.white_space == self.white_space
                &&& head.text_overflow == self.text_overflow && tail.text_overflow
                    == self.text_overflow
                &&& head.overflow_visible == self.overflow_visible && tail.overflow_visible
                    == self.overflow_visible
                &&& head.vertical_align == self.vertical_align && tail.vertical_align
                    == self.vertical_align
                &&& head.selected == self.selected && tail.selected == self.selected
                &&& head.position == self.position && tail.position == self.position
                &&& head.flags == self.flags
                &&& tail.flags == (FragmentFlags {
                    suppress_line_break_before: false,
                    on_glyph_run_boundary: true,
                    ..self.flags
                })
                &&& spec_ctx_without_last(self.inline_context, head.inline_context)
                &&& spec_ctx_without_first(self.inline_context, tail.inline_context)
                &&& head.inline_size == self.border_padding_inline_start + weighted_advance(
                    runs@[t.run as int],
                    t.vis_begin(),
                    p as int,
                    t.extra_word_spacing as int,
                )
                &&& tail.inline_size == weighted_advance(
                    runs@[t.run as int],
                    p as int,
                    t.vis_end(),
                    t.extra_word_spacing as int,
                ) + self.border_padding_inline_end
                &&& head.content(runs@) + tail.content(runs@) == self.content(runs@)
                &&& head.spec_mass() + tail.spec_mass() == self.spec_mass() + 1
                &&& spec_weight(head) + spec_weight(tail) == spec_weight(*self)
                &&& head.spec_mass() >= 2
                &&& tail.spec_mass() >= 1
            }),
    {
        let t: TextSlice = match &self.specific {
            SpecificInfo::Text(t) => *t,
            _ => { unreached() },
        };
        let ghost run_g = runs@[t.run as int];
        let vb: usize = t.begin + t.strip_front;
        let ve: usize = t.end - t.strip_back;
        let head_advance: i64 = runs[t.run].advance_for_range(vb, p, t.extra_word_spacing);
        let tail_advance: i64 = runs[t.run].advance_for_range(p, ve, t.extra_word_spacing);
        let head = Fragment {
            specific: SpecificInfo::Text(
                TextSlice {
                    run: t.run,
                    begin: t.begin,
                    end: p,
                    strip_front: t.strip_front,
                    strip_back: 0,
                    extra_word_spacing: t.extra_word_spacing,
                    extra_justification: 0,
                },
            ),
            inline_size: self.border_padding_inline_start + head_advance,
            block_size: self.block_size,
            position: self.position,
            margin_inline_start: self.margin_inline_start,
            margin_inline_end: 0,
            border_padding_inline_start: self.border_padding_inline_start,
            border_padding_inline_end: 0,
            border_padding_block_start: self.border_padding_block_start,
            metrics: self.metrics,
            bidi_level: self.bidi_level,
            wrap_mode: self.wrap_mode,
            white_space: self.white_space,
            text_overflow: self.text_overflow,
            overflow_visible: self.overflow_visible,
            vertical_align: self.vertical_align,
            flags: self.flags,
            selected: self.selected,
            inline_context: ctx_without_last(&self.inline_context),
        };
        let tail = Fragment {
            specific: SpecificInfo::Text(
                TextSlice {
                    run: t.run,
                    begin: p,
                    end: t.end,
                    strip_front: 0,
                    strip_back: t.strip_back,
                    extra_word_spacing: t.extra_word_spacing,
                    extra_justification: 0,
                },
            ),
            inline_size: tail_advance + self.border_padding_inline_end,
            block_size: self.block_size,
            position: self.position,
            margin_inline_start: 0,
            margin_inline_end: self.margin_inline_end,
            border_padding_inline_start: 0,
            border_padding_inline_end: self.border_padding_inline_end,
            border_padding_block_start: self.border_padding_block_start,
            metrics: self.metrics,
            bidi_level: self.bidi_level,
            wrap_mode: self.wrap_mode,
            white_space: self.white_space,
            text_overflow: self.text_overflow,
            overflow_visible: self.overflow_visible,
            vertical_align: self.vertical_align,
            flags: FragmentFlags {
                suppress_line_break_before: false,
                on_glyph_run_boundary: true,
                ..self.flags
            },
            selected: self.selected,
            inline_context: ctx_without_first(&self.inline_context),
        };
        proof {
            assert(run_g.chars@.subrange(t.begin as int, p as int) + run_g.chars@.subrange(
                p as int,
                t.end as int,
            ) =~= run_g.chars@.subrange(t.begin as int, t.end as int));
        }
        (head, tail)
    }

    /// Truncates a text unit to the longest visible prefix not wider than
    /// `available`, retaining the untruncated slice so a later layout pass
    /// can recover the full content.
    pub fn truncate_to_inline_size(self, available: i64, runs: &Vec<TextRun>) -> (r: Fragment)
        requires
            self.wf(runs@),
            crate::text_run::runs_wf(runs@),
            self.specific is Text,
        ensures
            ({
                let t = self.text_slice();
                let run = runs@[t.run as int];
                let x = t.extra_word_spacing as int;
                &&& r.specific matches SpecificInfo::Truncated(tr)
                &&& r.specific == SpecificInfo::Truncated(
                    TruncatedInfo {
                        text: spec_head_slice(t, r.specific->Truncated_0.text.end),
                        full: t,
                    },
                )
                &&& ({
                    let p = r.specific->Truncated_0.text.end;
                    &&& t.vis_begin() <= p <= t.vis_end()
                    &&& (weighted_advance(run, t.vis_begin(), p as int, x) <= available || p
                        == t.vis_begin())
                    &&& (p == t.vis_end() || weighted_advance(run, t.vis_begin(), p + 1, x)
                        > available)
                    &&& r.inline_size == self.border_padding_inline_start + weighted_advance(
                        run,
                        t.vis_begin(),
                        p as int,
                        x,
                    ) + self.border_padding_inline_end
                })
                &&& r.wf(runs@)
                &&& r.content(runs@) == self.content(runs@)
                &&& r.spec_mass() == self.spec_mass()
                &&& spec_weight(r) == spec_weight(self)
                &&& r == (Fragment {
                    specific: r.specific,
                    inline_size: r.inline_size,
                    ..self
                })
            }),
    {
        let t: TextSlice = match &self.specific {
            SpecificInfo::Text(t) => *t,
            _ => { unreached() },
        };
        let ghost run_g = runs@[t.run as int];
        let ghost x = t.extra_word_spacing as int;
        let vb: usize = t.begin + t.strip_front;
        let ve: usize = t.end - t.strip_back;
        let mut adv: i64 = 0;
        let mut p: usize = vb;
        while p < ve
            invariant_except_break
                t.wf(runs@),
                crate::text_run::runs_wf(runs@),
                run_g == runs@[t.run as int],
                x == t.extra_word_spacing as int,
                0 <= t.extra_word_spacing <= MAX_SCALAR,
                vb == t.vis_begin() && ve == t.vis_end(),
                vb <= p <= ve,
                adv == weighted_advance(run_g, vb as int, p as int, x),
                0 <= adv <= MAX_RUN_CHARS * (2 * MAX_SCALAR),
                adv <= available || p == vb,
            ensures
                vb <= p <= ve,
                adv == weighted_advance(run_g, vb as int, p as int, x),
                0 <= adv <= MAX_RUN_CHARS * (2 * MAX_SCALAR),
                adv <= available || p == vb,
                p == ve || weighted_advance(run_g, vb as int, p + 1, x) > available,
            decreases ve - p,
        {
            let step: i64 = if crate::text_run::is_separator(runs[t.run].chars[p]) {
                runs[t.run].advances[p] + t.extra_word_spacing
            } else {
                runs[t.run].advances[p]
            };
            proof {
                crate::text_run::lemma_weighted_advance_bounds(run_g, vb as int, p as int, x);
                crate::text_run::lemma_weighted_advance_bounds(run_g, vb as int, p + 1, x);
                assert((p + 1 - vb) * (2 * MAX_SCALAR) <= MAX_RUN_CHARS * (2 * MAX_SCALAR))
                    by (nonlinear_arith)
                    requires
                        0 <= p + 1 - vb <= MAX_RUN_CHARS,
                ;
            }
            if adv + step > available {
                proof {
                    assert(weighted_advance(run_g, vb as int, p + 1, x) == adv + step);
                }
                break ;
            }
            adv = adv + step;
            p = p + 1;
        }
        Fragment {
            specific: SpecificInfo::Truncated(
                TruncatedInfo {
                    text: TextSlice {
                        run: t.run,
                        begin: t.begin,
                        end: p,
                        strip_front: t.strip_front,
                        strip_back: 0,
                        extra_word_spacing: t.extra_word_spacing,
                        extra_justification: 0,
                    },
                    full: t,
                },
            ),
            inline_size: self.border_padding_inline_start + adv + self.border_padding_inline_end,
            block_size: self.block_size,
            position: self.position,
            margin_inline_start: self.margin_inline_start,
            margin_inline_end: self.margin_inline_end,
            border_padding_inline_start: self.border_padding_inline_start,
            border_padding_inline_end: self.border_padding_inline_end,
            border_padding_block_start: self.border_padding_block_start,
            metrics: self.metrics,
            bidi_level: self.bidi_level,
            wrap_mode: self.wrap_mode,
            white_space: self.white_space,
            text_overflow: self.text_overflow,
            overflow_visible: self.overflow_visible,
            vertical_align: self.vertical_align,
            flags: self.flags,
            selected: self.selected,
            inline_context: self.inline_context,
        }
    }

    /// Synthesizes the ellipsis placeholder committed after a truncated
    /// unit. The placeholder is an addition, not a substitution: it
    /// carries no content of its own.
    pub fn transform_into_ellipsis(&self, advance: i64, runs: &Vec<TextRun>) -> (r: Fragment)
        requires
            self.wf(runs@),
            crate::geometry::scalar_ok(advance),
        ensures
            r.flags.is_ellipsis,
            r.specific is Generic,
            r.inline_size == advance,
            r.margin_inline_start == 0 && r.margin_inline_end == 0,
            r.border_padding_inline_start == 0 && r.border_padding_inline_end == 0,
            r.border_padding_block_start == 0,
            r.block_size == self.block_size,
            r.metrics == self.metrics,
            r.bidi_level == self.bidi_level,
            r.white_space == self.white_space,
            r.wrap_mode == self.wrap_mode,
            r.vertical_align == self.vertical_align,
            r.wf(runs@),
            r.content(runs@) == Seq::<u8>::empty(),
            r.spec_mass() == 0,
            spec_weight(r) == 0,
    {
        Fragment {
            specific: SpecificInfo::Generic,
            inline_size: advance,
            block_size: self.block_size,
            position: self.position,
            margin_inline_start: 0,
            margin_inline_end: 0,
            border_padding_inline_start: 0,
            border_padding_inline_end: 0,
            border_padding_block_start: 0,
            metrics: self.metrics,
            bidi_level: self.bidi_level,
            wrap_mode: self.wrap_mode,
            white_space: self.white_space,
            text_overflow: TextOverflowSide::Clip,
            overflow_visible: self.overflow_visible,
            vertical_align: self.vertical_align,
            flags: FragmentFlags {
                is_ellipsis: true,
                is_hypothetical: false,
                is_inline_absolute: false,
                is_replaced: false,
                suppress_line_break_before: true,
                on_glyph_run_boundary: true,
            },
            selected: self.selected,
            inline_context: Option::None,
        }
    }
}

/// The first position after which a line could legally end inside the
/// visible slice, or its end if no separator occurs before it.
pub open spec fn first_break_or_end(run: TextRun, from: int, to: int) -> int
    decreases to - from,
{
    if from >= to {
        to
    } else if crate::text_run::spec_is_separator(run.chars[from]) {
        from + 1
    } else {
        first_break_or_end(run, from + 1, to)
    }
}

/// A scan that stops at the first separator computes `first_break_or_end`.
pub proof fn lemma_first_break_or_end(run: TextRun, from: int, m: int, to: int)
    requires
        from <= m <= to,
        forall|i: int|
            from <= i < m ==> !crate::text_run::spec_is_separator(#[trigger] run.chars[i]),
        m == to || crate::text_run::spec_is_separator(run.chars[m]),
    ensures
        first_break_or_end(run, from, to) == if m == to {
            to
        } else {
            m + 1
        },
    decreases m - from,
{
    if from < m {
        lemma_first_break_or_end(run, from + 1, m, to);
    }
}

pub proof fn lemma_first_break_or_end_bounds(run: TextRun, from: int, to: int)
    requires
        from <= to,
    ensures
        from <= first_break_or_end(run, from, to) <= to,
    decreases to - from,
{
    if from < to && !crate::text_run::spec_is_separator(run.chars[from]) {
        lemma_first_break_or_end_bounds(run, from + 1, to);
    }
}

impl Fragment {
    /// The smallest inline extent this unit can occupy on a line if split:
    /// the head up to its first break opportunity, with the leading border
    /// and padding, and the trailing ones when nothing would be left over.
    pub open spec fn spec_minimum_splittable_inline_size(self, runs: Seq<TextRun>) -> int {
        let t = self.text_slice();
        let run = runs[t.run as int];
        let fb = first_break_or_end(run, t.vis_begin(), t.vis_end());
        self.border_padding_inline_start + weighted_advance(
            run,
            t.vis_begin(),
            fb,
            t.extra_word_spacing as int,
        ) + if fb == t.vis_end() {
            self.border_padding_inline_end as int
        } else {
            0
        }
    }

    pub fn minimum_splittable_inline_size(&self, runs: &Vec<TextRun>) -> (r: i64)
        requires
            self.wf(runs@),
            crate::text_run::runs_wf(runs@),
            self.specific is Text,
        ensures
            r == self.spec_minimum_splittable_inline_size(runs@),
            0 <= r <= MAX_BOX_SIZE,
    {
        let t: TextSlice = match &self.specific {
            SpecificInfo::Text(t) => *t,
            _ => { unreached() },
        };
        let ghost run_g = runs@[t.run as int];
        let vb: usize = t.begin + t.strip_front;
        let ve: usize = t.end - t.strip_back;
        let mut m: usize = vb;
        while m < ve && !crate::text_run::is_separator(runs[t.run].chars[m])
            invariant
                t.wf(runs@),
                run_g == runs@[t.run as int],
                vb == t.vis_begin() && ve == t.vis_end(),
                vb <= m <= ve,
                forall|i: int|
                    vb <= i < m ==> !crate::text_run::spec_is_separator(
                        #[trigger] run_g.chars@[i],
                    ),
            decreases ve - m,
        {
            m = m + 1;
        }
        proof {
            lemma_first_break_or_end(run_g, vb as int, m as int, ve as int);
        }
        let fb: usize = if m == ve {
            ve
        } else {
            m + 1
        };
        let advance: i64 = runs[t.run].advance_for_range(vb, fb, t.extra_word_spacing);
        if fb == ve {
            self.border_padding_inline_start + advance + self.border_padding_inline_end
        } else {
            self.border_padding_inline_start + advance
        }
    }

    /// Two adjacent units can be merged back into one: both are plain
    /// slices of the same source run, consecutive in it, with no margin,
    /// border or padding between them, the same selection state, and the
    /// same enclosing-element chain.
    pub open spec fn spec_mergeable(self, next: Fragment, runs: Seq<TextRun>) -> bool {
        let ta = self.text_slice();
        let tb = next.text_slice();
        &&& self.specific is Text
        &&& next.specific is Text
        &&& !self.flags.is_ellipsis
        &&& !next.flags.is_ellipsis
        &&& ta.run == tb.run
        &&& ta.end == tb.begin
        &&& ta.strip_front == 0 && ta.strip_back == 0 && tb.strip_front == 0 && tb.strip_back == 0
        &&& ta.extra_word_spacing == 0 && tb.extra_word_spacing == 0
        &&& ta.extra_justification == 0 && tb.extra_justification == 0
        &&& self.margin_inline_end == 0 && next.margin_inline_start == 0
        &&& self.border_padding_inline_end == 0 && next.border_padding_inline_start == 0
        &&& self.selected == next.selected
        &&& spec_inline_contexts_are_equal(self.inline_context, next.inline_context)
    }

    /// Decides whether `next` can be merged onto this unit, undoing a
    /// previous layout pass's split.
    pub fn mergeable(&self, next: &Fragment, runs: &Vec<TextRun>) -> (r: bool)
        ensures
            r == self.spec_mergeable(*next, runs@),
    {
        let ta: TextSlice = match &self.specific {
            SpecificInfo::Text(t) => *t,
            _ => { return false; },
        };
        let tb: TextSlice = match &next.specific {
            SpecificInfo::Text(t) => *t,
            _ => { return false; },
        };
        !self.flags.is_ellipsis && !next.flags.is_ellipsis && ta.run == tb.run && ta.end
            == tb.begin && ta.strip_front == 0 && ta.strip_back == 0 && tb.strip_front == 0
            && tb.strip_back == 0 && ta.extra_word_spacing == 0 && tb.extra_word_spacing == 0
            && ta.extra_justification == 0 && tb.extra_justification == 0
            && self.margin_inline_end == 0 && next.margin_inline_start == 0
            && self.border_padding_inline_end == 0 && next.border_padding_inline_start == 0
            && self.selected == next.selected && inline_contexts_are_equal(
            &self.inline_context,
            &next.inline_context,
        )
    }

    /// Merges the unit that follows this one back onto it, undoing a
    /// previous layout pass's split. The merged unit carries both pieces'
    /// content and re-unites the first- and last-fragment element flags.
    pub fn merge_with(self, next: Fragment, runs: &Vec<TextRun>) -> (r: Fragment)
        requires
            self.wf(runs@),
            next.wf(runs@),
            crate::text_run::runs_wf(runs@),
            self.spec_mergeable(next, runs@),
        ensures
            ({
                let ta = self.text_slice();
                let tb = next.text_slice();
                &&& r.specific == SpecificInfo::Text(
                    TextSlice {
                        run: ta.run,
                        begin: ta.begin,
                        end: tb.end,
                        strip_front: 0,
                        strip_back: 0,
                        extra_word_spacing: 0,
                        extra_justification: 0,
                    },
                )
                &&& r.wf(runs@)
                &&& r.inline_size == self.border_padding_inline_start + weighted_advance(
                    runs@[ta.run as int],
                    ta.begin as int,
                    tb.end as int,
                    0,
                ) + next.border_padding_inline_end
                &&& r.margin_inline_start == self.margin_inline_start
                &&& r.margin_inline_end == next.margin_inline_end
                &&& r.border_padding_inline_start == self.border_padding_inline_start
                &&& r.border_padding_inline_end == next.border_padding_inline_end
                &&& r.border_padding_block_start == self.border_padding_block_start
                &&& r.block_size == self.block_size
                &&& r.metrics == self.metrics
                &&& r.bidi_level == self.bidi_level
                &&& r.wrap_mode == self.wrap_mode
                &&& r.white_space == self.white_space
                &&& r.text_overflow == self.text_overflow
                &&& r.overflow_visible == self.overflow_visible
                &&& r.vertical_align == self.vertical_align
                &&& r.flags == self.flags
                &&& r.selected == self.selected
                &&& spec_ctx_melded(self.inline_context, next.inline_context, r.inline_context)
                &&& r.content(runs@) == self.content(runs@) + next.content(runs@)
                &&& r.spec_mass() == self.spec_mass() + next.spec_mass() - 1
                &&& spec_weight(r) == spec_weight(self) + spec_weight(next)
            }),
    {
        let ta: TextSlice = match &self.specific {
            SpecificInfo::Text(t) => *t,
            _ => { unreached() },
        };
        let tb: TextSlice = match &next.specific {
            SpecificInfo::Text(t) => *t,
            _ => { unreached() },
        };
        let ghost run_g = runs@[ta.run as int];
        let advance: i64 = runs[ta.run].advance_for_range(ta.begin, tb.end, 0);
        let melded = ctx_meld(self.inline_context, &next.inline_context);
        proof {
            assert(run_g.chars@.subrange(ta.begin as int, ta.end as int) + run_g.chars@.subrange(
                tb.begin as int,
                tb.end as int,
            ) =~= run_g.chars@.subrange(ta.begin as int, tb.end as int));
        }
        Fragment {
            specific: SpecificInfo::Text(
                TextSlice {
                    run: ta.run,
                    begin: ta.begin,
                    end: tb.end,
                    strip_front: 0,
                    strip_back: 0,
                    extra_word_spacing: 0,
                    extra_justification: 0,
                },
            ),
            inline_size: self.border_padding_inline_start + advance
                + next.border_padding_inline_end,
            block_size: self.block_size,
            position: self.position,
            margin_inline_start: self.margin_inline_start,
            margin_inline_end: next.margin_inline_end,
            border_padding_inline_start: self.border_padding_inline_start,
            border_padding_inline_end: next.border_padding_inline_end,
            border_padding_block_start: self.border_padding_block_start,
            metrics: self.metrics,
            bidi_level: self.bidi_level,
            wrap_mode: self.wrap_mode,
            white_space: self.white_space,
            text_overflow: self.text_overflow,
            overflow_visible: self.overflow_visible,
            vertical_align: self.vertical_align,
            flags: self.flags,
            selected: self.selected,
            inline_context: melded,
        }
    }
}

/// `melded` re-unites the element flags of the two pieces of a previous
/// split: a node is the first fragment of its element when it was in
/// either piece, and likewise for the last fragment.
pub open spec fn spec_ctx_melded(
    a: Option<InlineFragmentContext>,
    b: Option<InlineFragmentContext>,
    melded: Option<InlineFragmentContext>,
) -> bool {
    match (a, b, melded) {
        (None, None, None) => true,
        (Some(ca), Some(cb), Some(cm)) => {
            &&& cm.nodes@.len() == ca.nodes@.len()
            &&& cb.nodes@.len() == ca.nodes@.len()
            &&& forall|i: int|
                0 <= i < ca.nodes@.len() ==> #[trigger] cm.nodes@[i] == (InlineFragmentNodeInfo {
                    flags: InlineFragmentNodeFlags {
                        first_fragment_of_element:
                            ca.nodes@[i].flags.first_fragment_of_element
                            || cb.nodes@[i].flags.first_fragment_of_element,
                        last_fragment_of_element: ca.nodes@[i].flags.last_fragment_of_element
                            || cb.nodes@[i].flags.last_fragment_of_element,
                    },
                    ..ca.nodes@[i]
                })
        },
        _ => false,
    }
}

/// Melds the element flags of two context chains of equal shape.
fn ctx_meld(a: Option<InlineFragmentContext>, b: &Option<InlineFragmentContext>) -> (r: Option<
    InlineFragmentContext,
>)
    requires
        match (a, *b) {
            (Option::Some(ca), Option::Some(cb)) => ca.nodes@.len() == cb.nodes@.len(),
            (Option::None, Option::None) => true,
            _ => false,
        },
    ensures
        spec_ctx_melded(a, *b, r),
{
    match (a, b) {
        (Option::Some(ca), Option::Some(cb)) => {
            let mut nodes: Vec<InlineFragmentNodeInfo> = Vec::new();
            let mut i: usize = 0;
            while i < ca.nodes.len()
                invariant
                    i <= ca.nodes@.len(),
                    cb.nodes@.len() == ca.nodes@.len(),
                    nodes@.len() == i,
                    forall|j: int|
                        0 <= j < i ==> #[trigger] nodes@[j] == (InlineFragmentNodeInfo {
                            flags: InlineFragmentNodeFlags {
                                first_fragment_of_element:
                                    ca.nodes@[j].flags.first_fragment_of_element
                                    || cb.nodes@[j].flags.first_fragment_of_element,
                                last_fragment_of_element:
                                    ca.nodes@[j].flags.last_fragment_of_element
                                    || cb.nodes@[j].flags.last_fragment_of_element,
                            },
                            ..ca.nodes@[j]
                        }),
                decreases ca.nodes@.len() - i,
            {
                let na = ca.nodes[i];
                let nb = cb.nodes[i];
                nodes.push(
                    InlineFragmentNodeInfo {
                        address: na.address,
                        flags: InlineFragmentNodeFlags {
                            first_fragment_of_element: na.flags.first_fragment_of_element
                                || nb.flags.first_fragment_of_element,
                            last_fragment_of_element: na.flags.last_fragment_of_element
                                || nb.flags.last_fragment_of_element,
                        },
                        metrics: na.metrics,
                        display: na.display,
                        vertical_align: na.vertical_align,
                    },
                );
                i = i + 1;
            }
            Option::Some(InlineFragmentContext { nodes })
        },
        _ => Option::None,
    }
}

/// A text slice with stripping and justification spacing undone.
pub open spec fn spec_reset_slice(t: TextSlice) -> TextSlice {
    TextSlice {
        run: t.run,
        begin: t.begin,
        end: t.end,
        strip_front: 0,
        strip_back: 0,
        extra_word_spacing: 0,
        extra_justification: 0,
    }
}

/// The concatenated content of a unit sequence, in order.
pub open spec fn seq_content(fs: Seq<Fragment>, runs: Seq<TextRun>) -> Seq<u8>
    decreases fs.len(),
{
    if fs.len() == 0 {
        Seq::empty()
    } else {
        fs[0].content(runs) + seq_content(fs.drop_first(), runs)
    }
}

/// The concatenated content of a unit stack read from its top (last
/// element) down: the order in which a work list hands its units out.
pub open spec fn seq_content_rev(fs: Seq<Fragment>, runs: Seq<TextRun>) -> Seq<u8>
    decreases fs.len(),
{
    if fs.len() == 0 {
        Seq::empty()
    } else {
        fs.last().content(runs) + seq_content_rev(fs.drop_last(), runs)
    }
}

/// The conserved bulk of one unit: its provenance characters for text
/// (truncated or not), one for a replaced or inline-block box, nothing
/// for a synthesized placeholder. Unlike `spec_mass`, splitting and
/// merging conserve it exactly, so the engine conserves it end to end.
pub open spec fn spec_weight(f: Fragment) -> int {
    if f.flags.is_ellipsis {
        0
    } else {
        match f.specific {
            SpecificInfo::Text(t) => t.end - t.begin,
            SpecificInfo::Truncated(tr) => tr.full.end - tr.full.begin,
            SpecificInfo::Generic => 1,
        }
    }
}

/// The total conserved bulk of a unit sequence.
pub open spec fn seq_weight(fs: Seq<Fragment>) -> int
    decreases fs.len(),
{
    if fs.len() == 0 {
        0
    } else {
        spec_weight(fs[0]) + seq_weight(fs.drop_first())
    }
}

/// Appending a unit adds its bulk.
pub proof fn lemma_seq_weight_push(fs: Seq<Fragment>, f: Fragment)
    ensures
        seq_weight(fs.push(f)) == seq_weight(fs) + spec_weight(f),
    decreases fs.len(),
{
    if fs.len() == 0 {
        assert(fs.push(f).drop_first() =~= fs);
    } else {
        assert(fs.push(f).drop_first() =~= fs.drop_first().push(f));
        lemma_seq_weight_push(fs.drop_first(), f);
    }
}

/// Replacing a unit by one of the same bulk leaves the sequence bulk
/// unchanged.
pub proof fn lemma_seq_weight_update(fs: Seq<Fragment>, i: int, f: Fragment)
    requires
        0 <= i < fs.len(),
        spec_weight(f) == spec_weight(fs[i]),
    ensures
        seq_weight(fs.update(i, f)) == seq_weight(fs),
    decreases fs.len(),
{
    if i == 0 {
        assert(fs.update(0, f).drop_first() =~= fs.drop_first());
        assert(fs.update(0, f)[0] == f);
    } else {
        assert(fs.update(i, f).drop_first() =~= fs.drop_first().update(i - 1, f));
        assert(fs.drop_first()[i - 1] == fs[i]);
        lemma_seq_weight_update(fs.drop_first(), i - 1, f);
        assert(fs.update(i, f)[0] == fs[0]);
    }
}

/// Sequences whose units carry the same bulk pointwise carry the same
/// bulk overall.
pub proof fn lemma_seq_weight_pointwise(a: Seq<Fragment>, b: Seq<Fragment>)
    requires
        a.len() == b.len(),
        forall|i: int| 0 <= i < a.len() ==> spec_weight(#[trigger] a[i]) == spec_weight(b[i]),
    ensures
        seq_weight(a) == seq_weight(b),
    decreases a.len(),
{
    if a.len() > 0 {
        assert(forall|i: int|
            0 <= i < a.drop_first().len() ==> spec_weight(#[trigger] a.drop_first()[i])
                == spec_weight(b.drop_first()[i]));
        lemma_seq_weight_pointwise(a.drop_first(), b.drop_first());
        assert(spec_weight(a[0]) == spec_weight(b[0]));
    }
}

/// The total content weight of a unit sequence.
pub open spec fn seq_mass(fs: Seq<Fragment>) -> int
    decreases fs.len(),
{
    if fs.len() == 0 {
        0
    } else {
        fs[0].spec_mass() + seq_mass(fs.drop_first())
    }
}

/// Appending a unit appends its content.
pub proof fn lemma_seq_content_push(fs: Seq<Fragment>, runs: Seq<TextRun>, f: Fragment)
    ensures
        seq_content(fs.push(f), runs) == seq_content(fs, runs) + f.content(runs),
    decreases fs.len(),
{
    if fs.len() == 0 {
        assert(fs.push(f).drop_first() =~= Seq::<Fragment>::empty());
        assert(fs.push(f)[0] == f);
        assert(seq_content(Seq::<Fragment>::empty(), runs) == Seq::<u8>::empty());
        assert(seq_content(fs.push(f), runs) == f.content(runs) + Seq::<u8>::empty());
        assert(f.content(runs) + Seq::<u8>::empty() =~= f.content(runs));
        assert(seq_content(fs, runs) == Seq::<u8>::empty());
        assert(Seq::<u8>::empty() + f.content(runs) =~= f.content(runs));
    } else {
        assert(fs.push(f).drop_first() =~= fs.drop_first().push(f));
        lemma_seq_content_push(fs.drop_first(), runs, f);
        assert(seq_content(fs.push(f), runs) =~= seq_content(fs, runs) + f.content(runs));
    }
}

/// Appending a unit adds its weight.
pub proof fn lemma_seq_mass_push(fs: Seq<Fragment>, f: Fragment)
    ensures
        seq_mass(fs.push(f)) == seq_mass(fs) + f.spec_mass(),
    decreases fs.len(),
{
    if fs.len() == 0 {
        assert(fs.push(f).drop_first() =~= fs);
    } else {
        assert(fs.push(f).drop_first() =~= fs.drop_first().push(f));
        lemma_seq_mass_push(fs.drop_first(), f);
    }
}

/// Well-formed unit weights are never negative.
pub proof fn lemma_seq_mass_nonneg(fs: Seq<Fragment>, runs: Seq<TextRun>)
    requires
        forall|i: int| 0 <= i < fs.len() ==> (#[trigger] fs[i]).wf(runs),
    ensures
        seq_mass(fs) >= 0,
    decreases fs.len(),
{
    if fs.len() > 0 {
        assert(forall|i: int|
            0 <= i < fs.drop_first().len() ==> (#[trigger] fs.drop_first()[i]).wf(runs));
        lemma_seq_mass_nonneg(fs.drop_first(), runs);
    }
}

/// Replacing a unit by one with the same content leaves the sequence
/// content unchanged.
pub proof fn lemma_seq_content_update(fs: Seq<Fragment>, runs: Seq<TextRun>, i: int, f: Fragment)
    requires
        0 <= i < fs.len(),
        f.content(runs) == fs[i].content(runs),
    ensures
        seq_content(fs.update(i, f), runs) == seq_content(fs, runs),
    decreases fs.len(),
{
    if i == 0 {
        assert(fs.update(0, f).drop_first() =~= fs.drop_first());
        assert(fs.update(0, f)[0] == f);
    } else {
        assert(fs.update(i, f).drop_first() =~= fs.drop_first().update(i - 1, f));
        assert(fs.drop_first()[i - 1] == fs[i]);
        lemma_seq_content_update(fs.drop_first(), runs, i - 1, f);
        assert(fs.update(i, f)[0] == fs[0]);
    }
}

/// Replacing a unit by one of the same weight leaves the sequence weight
/// unchanged.
pub proof fn lemma_seq_mass_update(fs: Seq<Fragment>, i: int, f: Fragment)
    requires
        0 <= i < fs.len(),
        f.spec_mass() == fs[i].spec_mass(),
    ensures
        seq_mass(fs.update(i, f)) == seq_mass(fs),
    decreases fs.len(),
{
    if i == 0 {
        assert(fs.update(0, f).drop_first() =~= fs.drop_first());
        assert(fs.update(0, f)[0] == f);
    } else {
        assert(fs.update(i, f).drop_first() =~= fs.drop_first().update(i - 1, f));
        assert(fs.drop_first()[i - 1] == fs[i]);
        lemma_seq_mass_update(fs.drop_first(), i - 1, f);
        assert(fs.update(i, f)[0] == fs[0]);
    }
}

/// Sequences whose units carry the same content pointwise carry the same
/// content overall.
pub proof fn lemma_seq_content_pointwise(a: Seq<Fragment>, b: Seq<Fragment>, runs: Seq<TextRun>)
    requires
        a.len() == b.len(),
        forall|i: int| 0 <= i < a.len() ==> (#[trigger] a[i]).content(runs) == b[i].content(runs),
    ensures
        seq_content(a, runs) == seq_content(b, runs),
    decreases a.len(),
{
    if a.len() > 0 {
        assert(forall|i: int|
            0 <= i < a.drop_first().len() ==> (#[trigger] a.drop_first()[i]).content(runs)
                == b.drop_first()[i].content(runs));
        lemma_seq_content_pointwise(a.drop_first(), b.drop_first(), runs);
        assert(a[0].content(runs) == b[0].content(runs));
    }
}

/// All units of a sequence are well formed.
pub open spec fn all_wf(fs: Seq<Fragment>, runs: Seq<TextRun>) -> bool {
    forall|i: int| 0 <= i < fs.len() ==> (#[trigger] fs[i]).wf(runs)
}

/// A unit carries no justification spacing yet: the state every unit is
/// in from canonicalization until the positioning pass justifies a line.
pub open spec fn pristine_spacing(f: Fragment) -> bool {
    match f.specific {
        SpecificInfo::Text(t) => t.extra_word_spacing == 0 && t.extra_justification == 0,
        SpecificInfo::Truncated(tr) => tr.text.extra_word_spacing == 0
            && tr.text.extra_justification == 0,
        SpecificInfo::Generic => true,
    }
}

/// All units of a sequence carry no justification spacing.
pub open spec fn all_pristine(fs: Seq<Fragment>) -> bool {
    forall|i: int| 0 <= i < fs.len() ==> pristine_spacing(#[trigger] fs[i])
}

/// The list of inline units of one flow, including element ranges.
#[derive(Clone, Debug)]
pub struct InlineFragments {
    /// The units themselves.
    pub fragments: Vec<Fragment>,
}

impl InlineFragments {
    /// Creates an empty unit list.
    pub fn new() -> (r: InlineFragments)
        ensures
            r.fragments@.len() == 0,
    {
        InlineFragments { fragments: Vec::new() }
    }

    /// The number of units in the list.
    pub fn len(&self) -> (r: usize)
        ensures
            r == self.fragments@.len(),
    {
        self.fragments.len()
    }

    /// True when the list contains no units.
    pub fn is_empty(&self) -> (r: bool)
        ensures
            r == (self.fragments@.len() == 0),
    {
        self.fragments.len() == 0
    }

    /// The unit at the given index.
    pub fn get(&self, index: usize) -> (r: &Fragment)
        requires
            index < self.fragments@.len(),
        ensures
            *r == self.fragments@[index as int],
    {
        &self.fragments[index]
    }

    /// A mutable reference to the unit at the given index.
    pub fn get_mut(&mut self, index: usize) -> (r: &mut Fragment)
        requires
            index < old(self).fragments@.len(),
        ensures
            *r == old(self).fragments@[index as int],
            final(self).fragments@ == old(self).fragments@.update(index as int, *final(r)),
    {
        &mut self.fragments[index]
    }
}

} // verus!
