//! Shared text runs. A run is an immutable record of shaped characters with
//! one advance width per character; several units may reference slices of
//! one run, and split pieces keep referencing the source run so re-merging
//! on a later layout pass is lossless.

use vstd::prelude::*;
use crate::geometry::{scalar_ok, MAX_RUN_CHARS, MAX_SCALAR};

verus! {

/// The character code treated as a word separator and as a legal break
/// opportunity (a space).
pub const SEPARATOR_CHAR: u8 = 32;

/// The character code that forces a line break after itself when white
/// space is preserved (a newline).
pub const NEWLINE_CHAR: u8 = 10;

/// One shaped text run: characters with per-character advance widths and a
/// resolved bidirectional embedding level.
#[derive(Clone, Debug)]
pub struct TextRun {
    /// One atom per character cell.
    pub chars: Vec<u8>,
    /// The advance width of each character, in app units.
    pub advances: Vec<i64>,
    /// The resolved bidi embedding level of all text in this run.
    pub bidi_level: u8,
}

impl TextRun {
    /// A run is well formed when it has one advance per character, a bounded
    /// length, and bounded nonnegative advances.
    pub open spec fn wf(self) -> bool {
        &&& self.advances.len() == self.chars.len()
        &&& self.chars.len() <= MAX_RUN_CHARS
        &&& forall|i: int| 0 <= i < self.advances.len() ==> scalar_ok(#[trigger] self.advances[i])
    }
}

/// All runs of a flow's run table are well formed.
pub open spec fn runs_wf(runs: Seq<TextRun>) -> bool {
    forall|i: int| 0 <= i < runs.len() ==> (#[trigger] runs[i]).wf()
}

/// True when the character is a word separator (an expansion opportunity
/// for justification, and a legal break position after it).
pub open spec fn spec_is_separator(c: u8) -> bool {
    c == SEPARATOR_CHAR
}

pub fn is_separator(c: u8) -> (r: bool)
    ensures
        r == spec_is_separator(c),
{
    c == SEPARATOR_CHAR
}

/// The inline extent of the character slice `[from, to)` of `run`, when each
/// word separator is widened by `extra` app units of justification spacing.
pub open spec fn weighted_advance(run: TextRun, from: int, to: int, extra: int) -> int
    decreases to - from,
{
    if from >= to {
        0
    } else {
        weighted_advance(run, from, to - 1, extra) + run.advances[to - 1] + if spec_is_separator(
            run.chars[to - 1],
        ) {
            extra
        } else {
            0
        }
    }
}

/// The number of word separators in the character slice `[from, to)`.
pub open spec fn separator_count(run: TextRun, from: int, to: int) -> int
    decreases to - from,
{
    if from >= to {
        0
    } else {
        separator_count(run, from, to - 1) + if spec_is_separator(run.chars[to - 1]) {
            1int
        } else {
            0int
        }
    }
}

/// With well-formed advances and nonnegative extra spacing, a weighted
/// advance is nonnegative and bounded by the slice length times the largest
/// admissible per-character contribution.
pub proof fn lemma_weighted_advance_bounds(run: TextRun, from: int, to: int, extra: int)
    requires
        run.wf(),
        0 <= from <= to <= run.chars.len(),
        0 <= extra <= MAX_SCALAR,
    ensures
        0 <= weighted_advance(run, from, to, extra) <= (to - from) * (2 * MAX_SCALAR),
    decreases to - from,
{
    if from < to {
        lemma_weighted_advance_bounds(run, from, to - 1, extra as int);
        assert((to - from) * (2 * MAX_SCALAR) == (to - 1 - from) * (2 * MAX_SCALAR) + 2
            * MAX_SCALAR) by (nonlinear_arith);
    }
}

/// Justification spacing widens a slice by exactly the spacing times the
/// number of word separators in it.
pub proof fn lemma_weighted_advance_extra(run: TextRun, from: int, to: int, extra: int)
    requires
        from <= to,
    ensures
        weighted_advance(run, from, to, extra) == weighted_advance(run, from, to, 0) + extra
            * separator_count(run, from, to),
    decreases to - from,
{
    if from < to {
        lemma_weighted_advance_extra(run, from, to - 1, extra);
        if spec_is_separator(run.chars[to - 1]) {
            assert(extra * separator_count(run, from, to) == extra * (separator_count(
                run,
                from,
                to - 1,
            ) + 1)) by (nonlinear_arith)
                requires
                    separator_count(run, from, to) == separator_count(run, from, to - 1) + 1,
            ;
            assert(extra * (separator_count(run, from, to - 1) + 1) == extra * separator_count(
                run,
                from,
                to - 1,
            ) + extra) by (nonlinear_arith);
        }
    }
}

/// An advance over a weighted slice splits at any interior position.
pub proof fn lemma_weighted_advance_split(run: TextRun, a: int, b: int, c: int, extra: int)
    requires
        a <= b <= c,
    ensures
        weighted_advance(run, a, c, extra) == weighted_advance(run, a, b, extra)
            + weighted_advance(run, b, c, extra as int),
    decreases c - b,
{
    if b < c {
        lemma_weighted_advance_split(run, a, b, c - 1, extra as int);
    }
}

/// Narrowing a slice never widens its advance.
pub proof fn lemma_weighted_advance_narrow(run: TextRun, a: int, b: int, c: int, d: int, extra: int)
    requires
        run.wf(),
        0 <= a <= b <= c <= d <= run.chars.len(),
        0 <= extra <= MAX_SCALAR,
    ensures
        weighted_advance(run, b, c, extra) <= weighted_advance(run, a, d, extra),
{
    lemma_weighted_advance_split(run, a, b, d, extra);
    lemma_weighted_advance_split(run, b, c, d, extra);
    lemma_weighted_advance_bounds(run, a, b, extra);
    lemma_weighted_advance_bounds(run, c, d, extra);
}

/// Separator counts are nonnegative and bounded by the slice length.
pub proof fn lemma_separator_count_bounds(run: TextRun, from: int, to: int)
    requires
        from <= to,
    ensures
        0 <= separator_count(run, from, to) <= to - from,
    decreases to - from,
{
    if from < to {
        lemma_separator_count_bounds(run, from, to - 1);
    }
}

/// A line may legally end after position `p` of the visible slice
/// `[from, to)` exactly when the character before `p` is a separator.
pub open spec fn spec_is_break_position(run: TextRun, from: int, p: int) -> bool {
    from < p && spec_is_separator(run.chars[p - 1])
}

/// The length of the maximal run of separators at the front of `[from, to)`.
pub open spec fn leading_separator_run(run: TextRun, from: int, to: int) -> int
    decreases to - from,
{
    if from >= to || !spec_is_separator(run.chars[from]) {
        0
    } else {
        1 + leading_separator_run(run, from + 1, to)
    }
}

/// The length of the maximal run of separators at the back of `[from, to)`.
pub open spec fn trailing_separator_run(run: TextRun, from: int, to: int) -> int
    decreases to - from,
{
    if from >= to || !spec_is_separator(run.chars[to - 1]) {
        0
    } else {
        1 + trailing_separator_run(run, from, to - 1)
    }
}

/// Separator runs are never longer than their slice.
pub proof fn lemma_trailing_separator_run_bounds(run: TextRun, from: int, to: int)
    requires
        from <= to,
    ensures
        0 <= trailing_separator_run(run, from, to) <= to - from,
    decreases to - from,
{
    if from < to && spec_is_separator(run.chars[to - 1]) {
        lemma_trailing_separator_run_bounds(run, from, to - 1);
    }
}

/// A scan that stops at the first non-separator computes the leading
/// separator run.
pub proof fn lemma_leading_separator_run(run: TextRun, from: int, m: int, to: int)
    requires
        from <= m <= to,
        forall|i: int| from <= i < m ==> spec_is_separator(#[trigger] run.chars[i]),
        m == to || !spec_is_separator(run.chars[m]),
    ensures
        leading_separator_run(run, from, to) == m - from,
    decreases m - from,
{
    if from < m {
        lemma_leading_separator_run(run, from + 1, m, to);
    }
}

/// A scan that stops at the last non-separator computes the trailing
/// separator run.
pub proof fn lemma_trailing_separator_run(run: TextRun, from: int, m: int, to: int)
    requires
        from <= m <= to,
        forall|i: int| m <= i < to ==> spec_is_separator(#[trigger] run.chars[i]),
        m == from || !spec_is_separator(run.chars[m - 1]),
    ensures
        trailing_separator_run(run, from, to) == to - m,
    decreases to - m,
{
    if m < to {
        lemma_trailing_separator_run(run, from, m, to - 1);
    }
}

impl TextRun {
    /// Measures the inline extent of the character slice `[from, to)` with
    /// `extra` justification spacing per word separator.
    pub fn advance_for_range(&self, from: usize, to: usize, extra: i64) -> (r: i64)
        requires
            self.wf(),
            from <= to <= self.chars.len(),
            0 <= extra <= MAX_SCALAR,
        ensures
            r == weighted_advance(*self, from as int, to as int, extra as int),
            0 <= r <= (to - from) * (2 * MAX_SCALAR),
            r <= MAX_RUN_CHARS * (2 * MAX_SCALAR),
    {
        proof {
            lemma_weighted_advance_bounds(*self, from as int, to as int, extra as int);
            assert((to - from) * (2 * MAX_SCALAR) <= MAX_RUN_CHARS * (2 * MAX_SCALAR))
                by (nonlinear_arith)
                requires
                    0 <= to - from <= MAX_RUN_CHARS,
            ;
        }
        let mut total: i64 = 0;
        let mut i: usize = from;
        while i < to
            invariant
                self.wf(),
                from <= i <= to <= self.chars.len(),
                0 <= extra <= MAX_SCALAR,
                total == weighted_advance(*self, from as int, i as int, extra as int),
                0 <= total <= (i - from) * (2 * MAX_SCALAR),
            decreases to - i,
        {
            proof {
                lemma_weighted_advance_bounds(*self, from as int, i as int, extra as int);
                lemma_weighted_advance_bounds(*self, from as int, (i + 1) as int, extra as int);
                assert((i - from) * (2 * MAX_SCALAR) <= MAX_RUN_CHARS * (2 * MAX_SCALAR)
                    && (i + 1 - from) * (2 * MAX_SCALAR) <= MAX_RUN_CHARS * (2 * MAX_SCALAR))
                    by (nonlinear_arith)
                    requires
                        0 <= i - from,
                        i + 1 - from <= MAX_RUN_CHARS,
                ;
            }
            let step: i64 = if is_separator(self.chars[i]) {
                self.advances[i] + extra
            } else {
                self.advances[i]
            };
            total = total + step;
            i = i + 1;
        }
        total
    }

    /// Counts the word separators in the character slice `[from, to)`.
    pub fn separators_in_range(&self, from: usize, to: usize) -> (r: usize)
        requires
            self.wf(),
            from <= to <= self.chars.len(),
        ensures
            r == separator_count(*self, from as int, to as int),
            r <= to - from,
    {
        proof {
            lemma_separator_count_bounds(*self, from as int, to as int);
        }
        let mut count: usize = 0;
        let mut i: usize = from;
        while i < to
            invariant
                self.wf(),
                from <= i <= to <= self.chars.len(),
                count == separator_count(*self, from as int, i as int),
                count <= i - from,
            decreases to - i,
        {
            proof {
                lemma_separator_count_bounds(*self, from as int, (i + 1) as int);
            }
            if is_separator(self.chars[i]) {
                count = count + 1;
            }
            i = i + 1;
        }
        count
    }
}

} // verus!
