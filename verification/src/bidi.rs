//! The bidirectional reordering pass: one resolved embedding level per
//! output unit, and, when any right-to-left content is present, a per-line
//! table of maximal constant-level runs in reading order, consumed by the
//! positioning pass to produce the visual order.

use vstd::prelude::*;
use crate::fragment::Fragment;
use crate::fragment_range::FragmentRange;
use crate::line::VisualRun;

verus! {

/// A bidi embedding level denotes right-to-left content when it is odd.
pub open spec fn spec_level_is_rtl(level: u8) -> bool {
    level % 2 == 1
}

pub fn level_is_rtl(level: u8) -> (r: bool)
    ensures
        r == spec_level_is_rtl(level),
{
    level % 2 == 1
}

/// The resolved level of one unit: text carries its source run's level,
/// any other unit uses the paragraph's base level.
pub open spec fn spec_fragment_level(f: Fragment, para_level: u8) -> u8 {
    match f.specific {
        crate::fragment::SpecificInfo::Text(_) => f.bidi_level,
        crate::fragment::SpecificInfo::Truncated(_) => f.bidi_level,
        crate::fragment::SpecificInfo::Generic => para_level,
    }
}

/// Builds one bidi level per unit.
pub fn build_levels(fragments: &Vec<Fragment>, para_level: u8) -> (r: Vec<u8>)
    ensures
        r@.len() == fragments@.len(),
        forall|i: int|
            0 <= i < r@.len() ==> r@[i] == spec_fragment_level(#[trigger] fragments@[i],
                para_level),
{
    let mut levels: Vec<u8> = Vec::new();
    let mut i: usize = 0;
    while i < fragments.len()
        invariant
            i <= fragments@.len(),
            levels@.len() == i,
            forall|j: int|
                0 <= j < i ==> levels@[j] == spec_fragment_level(#[trigger] fragments@[j],
                    para_level),
        decreases fragments@.len() - i,
    {
        let f = &fragments[i];
        let level: u8 = match &f.specific {
            crate::fragment::SpecificInfo::Text(_) => f.bidi_level,
            crate::fragment::SpecificInfo::Truncated(_) => f.bidi_level,
            crate::fragment::SpecificInfo::Generic => para_level,
        };
        levels.push(level);
        i = i + 1;
    }
    levels
}

/// True when any unit carries a right-to-left level; the reordering pass
/// is skipped entirely when nothing does.
pub fn has_rtl(levels: &Vec<u8>) -> (r: bool)
    ensures
        r == exists|i: int| 0 <= i < levels@.len() && spec_level_is_rtl(#[trigger] levels@[i]),
{
    let mut i: usize = 0;
    while i < levels.len()
        invariant
            i <= levels@.len(),
            forall|j: int| 0 <= j < i ==> !spec_level_is_rtl(#[trigger] levels@[j]),
        decreases levels@.len() - i,
    {
        if level_is_rtl(levels[i]) {
            return true;
        }
        i = i + 1;
    }
    false
}

/// The runs partition `[from, to)` in reading order: each is nonempty and
/// of one constant level, the level changes at every run boundary, and
/// together they cover the interval exactly.
pub open spec fn runs_partition(runs: Seq<VisualRun>, levels: Seq<u8>, from: int, to: int) -> bool
    decreases runs.len(),
{
    if runs.len() == 0 {
        from == to
    } else {
        let last = runs.last();
        &&& last.range.length > 0
        &&& last.range.wf()
        &&& from <= last.range.begin
        &&& last.range.spec_end() == to
        &&& (forall|i: int|
            last.range.begin <= i < last.range.spec_end() ==> #[trigger] levels[i] == last.level)
        &&& (last.range.begin > from ==> levels[last.range.begin - 1] != last.level)
        &&& runs_partition(runs.drop_last(), levels, from, last.range.begin as int)
    }
}

/// Every run of a partition lies within the partitioned interval.
pub proof fn lemma_runs_partition_bounds(runs: Seq<VisualRun>, levels: Seq<u8>, from: int, to:
    int, k: int)
    requires
        runs_partition(runs, levels, from, to),
        0 <= k < runs.len(),
        from >= 0,
    ensures
        runs[k].range.wf(),
        runs[k].range.length > 0,
        from <= runs[k].range.begin,
        runs[k].range.spec_end() <= to,
        k + 1 < runs.len() ==> runs[k].range.spec_end() <= runs[k + 1].range.begin,
    decreases runs.len(),
{
    if k == runs.len() - 1 {
        lemma_runs_partition_nonneg(runs.drop_last(), levels, from, runs.last().range.begin as int);
    } else if k == runs.len() - 2 {
        assert(runs.drop_last()[k] == runs[k]);
        assert(runs.drop_last().last() == runs[k]);
        lemma_runs_partition_bounds(
            runs.drop_last(),
            levels,
            from,
            runs.last().range.begin as int,
            k,
        );
    } else {
        assert(runs.drop_last()[k] == runs[k]);
        assert(runs.drop_last()[k + 1] == runs[k + 1]);
        lemma_runs_partition_bounds(
            runs.drop_last(),
            levels,
            from,
            runs.last().range.begin as int,
            k,
        );
    }
}

/// A partition of a nonnegative interval keeps its bounds ordered.
proof fn lemma_runs_partition_nonneg(runs: Seq<VisualRun>, levels: Seq<u8>, from: int, to: int)
    requires
        runs_partition(runs, levels, from, to),
        from >= 0,
    ensures
        from <= to,
    decreases runs.len(),
{
    if runs.len() > 0 {
        lemma_runs_partition_nonneg(runs.drop_last(), levels, from, runs.last().range.begin as int);
    }
}

/// Partitions a line's unit-index range into maximal runs of constant
/// bidi level, in reading order.
pub fn compute_visual_runs(levels: &Vec<u8>, range: FragmentRange) -> (r: Vec<VisualRun>)
    requires
        range.wf(),
        range.spec_end() <= levels@.len(),
    ensures
        runs_partition(r@, levels@, range.begin as int, range.spec_end()),
{
    let mut runs: Vec<VisualRun> = Vec::new();
    let end: usize = range.begin + range.length;
    let mut run_start: usize = range.begin;
    let mut i: usize = range.begin;
    while i < end
        invariant
            range.begin <= run_start <= i <= end <= levels@.len(),
            range.spec_end() == end,
            runs_partition(runs@, levels@, range.begin as int, run_start as int),
            forall|j: int| run_start <= j < i ==> levels@[j] == levels@[run_start as int],
            run_start > range.begin ==> levels@[run_start - 1] != levels@[run_start as int],
            run_start > range.begin ==> run_start < i,
        decreases end - i,
    {
        if i > run_start && levels[i] != levels[run_start] {
            let ghost runs0 = runs@;
            runs.push(VisualRun {
                range: FragmentRange { begin: run_start, length: i - run_start },
                level: levels[run_start],
            });
            proof {
                assert(runs@.drop_last() =~= runs0);
            }
            run_start = i;
        }
        i = i + 1;
    }
    if run_start < end {
        let ghost runs0 = runs@;
        runs.push(VisualRun {
            range: FragmentRange { begin: run_start, length: end - run_start },
            level: levels[run_start],
        });
        proof {
            assert(runs@.drop_last() =~= runs0);
        }
    }
    runs
}

} // verus!
