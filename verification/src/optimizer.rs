//! The render-skip optimizer: it remembers the breakpoint of the last resize
//! and asks for a re-render only when a resize lands in another one.

use crate::breakpoint::{
    classify, classify_index, lemma_classify_covers_uniquely,
    lemma_straddling_changes_breakpoint, valid_ranges, BreakpointRange, BreakpointTable,
    InvalidInputError,
};
use vstd::prelude::*;

verus! {

/// The answer to one resize signal.
#[derive(Clone, Copy, Debug, PartialEq, Eq)]
pub struct ResizeDecision {
    /// Whether the breakpoint differs from the one remembered before.
    pub should_rerender: bool,
    /// The breakpoint the width falls into.
    pub index: usize,
}

/// Remembers the breakpoint of the most recent resize.
#[derive(Debug)]
pub struct RenderSkipOptimizer {
    last_index: Option<usize>,
}

/// One resize as a transition: from the remembered breakpoint and a width
/// to the breakpoint remembered next and the decision handed out.
pub open spec fn step(last: Option<usize>, s: Seq<BreakpointRange>, width: int) -> (
    Option<usize>,
    ResizeDecision,
) {
    let index = classify_index(s, width) as usize;
    (Some(index), ResizeDecision { should_rerender: last != Some(index), index })
}

/// The decisions handed out for a run of resizes, one after another.
pub open spec fn run(last: Option<usize>, s: Seq<BreakpointRange>, widths: Seq<int>) -> Seq<
    ResizeDecision,
>
    decreases widths.len(),
{
    if widths.len() == 0 {
        Seq::empty()
    } else {
        let (next, decision) = step(last, s, widths[0]);
        seq![decision] + run(next, s, widths.skip(1))
    }
}

impl RenderSkipOptimizer {
    /// The breakpoint remembered from the last resize, if there was one.
    pub closed spec fn last(&self) -> Option<usize> {
        self.last_index
    }

    /// An optimizer that has seen no resize yet.
    pub fn new() -> (r: RenderSkipOptimizer)
        ensures
            r.last() is None,
    {
        RenderSkipOptimizer { last_index: None }
    }

    /// The breakpoint remembered from the last resize, if there was one.
    pub fn last_index(&self) -> (r: Option<usize>)
        ensures
            r == self.last(),
    {
        self.last_index
    }

    /// Classifies `width`, remembers its breakpoint, and says whether that
    /// breakpoint is new. The first resize always is. A negative width is
    /// refused and leaves the optimizer as it was.
    pub fn on_resize(&mut self, width: i64, table: &BreakpointTable) -> (r: Result<
        ResizeDecision,
        InvalidInputError,
    >)
        ensures
            width < 0 ==> r == Err::<ResizeDecision, InvalidInputError>(InvalidInputError { width })
                && final(self).last() == old(self).last(),
            width >= 0 ==> r == Ok::<ResizeDecision, InvalidInputError>(
                step(old(self).last(), table@, width as int).1,
            ) && final(self).last() == step(old(self).last(), table@, width as int).0,
            width >= 0 && old(self).last() is None ==> (r matches Ok(d) && d.should_rerender),
    {
        match classify(width, table) {
            Err(e) => Err(e),
            Ok(index) => {
                let should_rerender = match self.last_index {
                    None => true,
                    Some(before) => before != index,
                };
                self.last_index = Some(index);
                Ok(ResizeDecision { should_rerender, index })
            },
        }
    }
}

/// Whether a pass must render: a change of state always asks for it, a
/// resize only when it crossed into another breakpoint. The optimizer never
/// holds back what a change of state asked for.
pub fn must_render(resize: Option<ResizeDecision>, state_changed: bool) -> (r: bool)
    ensures
        r == (state_changed || (resize matches Some(decision) && decision.should_rerender)),
{
    match resize {
        Some(decision) => state_changed || decision.should_rerender,
        None => state_changed,
    }
}

/// A resize that stays in the breakpoint of the resize before it asks for no
/// re-render.
pub proof fn lemma_same_breakpoint_skips(
    last: Option<usize>,
    s: Seq<BreakpointRange>,
    w1: int,
    w2: int,
)
    requires
        classify_index(s, w1) == classify_index(s, w2),
    ensures
        !step(step(last, s, w1).0, s, w2).1.should_rerender,
{
}

/// A resize that lands in another breakpoint than the resize before it asks
/// for a re-render.
pub proof fn lemma_crossing_rerenders(
    last: Option<usize>,
    s: Seq<BreakpointRange>,
    w1: int,
    w2: int,
)
    requires
        valid_ranges(s),
        s.len() <= usize::MAX,
        0 <= w1,
        0 <= w2,
        classify_index(s, w1) != classify_index(s, w2),
    ensures
        step(step(last, s, w1).0, s, w2).1.should_rerender,
{
    lemma_classify_covers_uniquely(s, w1);
    lemma_classify_covers_uniquely(s, w2);
}

/// A resize across the lower bound of a breakpoint, from below it to it or
/// beyond, asks for a re-render.
pub proof fn lemma_straddling_rerenders(
    last: Option<usize>,
    s: Seq<BreakpointRange>,
    w1: int,
    w2: int,
    k: int,
)
    requires
        valid_ranges(s),
        s.len() <= usize::MAX,
        0 <= k < s.len(),
        0 <= w1 < s[k].lower <= w2,
    ensures
        step(step(last, s, w1).0, s, w2).1.should_rerender,
{
    lemma_straddling_changes_breakpoint(s, w1, w2, k);
    lemma_crossing_rerenders(last, s, w1, w2);
}

/// Over a run of resizes there is one decision per resize; the first asks
/// for a re-render unless its breakpoint was already remembered, and each
/// later one asks for it exactly when its width crossed into another
/// breakpoint than that of the width before.
pub proof fn lemma_one_rerender_per_crossing(
    last: Option<usize>,
    s: Seq<BreakpointRange>,
    widths: Seq<int>,
)
    requires
        valid_ranges(s),
        s.len() <= usize::MAX,
        forall|k: int| 0 <= k < widths.len() ==> 0 <= #[trigger] widths[k],
    ensures
        run(last, s, widths).len() == widths.len(),
        forall|k: int|
            0 <= k < widths.len() ==> (#[trigger] run(last, s, widths)[k]).index == classify_index(
                s,
                widths[k],
            ),
        widths.len() > 0 ==> run(last, s, widths)[0].should_rerender == (last != Some(
            classify_index(s, widths[0]) as usize,
        )),
        forall|k: int|
            0 < k < widths.len() ==> (#[trigger] run(last, s, widths)[k]).should_rerender == (
            classify_index(s, widths[k]) != classify_index(s, widths[k - 1])),
    decreases widths.len(),
{
    if widths.len() > 0 {
        let (next, decision) = step(last, s, widths[0]);
        let rest = widths.skip(1);
        lemma_classify_covers_uniquely(s, widths[0]);
        assert forall|k: int| 0 <= k < rest.len() implies 0 <= #[trigger] rest[k] by {
            assert(rest[k] == widths[k + 1]);
        }
        lemma_one_rerender_per_crossing(next, s, rest);
        let all = run(last, s, widths);
        assert(all == seq![decision] + run(next, s, rest));
        assert forall|k: int| 0 <= k < widths.len() implies (#[trigger] all[k]).index
            == classify_index(s, widths[k]) by {
            if k > 0 {
                assert(all[k] == run(next, s, rest)[k - 1]);
                assert(rest[k - 1] == widths[k]);
            }
        }
        assert forall|k: int| 0 < k < widths.len() implies (#[trigger] all[k]).should_rerender == (
        classify_index(s, widths[k]) != classify_index(s, widths[k - 1])) by {
            assert(all[k] == run(next, s, rest)[k - 1]);
            assert(rest[k - 1] == widths[k]);
            lemma_classify_covers_uniquely(s, widths[k]);
            if k == 1 {
                assert(rest[0] == widths[1]);
            } else {
                assert(rest[k - 2] == widths[k - 1]);
            }
        }
    }
}

} // verus!
