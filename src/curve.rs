//! Keyframe timelines: finding, for an instant, which keyframes give the value.
use vstd::prelude::*;

verus! {

/// Shape of the interpolation from one keyframe to the next; a bezier curve
/// carries its precomputed sample table `B`.
pub enum TimelineCurve<B> {
    CurveLinear,
    CurveStepped,
    CurveBezier(B),
}

/// One keyframe: its instant, the curve towards the next keyframe, its value.
pub struct CurveTimeline<V, B> {
    pub time: u32,
    pub curve: TimelineCurve<B>,
    pub value: V,
}

/// What the value of a timeline is at some instant.
#[derive(Clone, Copy, Debug, PartialEq, Eq, Structural)]
pub enum Sample {
    /// Exactly the value of keyframe `i`.
    Key(usize),
    /// Between keyframes `i` and `i + 1`, shaped by the curve of keyframe `i`.
    Blend(usize),
}

/// An ordered set of keyframes for one property.
pub struct CurveTimelines<V, B> {
    pub timelines: Vec<CurveTimeline<V, B>>,
}

/// The first `i >= from` whose next keyframe comes after `t`.
pub open spec fn next_after<V, B>(tl: Seq<CurveTimeline<V, B>>, t: u32, from: int) -> Option<int>
    decreases tl.len() - from,
{
    if from < 0 || from + 1 >= tl.len() {
        None
    } else if t < tl[from + 1].time {
        Some(from)
    } else {
        next_after(tl, t, from + 1)
    }
}

/// The sample of `tl` at `t`: nothing before the first keyframe, the last
/// keyframe once past it, otherwise the pair that brackets `t`.
pub open spec fn sample_at<V, B>(tl: Seq<CurveTimeline<V, B>>, t: u32) -> Option<Sample> {
    if tl.len() == 0 || t < tl[0].time {
        None
    } else {
        match next_after(tl, t, 0) {
            Some(i) => if tl[i].curve is CurveStepped {
                Some(Sample::Key(i as usize))
            } else {
                Some(Sample::Blend(i as usize))
            },
            None => Some(Sample::Key((tl.len() - 1) as usize)),
        }
    }
}

/// Keyframe instants strictly increase.
pub open spec fn times_increase<V, B>(tl: Seq<CurveTimeline<V, B>>) -> bool {
    forall|i: int, j: int| 0 <= i < j < tl.len() ==> #[trigger] tl[i].time < #[trigger] tl[j].time
}

impl<V, B> CurveTimelines<V, B> {
    /// A timeline without keyframes.
    pub fn new() -> (r: Self)
        ensures
            r.timelines@.len() == 0,
    {
        CurveTimelines { timelines: Vec::new() }
    }

    /// Which keyframes give the value at `elapsed`. The answer depends on the
    /// keyframes and `elapsed` alone.
    pub fn locate(&self, elapsed: u32) -> (r: Option<Sample>)
        ensures
            r == sample_at(self.timelines@, elapsed),
            r matches Some(Sample::Key(i)) ==> i < self.timelines@.len(),
            r matches Some(Sample::Blend(i)) ==> i + 1 < self.timelines@.len(),
    {
        let tl = &self.timelines;
        if tl.len() == 0 || elapsed < tl[0].time {
            return None;
        }
        let mut i: usize = 0;
        while i < tl.len() - 1
            invariant
                tl == &self.timelines,
                0 <= i < tl@.len(),
                elapsed >= tl@[0].time,
                next_after(tl@, elapsed, 0) == next_after(tl@, elapsed, i as int),
            decreases tl@.len() - i,
        {
            if elapsed < tl[i + 1].time {
                return match tl[i].curve {
                    TimelineCurve::CurveStepped => Some(Sample::Key(i)),
                    _ => Some(Sample::Blend(i)),
                };
            }
            i = i + 1;
        }
        Some(Sample::Key(tl.len() - 1))
    }
}

/// Where a timeline stands at an instant depends on its keyframes and the
/// instant alone: asking again gives the same answer.
pub proof fn lemma_locate_repeatable<V, B>(a: Seq<CurveTimeline<V, B>>, b: Seq<CurveTimeline<V, B>>, t: u32)
    requires
        a == b,
    ensures
        sample_at(a, t) == sample_at(b, t),
{
}

proof fn lemma_next_after_bracket<V, B>(tl: Seq<CurveTimeline<V, B>>, t: u32, from: int, i: int)
    requires
        times_increase(tl),
        0 <= from <= i,
        i + 1 < tl.len(),
        tl[i].time <= t < tl[i + 1].time,
    ensures
        next_after(tl, t, from) == Some(i),
    decreases i - from,
{
    if from < i {
        assert(tl[from + 1].time <= tl[i].time);
        lemma_next_after_bracket(tl, t, from + 1, i);
    }
}

/// Between two consecutive keyframes of a stepped curve the value is exactly
/// that of the earlier keyframe; with any other curve it blends the two.
pub proof fn lemma_stepped_holds_earlier<V, B>(tl: Seq<CurveTimeline<V, B>>, t: u32, i: int)
    requires
        times_increase(tl),
        0 <= i,
        i + 1 < tl.len(),
        tl[i].time <= t < tl[i + 1].time,
    ensures
        tl[i].curve is CurveStepped ==> sample_at(tl, t) == Some(Sample::Key(i as usize)),
        !(tl[i].curve is CurveStepped) ==> sample_at(tl, t) == Some(Sample::Blend(i as usize)),
{
    lemma_next_after_bracket(tl, t, 0, i);
    assert(tl[0].time <= tl[i].time);
}

/// At or after the last keyframe the value is the last keyframe's.
pub proof fn lemma_clamped_after_last<V, B>(tl: Seq<CurveTimeline<V, B>>, t: u32)
    requires
        times_increase(tl),
        tl.len() > 0,
        tl[tl.len() - 1].time <= t,
    ensures
        sample_at(tl, t) == Some(Sample::Key((tl.len() - 1) as usize)),
{
    assert(tl[0].time <= tl[tl.len() - 1].time);
    assert forall|k: int| 0 <= k <= tl.len() - 1 implies next_after(tl, t, k) is None by {
        lemma_next_after_none(tl, t, k);
    }
    assert(next_after(tl, t, 0) is None);
}

proof fn lemma_next_after_none<V, B>(tl: Seq<CurveTimeline<V, B>>, t: u32, from: int)
    requires
        times_increase(tl),
        tl.len() > 0,
        tl[tl.len() - 1].time <= t,
        0 <= from,
    ensures
        next_after(tl, t, from) is None,
    decreases tl.len() - from,
{
    if from + 1 < tl.len() {
        if from + 1 < tl.len() - 1 {
            assert(tl[from + 1].time < tl[tl.len() - 1].time);
        }
        lemma_next_after_none(tl, t, from + 1);
    }
}

} // verus!
