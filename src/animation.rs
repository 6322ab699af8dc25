//! Animations: timelines bound to bones and slots by index, and transitions
//! that blend one animation into another.
use vstd::prelude::*;
use crate::bone::Bone;
use crate::json::DrawOrderTimelineOffset;
use crate::error::SkeletonError;
use crate::slot::Slot;
use crate::timeline::{active_key, SlotTimeline};
use crate::util::{bone_index, bone_names, entry_names, first_missing, first_named, lemma_first_missing_at, lemma_first_missing_none, slot_index, slot_names};

verus! {

/// An animation as the document declares it: timelines keyed by bone and slot
/// name, and its length (the instant of its last keyframe).
pub struct AnimationSetup<T, C> {
    pub bones: Vec<(String, T)>,
    pub slots: Vec<(String, SlotTimeline<C>)>,
    pub events: Vec<EventKeyframe>,
    pub draworder: Vec<DrawOrderTimeline>,
    pub duration: u32,
}

/// An event fired at `time`, with its arguments; carried, not interpreted.
pub struct EventKeyframe {
    pub time: u32,
    pub name: String,
    pub int: Option<i32>,
    /// The float argument, as the bits of an IEEE 754 single.
    pub float_bits: Option<u32>,
    pub string: Option<String>,
}

/// A reordering of slots from `time` on; carried, not interpreted.
pub struct DrawOrderTimeline {
    pub time: u32,
    pub offsets: Vec<DrawOrderTimelineOffset>,
}

fn copy_text(s: &Option<String>) -> (r: Option<String>)
    ensures
        r == *s,
{
    match s {
        Some(t) => Some(t.clone()),
        None => None,
    }
}

impl EventKeyframe {
    /// A copy of the event.
    pub fn copy(&self) -> (r: EventKeyframe)
        ensures
            r == *self,
    {
        EventKeyframe {
            time: self.time,
            name: self.name.clone(),
            int: self.int,
            float_bits: self.float_bits,
            string: copy_text(&self.string),
        }
    }
}

impl DrawOrderTimeline {
    /// A copy of the keyframe.
    pub fn copy(&self) -> (r: DrawOrderTimeline)
        ensures
            r.time == self.time,
            r.offsets@ == self.offsets@,
    {
        let mut offsets: Vec<DrawOrderTimelineOffset> = Vec::new();
        let mut i: usize = 0;
        while i < self.offsets.len()
            invariant
                i <= self.offsets@.len(),
                offsets@ == self.offsets@.take(i as int),
            decreases self.offsets@.len() - i,
        {
            let o = &self.offsets[i];
            offsets.push(DrawOrderTimelineOffset { slot: o.slot.clone(), offset: o.offset });
            assert(offsets@ =~= self.offsets@.take(i as int + 1));
            i = i + 1;
        }
        assert(self.offsets@.take(i as int) =~= self.offsets@);
        DrawOrderTimeline { time: self.time, offsets }
    }
}

/// Copies of the events.
fn copy_events(v: &Vec<EventKeyframe>) -> (r: Vec<EventKeyframe>)
    ensures
        r@ == v@,
{
    let mut out: Vec<EventKeyframe> = Vec::new();
    let mut i: usize = 0;
    while i < v.len()
        invariant
            i <= v@.len(),
            out@ == v@.take(i as int),
        decreases v@.len() - i,
    {
        out.push(v[i].copy());
        assert(out@ =~= v@.take(i as int + 1));
        i = i + 1;
    }
    assert(v@.take(i as int) =~= v@);
    out
}

/// Copies of the draw order keyframes.
fn copy_draworder(v: &Vec<DrawOrderTimeline>) -> (r: Vec<DrawOrderTimeline>)
    ensures
        r@.len() == v@.len(),
        forall|i: int| 0 <= i < v@.len() ==> (#[trigger] r@[i]).time == v@[i].time && r@[i].offsets@ == v@[i].offsets@,
{
    let mut out: Vec<DrawOrderTimeline> = Vec::new();
    let mut i: usize = 0;
    while i < v.len()
        invariant
            i <= v@.len(),
            out@.len() == i,
            forall|q: int| 0 <= q < i ==> (#[trigger] out@[q]).time == v@[q].time && out@[q].offsets@ == v@[q].offsets@,
        decreases v@.len() - i,
    {
        let ghost prev = out@;
        out.push(v[i].copy());
        assert forall|q: int| 0 <= q < i + 1 implies (#[trigger] out@[q]).time == v@[q].time && out@[q].offsets@ == v@[q].offsets@ by {
            if q < i {
                assert(out@[q] == prev[q]);
            }
        }
        i = i + 1;
    }
    out
}

/// A named bundle of bone timelines `T` and slot timelines, bound by index.
pub struct Animation<T, C> {
    /// Bone timelines, ordered by bone index.
    pub bones: Vec<(usize, T)>,
    pub slots: Vec<(usize, SlotTimeline<C>)>,
    pub events: Vec<EventKeyframe>,
    pub draworder: Vec<DrawOrderTimeline>,
    pub duration: u32,
}

/// Bone indices strictly increase along `s`: each bone at most once.
pub open spec fn strictly_by_index<T>(s: Seq<(usize, T)>) -> bool {
    forall|i: int, j: int| 0 <= i < j < s.len() ==> #[trigger] s[i].0 < #[trigger] s[j].0
}

/// Each timeline of `setup`, its bone name replaced by the bone's index.
pub open spec fn resolved_bones<S, T>(setup: Seq<(String, T)>, bones: Seq<Bone<S>>) -> Seq<(usize, T)> {
    setup.map_values(|e: (String, T)| (first_named(bone_names(bones), e.0@).unwrap() as usize, e.1))
}

/// Each slot timeline of `setup`, its slot name replaced by the slot's index.
pub open spec fn resolved_slots<C>(setup: Seq<(String, SlotTimeline<C>)>, slots: Seq<Slot>) -> Seq<(usize, SlotTimeline<C>)> {
    setup.map_values(|e: (String, SlotTimeline<C>)| (first_named(slot_names(slots), e.0@).unwrap() as usize, e.1))
}

/// Every bone key of `setup` names one of `bones` and every slot key one of `slots`.
pub open spec fn animation_resolves<T, C>(setup: AnimationSetup<T, C>, bones: Seq<Seq<char>>, slots: Seq<Seq<char>>) -> bool {
    &&& first_missing(bones, entry_names(setup.bones@), 0) is None
    &&& first_missing(slots, entry_names(setup.slots@), 0) is None
}

/// The timeline that the last entry of `s` for bone `i` gives, if any.
pub open spec fn last_entry_for<T>(s: Seq<(usize, T)>, i: usize) -> Option<T>
    decreases s.len(),
{
    if s.len() == 0 {
        None
    } else if s.last().0 == i {
        Some(s.last().1)
    } else {
        last_entry_for(s.drop_last(), i)
    }
}

/// Binds `e.1` to bone `e.0`, replacing an earlier binding of that bone and
/// keeping the order by index.
fn bind_ordered<T>(v: &mut Vec<(usize, T)>, e: (usize, T), bound: usize)
    requires
        strictly_by_index(old(v)@),
        e.0 < bound,
        forall|j: int| 0 <= j < old(v)@.len() ==> #[trigger] old(v)@[j].0 < bound,
    ensures
        strictly_by_index(final(v)@),
        forall|j: int| 0 <= j < final(v)@.len() ==> #[trigger] final(v)@[j].0 < bound,
        forall|i: usize| #[trigger] entry_for(final(v)@, i) == if i == e.0 {
            Some(e.1)
        } else {
            entry_for(old(v)@, i)
        },
{
    let mut p: usize = 0;
    while p < v.len() && v[p].0 < e.0
        invariant
            p <= v@.len(),
            forall|j: int| 0 <= j < p ==> #[trigger] v@[j].0 < e.0,
        decreases v@.len() - p,
    {
        p = p + 1;
    }
    let ghost old_v = v@;
    let ghost key = e.0;
    if p < v.len() && v[p].0 == e.0 {
        v[p] = e;
        proof {
            assert(v@ == old_v.update(p as int, e));
            assert forall|j: int| 0 <= j < v@.len() implies #[trigger] v@[j].0 < bound by {
                if j != p {
                    assert(v@[j] == old_v[j]);
                }
            }
            assert(strictly_by_index(v@)) by {
                assert forall|a: int, b: int| 0 <= a < b < v@.len() implies #[trigger] v@[a].0 < #[trigger] v@[b].0 by {
                    assert(old_v[a].0 < old_v[b].0);
                }
            }
            lemma_entry_for(v@, p as int);
            assert forall|i: usize| i != key implies #[trigger] entry_for(v@, i) == entry_for(old_v, i) by {
                if exists|j: int| 0 <= j < old_v.len() && old_v[j].0 == i {
                    let j = choose|j: int| 0 <= j < old_v.len() && old_v[j].0 == i;
                    lemma_entry_for(old_v, j);
                    lemma_entry_for(v@, j);
                } else {
                    assert(!exists|j: int| 0 <= j < v@.len() && v@[j].0 == i);
                }
            }
        }
    } else {
        proof {
            assert forall|j: int| p <= j < old_v.len() implies #[trigger] old_v[j].0 > key by {
                if j > p {
                    assert(old_v[p as int].0 < old_v[j].0);
                }
            }
        }
        v.insert(p, e);
        proof {
            assert(v@ == old_v.insert(p as int, e));
            assert forall|j: int| 0 <= j < v@.len() implies #[trigger] v@[j].0 < bound by {
                if j < p {
                    assert(v@[j] == old_v[j]);
                } else if j > p {
                    assert(v@[j] == old_v[j - 1]);
                }
            }
            assert(strictly_by_index(v@)) by {
                assert forall|a: int, b: int| 0 <= a < b < v@.len() implies #[trigger] v@[a].0 < #[trigger] v@[b].0 by {
                    if b < p {
                        assert(old_v[a].0 < old_v[b].0);
                    } else if b == p {
                    } else if a < p {
                        assert(v@[b] == old_v[b - 1]);
                    } else if a == p {
                        assert(v@[b] == old_v[b - 1]);
                    } else {
                        assert(old_v[a - 1].0 < old_v[b - 1].0);
                    }
                }
            }
            lemma_entry_for(v@, p as int);
            assert forall|i: usize| i != key implies #[trigger] entry_for(v@, i) == entry_for(old_v, i) by {
                if exists|j: int| 0 <= j < old_v.len() && old_v[j].0 == i {
                    let j = choose|j: int| 0 <= j < old_v.len() && old_v[j].0 == i;
                    lemma_entry_for(old_v, j);
                    if j < p {
                        lemma_entry_for(v@, j);
                    } else {
                        assert(v@[j + 1] == old_v[j]);
                        lemma_entry_for(v@, j + 1);
                    }
                } else {
                    assert forall|j: int| 0 <= j < v@.len() implies v@[j].0 != i by {
                        if j < p {
                            assert(v@[j] == old_v[j]);
                        } else if j > p {
                            assert(v@[j] == old_v[j - 1]);
                        }
                    }
                }
            }
        }
    }
}

/// `a` is the animation built from `setup` over `bones` and `slots`: bone
/// timelines ordered by bone index, the last one given for a bone standing;
/// slot timelines in the order given.
pub open spec fn animation_built<S, T, C>(setup: AnimationSetup<T, C>, bones: Seq<Bone<S>>, slots: Seq<Slot>, a: Animation<T, C>) -> bool {
    &&& a.duration == setup.duration
    &&& a.events == setup.events
    &&& a.draworder == setup.draworder
    &&& a.fits(bones.len(), slots.len())
    &&& forall|i: usize| #[trigger] entry_for(a.bones@, i) == last_entry_for(resolved_bones(setup.bones@, bones), i)
    &&& a.slots@ == resolved_slots(setup.slots@, slots)
}

/// `e` is the error of building `setup` over bones named `bones` and slots
/// named `slots`: the first bone key that names no bone, else the first slot
/// key that names no slot.
pub open spec fn animation_error<T, C>(setup: AnimationSetup<T, C>, bones: Seq<Seq<char>>, slots: Seq<Seq<char>>, e: SkeletonError) -> bool {
    match first_missing(bones, entry_names(setup.bones@), 0) {
        Some(k) => e matches SkeletonError::BoneNotFound(n) && n@ == setup.bones@[k].0@,
        None => match first_missing(slots, entry_names(setup.slots@), 0) {
            Some(k) => e matches SkeletonError::SlotNotFound(n) && n@ == setup.slots@[k].0@,
            None => false,
        },
    }
}

/// Binds each bone timeline to the index of the bone its key names, ordered by
/// index, the last timeline given for a bone standing.
#[verifier::rlimit(40)]
fn bind_bones<S, T>(jbones: Vec<(String, T)>, bones: &[Bone<S>]) -> (r: Result<Vec<(usize, T)>, SkeletonError>)
    ensures
        match first_missing(bone_names(bones@), entry_names(jbones@), 0) {
            Some(k) => r matches Err(SkeletonError::BoneNotFound(n)) && n@ == jbones@[k].0@,
            None => r matches Ok(v) && strictly_by_index(v@)
                && (forall|j: int| 0 <= j < v@.len() ==> #[trigger] v@[j].0 < bones@.len())
                && forall|i: usize| #[trigger] entry_for(v@, i) == last_entry_for(resolved_bones(jbones@, bones@), i),
        },
{
    let mut abones: Vec<(usize, T)> = Vec::new();
    let mut rest = jbones;
    let ghost all = rest@;
    let ghost bn = bone_names(bones@);
    let n: usize = rest.len();
    proof {
        assert(all.take(0) =~= Seq::<(String, T)>::empty());
        assert(resolved_bones(all.take(0), bones@) =~= Seq::<(usize, T)>::empty());
        assert forall|i: usize| #[trigger] entry_for(abones@, i) == last_entry_for(resolved_bones(all.take(0), bones@), i) by {
            assert(!exists|j: int| 0 <= j < abones@.len() && abones@[j].0 == i);
        }
    }
    let mut k: usize = 0;
    while rest.len() > 0
        invariant
            all == jbones@,
            k + rest@.len() == all.len(),
            n == all.len(),
            rest@ == all.skip(k as int),
            strictly_by_index(abones@),
            forall|j: int| 0 <= j < abones@.len() ==> #[trigger] abones@[j].0 < bones@.len(),
            forall|i: usize| #[trigger] entry_for(abones@, i) == last_entry_for(resolved_bones(all.take(k as int), bones@), i),
            forall|j: int| 0 <= j < k ==> first_named(bone_names(bones@), #[trigger] all[j].0@) is Some,
            bn == bone_names(bones@),
        decreases rest@.len(),
    {
        let (name, timeline) = rest.remove(0);
        let index = match bone_index(name.as_str(), bones) {
            Ok(i) => i,
            Err(e) => {
                proof {
                    assert(first_named(bone_names(bones@), name@) is None);
                    let keys = entry_names(all);
                    assert(keys[k as int] == name@);
                    assert forall|j: int| 0 <= j < k implies first_named(bn, #[trigger] keys[j]) is Some by {
                        assert(keys[j] == all[j].0@);
                    }
                    lemma_first_missing_at(bn, keys, 0, k as int);
                }
                return Err(e);
            },
        };
        proof {
            assert(all.take(k as int + 1) =~= all.take(k as int).push(all[k as int]));
            let prev = resolved_bones(all.take(k as int), bones@);
            assert(resolved_bones(all.take(k as int + 1), bones@) =~= prev.push((index, timeline)));
            assert(prev.push((index, timeline)).drop_last() =~= prev);
        }
        bind_ordered(&mut abones, (index, timeline), bones.len());
        k = k + 1;
    }
    proof {
        let keys = entry_names(all);
        lemma_first_missing_none(bn, keys, 0);
        assert forall|j: int| 0 <= j < keys.len() implies first_named(bn, #[trigger] keys[j]) is Some by {
            assert(keys[j] == all[j].0@);
        }
    }
    assert(all.take(k as int) =~= all);
    Ok(abones)
}

impl<T, C> Animation<T, C> {
    /// Bound to at most `n_bones` bones and `n_slots` slots, each bone once.
    pub open spec fn fits(&self, n_bones: nat, n_slots: nat) -> bool {
        &&& strictly_by_index(self.bones@)
        &&& forall|j: int| 0 <= j < self.bones@.len() ==> #[trigger] self.bones@[j].0 < n_bones
        &&& forall|j: int| 0 <= j < self.slots@.len() ==> #[trigger] self.slots@[j].0 < n_slots
    }

    /// Builds an animation, binding its timelines to bones and slots by name.
    #[verifier::rlimit(50)]
    pub fn from_json<S>(animation: AnimationSetup<T, C>, bones: &[Bone<S>], slots: &[Slot]) -> (r: Result<Animation<T, C>, SkeletonError>)
        ensures
            r is Ok <==> animation_resolves(animation, bone_names(bones@), slot_names(slots@)),
            match r {
                Ok(a) => animation_built(animation, bones@, slots@, a),
                Err(e) => animation_error(animation, bone_names(bones@), slot_names(slots@), e),
            },
    {
        let ghost setup = animation;
        let ghost bn = bone_names(bones@);
        let ghost sn = slot_names(slots@);
        let AnimationSetup { bones: jbones, slots: jslots, events, draworder, duration } = animation;
        assert(setup.bones@ == jbones@);
        assert(setup == animation);
        let abones = match bind_bones(jbones, bones) {
            Ok(v) => v,
            Err(e) => return Err(e),
        };
        assert(first_missing(bn, entry_names(setup.bones@), 0) is None);
        let mut aslots: Vec<(usize, SlotTimeline<C>)> = Vec::new();
        let mut rest = jslots;
        let ghost sall = rest@;
        let n: usize = rest.len();
        let mut k: usize = 0;
        while rest.len() > 0
            invariant
                sall == setup.slots@,
                setup == animation,
                k + rest@.len() == sall.len(),
                n == sall.len(),
                rest@ == sall.skip(k as int),
                aslots@ == resolved_slots(sall.take(k as int), slots@),
                forall|j: int| 0 <= j < aslots@.len() ==> #[trigger] aslots@[j].0 < slots@.len(),
                forall|j: int| 0 <= j < k ==> first_named(slot_names(slots@), #[trigger] sall[j].0@) is Some,
                bn == bone_names(bones@),
                sn == slot_names(slots@),
                first_missing(bn, entry_names(setup.bones@), 0) is None,
            decreases rest@.len(),
        {
            let (name, timeline) = rest.remove(0);
            let index = match slot_index(name.as_str(), slots) {
                Ok(i) => i,
                Err(e) => {
                    assert(first_named(slot_names(slots@), name@) is None);
                    proof {
                        let keys = entry_names(sall);
                        assert(keys[k as int] == name@);
                        assert forall|j: int| 0 <= j < k implies first_named(sn, #[trigger] keys[j]) is Some by {
                            assert(keys[j] == sall[j].0@);
                        }
                        lemma_first_missing_at(sn, keys, 0, k as int);
                    }
                    return Err(e);
                },
            };
            proof {
                assert(sall.take(k as int + 1) =~= sall.take(k as int).push(sall[k as int]));
            }
            let ghost prev = aslots@;
            aslots.push((index, timeline));
            assert(aslots@ =~= resolved_slots(sall.take(k as int + 1), slots@));
            assert forall|j: int| 0 <= j < aslots@.len() implies #[trigger] aslots@[j].0 < slots@.len() by {
                if j < prev.len() {
                    assert(aslots@[j] == prev[j]);
                }
            }
            k = k + 1;
        }
        proof {
            assert(sall.take(k as int) =~= sall);
            let keys = entry_names(sall);
            lemma_first_missing_none(sn, keys, 0);
            assert forall|j: int| 0 <= j < keys.len() implies first_named(sn, #[trigger] keys[j]) is Some by {
                assert(keys[j] == sall[j].0@);
            }
        }
        Ok(Animation { bones: abones, slots: aslots, events, draworder, duration })
    }
}

/// The timeline that `s` binds to bone `i`, if any.
pub open spec fn entry_for<T>(s: Seq<(usize, T)>, i: usize) -> Option<T> {
    if exists|j: int| 0 <= j < s.len() && s[j].0 == i {
        Some(s[choose|j: int| 0 <= j < s.len() && s[j].0 == i].1)
    } else {
        None
    }
}

/// The two timelines a transition blends for bone `i`: both animations' when
/// both animate it, otherwise twice the one that does.
pub open spec fn blended_pair<T>(first: Seq<(usize, T)>, second: Seq<(usize, T)>, i: usize) -> Option<(T, T)> {
    match (entry_for(first, i), entry_for(second, i)) {
        (Some(a), Some(b)) => Some((a, b)),
        (Some(a), None) => Some((a, a)),
        (None, Some(b)) => Some((b, b)),
        (None, None) => None,
    }
}

/// The attachment that `s` shows at `t`, if a keyframe is in force and names one.
pub open spec fn shown_at<C>(s: SlotTimeline<C>, t: u32) -> Option<String> {
    match active_key(s.attachment@, t) {
        Some(k) => s.attachment@[k].name,
        None => None,
    }
}

proof fn lemma_entry_for<T>(s: Seq<(usize, T)>, j: int)
    requires
        strictly_by_index(s),
        0 <= j < s.len(),
    ensures
        entry_for(s, s[j].0) == Some(s[j].1),
{
    let i = s[j].0;
    let c = choose|c: int| 0 <= c < s.len() && s[c].0 == i;
    assert(0 <= c < s.len() && s[c].0 == i);
    if c < j {
        assert(s[c].0 < s[j].0);
    }
    if j < c {
        assert(s[j].0 < s[c].0);
    }
}

impl<T, C> Animation<T, C> {
    /// Builds the transition from a pose of one animation (its bone timelines
    /// `first`) into `second`: for every bone that either animates, the bone
    /// timeline `blend` makes from the pair; for every slot of `second`, a
    /// timeline that keeps the attachment `second` shows at `current_time`.
    pub fn from_animations<S, F, G>(
        first: &[(usize, T)],
        second: &Animation<T, C>,
        bones: &[Bone<S>],
        current_time: u32,
        start: u32,
        duration: u32,
        blend: F,
        fresh_color: G,
    ) -> (r: Animation<T, C>)
        where
            F: Fn(&T, &T) -> T,
            G: Fn() -> C,
        requires
            strictly_by_index(first@),
            strictly_by_index(second.bones@),
            forall|j: int| 0 <= j < first@.len() ==> #[trigger] first@[j].0 < bones@.len(),
            forall|j: int| 0 <= j < second.bones@.len() ==> #[trigger] second.bones@[j].0 < bones@.len(),
            forall|a: &T, b: &T| #[trigger] blend.requires((a, b)),
            fresh_color.requires(()),
        ensures
            transition_from(r, first@, *second, bones@.len(), current_time, start, duration, blend, fresh_color),
    {
        let n = bones.len();
        let sb = &second.bones;
        let mut pa: usize = 0;
        let mut pb: usize = 0;
        let mut nbones: Vec<(usize, T)> = Vec::new();
        let mut i: usize = 0;
        while i < n
            invariant
                n == bones@.len(),
                sb == &second.bones,
                strictly_by_index(first@),
                strictly_by_index(sb@),
                forall|j: int| 0 <= j < first@.len() ==> #[trigger] first@[j].0 < n,
                forall|j: int| 0 <= j < sb@.len() ==> #[trigger] sb@[j].0 < n,
                forall|a: &T, b: &T| #[trigger] blend.requires((a, b)),
                i <= n,
                pa <= first@.len(),
                pb <= sb@.len(),
                forall|j: int| 0 <= j < pa ==> #[trigger] first@[j].0 < i,
                forall|j: int| pa <= j < first@.len() ==> #[trigger] first@[j].0 >= i,
                forall|j: int| 0 <= j < pb ==> #[trigger] sb@[j].0 < i,
                forall|j: int| pb <= j < sb@.len() ==> #[trigger] sb@[j].0 >= i,
                strictly_by_index(nbones@),
                forall|k: int| 0 <= k < nbones@.len() ==> {
                    &&& #[trigger] nbones@[k].0 < i
                    &&& blended_pair(first@, sb@, nbones@[k].0) matches Some(p)
                        && blend.ensures((&p.0, &p.1), nbones@[k].1)
                },
                forall|i2: usize| i2 < i && #[trigger] blended_pair(first@, sb@, i2) is Some
                    ==> exists|k: int| 0 <= k < nbones@.len() && nbones@[k].0 == i2,
            decreases n - i,
        {
            let a1: Option<&T> = if pa < first.len() && first[pa].0 == i {
                proof {
                    lemma_entry_for(first@, pa as int);
                }
                pa = pa + 1;
                Some(&first[pa - 1].1)
            } else {
                proof {
                    assert forall|j: int| 0 <= j < first@.len() implies first@[j].0 != i by {
                        if j > pa {
                            assert(first@[pa as int].0 < first@[j].0);
                        }
                    }
                }
                None
            };
            let a2: Option<&T> = if pb < sb.len() && sb[pb].0 == i {
                proof {
                    lemma_entry_for(sb@, pb as int);
                }
                pb = pb + 1;
                Some(&sb[pb - 1].1)
            } else {
                proof {
                    assert forall|j: int| 0 <= j < sb@.len() implies sb@[j].0 != i by {
                        if j > pb {
                            assert(sb@[pb as int].0 < sb@[j].0);
                        }
                    }
                }
                None
            };
            proof {
                assert forall|j: int| pa <= j < first@.len() implies #[trigger] first@[j].0 >= i + 1 by {
                    if pa > 0 && j > pa - 1 {
                        assert(first@[pa - 1].0 < first@[j].0);
                    }
                }
                assert forall|j: int| pb <= j < sb@.len() implies #[trigger] sb@[j].0 >= i + 1 by {
                    if pb > 0 && j > pb - 1 {
                        assert(sb@[pb - 1].0 < sb@[j].0);
                    }
                }
            }
            let ghost before = nbones@;
            match (a1, a2) {
                (Some(x), Some(y)) => {
                    let t = blend(x, y);
                    nbones.push((i, t));
                },
                (Some(x), None) => {
                    let t = blend(x, x);
                    nbones.push((i, t));
                },
                (None, Some(y)) => {
                    let t = blend(y, y);
                    nbones.push((i, t));
                },
                (None, None) => {},
            }
            proof {
                if nbones@.len() > before.len() {
                    assert(nbones@ == before.push(nbones@[before.len() as int]));
                    assert(nbones@[before.len() as int].0 == i);
                }
                assert forall|i2: usize| i2 < i + 1 && #[trigger] blended_pair(first@, sb@, i2) is Some
                    implies exists|k: int| 0 <= k < nbones@.len() && nbones@[k].0 == i2 by {
                    if i2 < i {
                        let k = choose|k: int| 0 <= k < before.len() && before[k].0 == i2;
                        assert(nbones@[k].0 == i2);
                    } else {
                        assert(nbones@[before.len() as int].0 == i2);
                    }
                }
            }
            i = i + 1;
        }
        let mut nslots: Vec<(usize, SlotTimeline<C>)> = Vec::new();
        let ss = &second.slots;
        let mut k: usize = 0;
        while k < ss.len()
            invariant
                ss == &second.slots,
                fresh_color.requires(()),
                k <= ss@.len(),
                nslots@.len() == k,
                forall|q: int| 0 <= q < k ==> {
                    &&& #[trigger] nslots@[q].0 == ss@[q].0
                    &&& nslots@[q].1.attachment@.len() == 1
                    &&& nslots@[q].1.attachment@[0].time == start
                    &&& nslots@[q].1.attachment@[0].name == shown_at(ss@[q].1, current_time)
                    &&& fresh_color.ensures((), nslots@[q].1.color)
                },
            decreases ss@.len() - k,
        {
            let shown: Option<String> = match ss[k].1.interpolate_attachment(current_time) {
                Some(Some(name)) => Some(name.clone()),
                _ => None,
            };
            let color = fresh_color();
            nslots.push((ss[k].0, SlotTimeline::from_timelines(shown, start, color)));
            k = k + 1;
        }
        let events = copy_events(&second.events);
        let draworder = copy_draworder(&second.draworder);
        let r = Animation { bones: nbones, slots: nslots, events, draworder, duration };
        proof {
            reveal(transition_from);
        }
        r
    }
}

/// `t` is the transition from bone timelines `first` into animation `second`:
/// for every bone either animates, the timeline `blend` makes from the pair;
/// for every slot of `second`, a timeline that keeps the attachment `second`
/// shows at `current_time` from `start` on; the events and draw order of
/// `second`.
#[verifier::opaque]
pub open spec fn transition_from<T, C, F: Fn(&T, &T) -> T, G: Fn() -> C>(
    t: Animation<T, C>,
    first: Seq<(usize, T)>,
    second: Animation<T, C>,
    n_bones: nat,
    current_time: u32,
    start: u32,
    duration: u32,
    blend: F,
    fresh_color: G,
) -> bool {
    &&& t.duration == duration
    &&& t.events@ == second.events@
    &&& t.draworder@.len() == second.draworder@.len()
    &&& forall|i: int| 0 <= i < t.draworder@.len() ==> (#[trigger] t.draworder@[i]).time == second.draworder@[i].time
        && t.draworder@[i].offsets@ == second.draworder@[i].offsets@
    &&& strictly_by_index(t.bones@)
    &&& forall|k: int| 0 <= k < t.bones@.len() ==> {
        &&& #[trigger] t.bones@[k].0 < n_bones
        &&& blended_pair(first, second.bones@, t.bones@[k].0) matches Some(p)
            && blend.ensures((&p.0, &p.1), t.bones@[k].1)
    }
    &&& forall|i: usize| i < n_bones && #[trigger] blended_pair(first, second.bones@, i) is Some
        ==> exists|k: int| 0 <= k < t.bones@.len() && t.bones@[k].0 == i
    &&& t.slots@.len() == second.slots@.len()
    &&& forall|k: int| 0 <= k < t.slots@.len() ==> {
        &&& #[trigger] t.slots@[k].0 == second.slots@[k].0
        &&& t.slots@[k].1.attachment@.len() == 1
        &&& t.slots@[k].1.attachment@[0].time == start
        &&& t.slots@[k].1.attachment@[0].name == shown_at(second.slots@[k].1, current_time)
        &&& fresh_color.ensures((), t.slots@[k].1.color)
    }
}

} // verus!
