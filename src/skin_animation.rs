//! A skin dressed on a skeleton, with the animation and transition it plays:
//! which timeline drives each bone and slot, and which sprites to draw.
use vstd::prelude::*;
use crate::animation::{strictly_by_index, transition_from, Animation};
use crate::error::SkeletonError;
use crate::bone::Bone;
use crate::skeleton::Skeleton;
use crate::skin::{is_first_place, Attachment};
use crate::timeline::{active_key, switched_names, SlotTimeline};
use crate::util::{entry_names, first_named, same_text, texts};

verus! {

/// Where an attachment stands: skin `skin` of the skeleton, entry `entry` of
/// that skin, item `item` of that entry.
#[derive(Clone, Copy, Debug, PartialEq, Eq, Structural)]
pub struct AttachmentRef {
    pub skin: usize,
    pub entry: usize,
    pub item: usize,
}

/// The attachment of a slot: fixed for the animation, or switched over time
/// by the slot's timeline (the fixed one then stands when no switch applies).
pub enum AttachmentWrapper {
    Static(Option<AttachmentRef>),
    Dynamic(Option<AttachmentRef>, Vec<(String, Option<AttachmentRef>)>),
}

/// A transition being played: the blend animation and, for each bone and
/// slot, the position of its timeline in it.
pub struct Transition<T, C> {
    pub animation: Animation<T, C>,
    pub bones: Vec<Option<usize>>,
    pub slots: Vec<Option<usize>>,
}

/// A skin dressed on a skeleton, playing an optional animation.
pub struct SkinAnimation<T, C> {
    /// Index of the requested skin and of the "default" skin.
    pub skin: usize,
    pub default_skin: usize,
    /// Index of the animation played, if any.
    pub animation: Option<usize>,
    /// For each bone, the position of its timeline in the animation.
    pub anim_bones: Vec<Option<usize>>,
    /// For each slot, the position of its timeline in the animation and its attachment.
    pub anim_slots: Vec<(Option<usize>, AttachmentWrapper)>,
    pub name: String,
    pub duration: u32,
    pub transition_anim: Option<Transition<T, C>>,
}

/// The first position at or after `from` of an entry bound to `i`.
pub open spec fn first_bound<X>(s: Seq<(usize, X)>, i: usize, from: int) -> Option<int>
    decreases s.len() - from,
{
    if from < 0 || from >= s.len() {
        None
    } else if s[from].0 == i {
        Some(from)
    } else {
        first_bound(s, i, from + 1)
    }
}

/// Position of the first entry of `s` bound to `i`.
fn find_bound<X>(s: &Vec<(usize, X)>, i: usize) -> (r: Option<usize>)
    ensures
        match first_bound(s@, i, 0) {
            Some(j) => r matches Some(k) && k == j,
            None => r is None,
        },
        r matches Some(k) ==> k < s@.len() && s@[k as int].0 == i,
{
    let mut j: usize = 0;
    while j < s.len()
        invariant
            j <= s@.len(),
            first_bound(s@, i, 0) == first_bound(s@, i, j as int),
        decreases s@.len() - j,
    {
        if s[j].0 == i {
            return Some(j);
        }
        j = j + 1;
    }
    None
}

/// For each of `n` indices, the first entry of `s` bound to it.
fn bind_all<X>(s: &Vec<(usize, X)>, n: usize) -> (r: Vec<Option<usize>>)
    ensures
        r@.len() == n,
        forall|i: int| 0 <= i < n ==> (#[trigger] r@[i] matches Some(k) ==> first_bound(s@, i as usize, 0) == Some(k as int)
            && k < s@.len()) && (r@[i] is None <==> first_bound(s@, i as usize, 0) is None),
{
    let mut r: Vec<Option<usize>> = Vec::new();
    let mut i: usize = 0;
    while i < n
        invariant
            i <= n,
            r@.len() == i,
            forall|q: int| 0 <= q < i ==> (#[trigger] r@[q] matches Some(k) ==> first_bound(s@, q as usize, 0) == Some(k as int)
                && k < s@.len()) && (r@[q] is None <==> first_bound(s@, q as usize, 0) is None),
        decreases n - i,
    {
        let b = find_bound(s, i);
        r.push(b);
        i = i + 1;
    }
    r
}

/// `r` is where attachment `name` of slot `slot` is found: in skin `skin`
/// first, else in skin `default`.
pub open spec fn resolves_to<S, M, T, C>(
    sk: Skeleton<S, M, T, C>,
    skin: usize,
    default: usize,
    slot: usize,
    name: Seq<char>,
    r: Option<AttachmentRef>,
) -> bool {
    let own = sk.skins@[skin as int].1;
    let fallback = sk.skins@[default as int].1;
    match r {
        Some(a) => if own.has(slot, name) {
            a.skin == skin && is_first_place(own.slots@, slot, name, (a.entry as int, a.item as int))
        } else {
            a.skin == default && fallback.has(slot, name)
                && is_first_place(fallback.slots@, slot, name, (a.entry as int, a.item as int))
        },
        None => !own.has(slot, name) && !fallback.has(slot, name),
    }
}

/// Finds attachment `name` of slot `slot` in skin `skin`, falling back to skin `default`.
pub fn find_attach<S, M, T, C>(sk: &Skeleton<S, M, T, C>, skin: usize, default: usize, slot: usize, name: &str)
    -> (r: Option<AttachmentRef>)
    requires
        skin < sk.skins@.len(),
        default < sk.skins@.len(),
    ensures
        resolves_to(*sk, skin, default, slot, name@, r),
{
    match sk.skins[skin].1.position(slot, name) {
        Some((e, k)) => Some(AttachmentRef { skin, entry: e, item: k }),
        None => match sk.skins[default].1.position(slot, name) {
            Some((e, k)) => Some(AttachmentRef { skin: default, entry: e, item: k }),
            None => None,
        },
    }
}

/// Looking up an attachment that the requested skin lacks and the "default"
/// skin has finds it in the "default" skin.
pub proof fn lemma_fallback_to_default<S, M, T, C>(
    sk: Skeleton<S, M, T, C>,
    skin: usize,
    default: usize,
    slot: usize,
    name: Seq<char>,
    r: Option<AttachmentRef>,
)
    requires
        resolves_to(sk, skin, default, slot, name, r),
        !sk.skins@[skin as int].1.has(slot, name),
        sk.skins@[default as int].1.has(slot, name),
    ensures
        r matches Some(a) && a.skin == default
            && is_first_place(sk.skins@[default as int].1.slots@, slot, name, (a.entry as int, a.item as int)),
{
}

/// `r` is the fixed attachment of slot `i`: its default attachment, looked up
/// in the skins, or none.
pub open spec fn static_ok<S, M, T, C>(sk: Skeleton<S, M, T, C>, skin: usize, default: usize, i: usize, r: Option<AttachmentRef>) -> bool {
    match sk.slots@[i as int].attachment {
        Some(n) => resolves_to(sk, skin, default, i, n@, r),
        None => r is None,
    }
}

/// `w` is the attachment of slot `i` played with slot timeline `tl`: switched
/// when the timeline names attachments, fixed otherwise.
#[verifier::opaque]
pub open spec fn wrapper_ok<S, M, T, C>(
    sk: Skeleton<S, M, T, C>,
    skin: usize,
    default: usize,
    i: usize,
    tl: Option<SlotTimeline<C>>,
    w: AttachmentWrapper,
) -> bool {
    match tl {
        Some(t) if switched_names(t.attachment@).len() > 0 => match w {
            AttachmentWrapper::Dynamic(a, list) => {
                &&& static_ok(sk, skin, default, i, a)
                &&& list@.map_values(|e: (String, Option<AttachmentRef>)| e.0@) == switched_names(t.attachment@)
                &&& forall|q: int| 0 <= q < list@.len() ==> resolves_to(sk, skin, default, i, (#[trigger] list@[q]).0@, list@[q].1)
            },
            AttachmentWrapper::Static(_) => false,
        },
        _ => match w {
            AttachmentWrapper::Static(a) => static_ok(sk, skin, default, i, a),
            AttachmentWrapper::Dynamic(_, _) => false,
        },
    }
}

/// The attachment of slot `i`, given its timeline in the animation.
fn slot_attachment<S, M, T, C>(sk: &Skeleton<S, M, T, C>, skin: usize, default: usize, i: usize, tl: Option<&SlotTimeline<C>>)
    -> (w: AttachmentWrapper)
    requires
        skin < sk.skins@.len(),
        default < sk.skins@.len(),
        i < sk.slots@.len(),
    ensures
        wrapper_ok(*sk, skin, default, i, match tl { Some(t) => Some(*t), None => None }, w),
{
    reveal(wrapper_ok);
    let slot_attach = match &sk.slots[i].attachment {
        Some(name) => find_attach(sk, skin, default, i, name.as_str()),
        None => None,
    };
    match tl {
        Some(t) => {
            let names = t.get_attachment_names();
            if names.len() == 0 {
                AttachmentWrapper::Static(slot_attach)
            } else {
                let mut list: Vec<(String, Option<AttachmentRef>)> = Vec::new();
                let mut q: usize = 0;
                while q < names.len()
                    invariant
                        skin < sk.skins@.len(),
                        default < sk.skins@.len(),
                        q <= names@.len(),
                        list@.len() == q,
                        forall|j: int| 0 <= j < q ==> (#[trigger] list@[j]).0@ == texts(names@)[j],
                        forall|j: int| 0 <= j < q ==> resolves_to(*sk, skin, default, i, (#[trigger] list@[j]).0@, list@[j].1),
                    decreases names@.len() - q,
                {
                    let n = names[q].clone();
                    let r = find_attach(sk, skin, default, i, n.as_str());
                    let ghost prev = list@;
                    list.push((n, r));
                    proof {
                        assert forall|j: int| 0 <= j < q + 1 implies (#[trigger] list@[j]).0@ == texts(names@)[j]
                            && resolves_to(*sk, skin, default, i, list@[j].0@, list@[j].1) by {
                            if j < q {
                                assert(list@[j] == prev[j]);
                            }
                        }
                    }
                    q = q + 1;
                }
                assert(list@.map_values(|e: (String, Option<AttachmentRef>)| e.0@) =~= texts(names@));
                AttachmentWrapper::Dynamic(slot_attach, list)
            }
        },
        None => AttachmentWrapper::Static(slot_attach),
    }
}

/// The slot timeline at position `bind` of animation `animation`, if both are given.
pub open spec fn timeline_of<S, M, T, C>(sk: Skeleton<S, M, T, C>, animation: Option<usize>, bind: Option<usize>) -> Option<SlotTimeline<C>> {
    match (animation, bind) {
        (Some(a), Some(k)) => Some(sk.animations@[a as int].1.slots@[k as int].1),
        _ => None,
    }
}

/// `b` binds each of `n` indices to the first entry of `s` bound to it.
pub open spec fn binds_first<X>(b: Seq<Option<usize>>, s: Seq<(usize, X)>, n: nat) -> bool {
    &&& b.len() == n
    &&& forall|i: int| 0 <= i < n ==> (#[trigger] b[i] matches Some(k) ==> first_bound(s, i as usize, 0) == Some(k as int)
        && k < s.len()) && (b[i] is None <==> first_bound(s, i as usize, 0) is None)
}

/// For each bone, the position of its timeline in animation `animation`.
fn bind_bones<S, M, T, C>(skeleton: &Skeleton<S, M, T, C>, animation: Option<usize>) -> (r: Vec<Option<usize>>)
    requires
        animation matches Some(a) ==> a < skeleton.animations@.len(),
    ensures
        r@.len() == skeleton.bones@.len(),
        match animation {
            Some(a) => binds_first(r@, skeleton.animations@[a as int].1.bones@, skeleton.bones@.len()),
            None => forall|i: int| 0 <= i < r@.len() ==> #[trigger] r@[i] is None,
        },
        forall|i: int| 0 <= i < r@.len() ==> (#[trigger] r@[i] matches Some(k)
            ==> animation matches Some(a) && k < skeleton.animations@[a as int].1.bones@.len()),
{
    let n_bones = skeleton.bones.len();
    match animation {
        Some(a) => bind_all(&skeleton.animations[a].1.bones, n_bones),
        None => {
            let mut v: Vec<Option<usize>> = Vec::new();
            let mut i: usize = 0;
            while i < n_bones
                invariant
                    i <= n_bones,
                    v@.len() == i,
                    forall|q: int| 0 <= q < i ==> #[trigger] v@[q] is None,
                decreases n_bones - i,
            {
                v.push(None);
                i = i + 1;
            }
            v
        },
    }
}

/// For each slot, the position of its timeline in animation `animation` and
/// its attachment.
fn bind_slots<S, M, T, C>(skeleton: &Skeleton<S, M, T, C>, skin_index: usize, default_index: usize, animation: Option<usize>)
    -> (r: Vec<(Option<usize>, AttachmentWrapper)>)
    requires
        skin_index < skeleton.skins@.len(),
        default_index < skeleton.skins@.len(),
        animation matches Some(a) ==> a < skeleton.animations@.len(),
    ensures
        r@.len() == skeleton.slots@.len(),
        match animation {
            Some(a) => binds_first(r@.map_values(|e: (Option<usize>, AttachmentWrapper)| e.0),
                skeleton.animations@[a as int].1.slots@, skeleton.slots@.len()),
            None => forall|i: int| 0 <= i < r@.len() ==> (#[trigger] r@[i]).0 is None,
        },
        forall|i: int| 0 <= i < r@.len() ==> wrapper_ok(*skeleton, skin_index, default_index, i as usize,
            timeline_of(*skeleton, animation, (#[trigger] r@[i]).0), r@[i].1),
        forall|i: int| 0 <= i < r@.len() ==> ((#[trigger] r@[i]).0 matches Some(k)
            ==> animation matches Some(a) && k < skeleton.animations@[a as int].1.slots@.len()),
{
    let n_slots = skeleton.slots.len();
    let slot_binds: Vec<Option<usize>> = match animation {
        Some(a) => bind_all(&skeleton.animations[a].1.slots, n_slots),
        None => {
            let mut v: Vec<Option<usize>> = Vec::new();
            let mut i: usize = 0;
            while i < n_slots
                invariant
                    i <= n_slots,
                    v@.len() == i,
                    forall|q: int| 0 <= q < i ==> #[trigger] v@[q] is None,
                decreases n_slots - i,
            {
                v.push(None);
                i = i + 1;
            }
            v
        },
    };
    let mut anim_slots: Vec<(Option<usize>, AttachmentWrapper)> = Vec::new();
    let mut i: usize = 0;
    while i < n_slots
        invariant
            n_slots == skeleton.slots@.len(),
            skin_index < skeleton.skins@.len(),
            default_index < skeleton.skins@.len(),
            animation matches Some(a) ==> a < skeleton.animations@.len(),
            slot_binds@.len() == n_slots,
            match animation {
                Some(a) => binds_first(slot_binds@, skeleton.animations@[a as int].1.slots@, skeleton.slots@.len()),
                None => forall|q: int| 0 <= q < n_slots ==> #[trigger] slot_binds@[q] is None,
            },
            i <= n_slots,
            anim_slots@.len() == i,
            forall|q: int| 0 <= q < i ==> (#[trigger] anim_slots@[q]).0 == slot_binds@[q],
            forall|q: int| 0 <= q < i ==> wrapper_ok(*skeleton, skin_index, default_index, q as usize,
                timeline_of(*skeleton, animation, (#[trigger] anim_slots@[q]).0), anim_slots@[q].1),
        decreases n_slots - i,
    {
        let bind = slot_binds[i];
        let tl: Option<&SlotTimeline<C>> = match (animation, bind) {
            (Some(a), Some(k)) => Some(&skeleton.animations[a].1.slots[k].1),
            _ => None,
        };
        let w = slot_attachment(skeleton, skin_index, default_index, i, tl);
        let ghost prev = anim_slots@;
        anim_slots.push((bind, w));
        proof {
            assert forall|q: int| 0 <= q < i + 1 implies (#[trigger] anim_slots@[q]).0 == slot_binds@[q]
                && wrapper_ok(*skeleton, skin_index, default_index, q as usize,
                    timeline_of(*skeleton, animation, anim_slots@[q].0), anim_slots@[q].1) by {
                if q < i {
                    assert(anim_slots@[q] == prev[q]);
                }
            }
        }
        i = i + 1;
    }
    assert(anim_slots@.map_values(|e: (Option<usize>, AttachmentWrapper)| e.0) =~= slot_binds@);
    assert forall|q: int| 0 <= q < anim_slots@.len() implies ((#[trigger] anim_slots@[q]).0 matches Some(k)
        ==> animation matches Some(a) && k < skeleton.animations@[a as int].1.slots@.len()) by {
        assert(anim_slots@[q].0 == slot_binds@[q]);
    }
    anim_slots
}

/// `r` is what dressing skin `skin` on `sk` gives, playing `animation_name`
/// if given, after `transition` if given: the first missing name is reported
/// (the skin, then the "default" skin, then the animation); otherwise each bone
/// and slot is bound to its timelines and each slot to its attachment.
#[verifier::opaque]
pub open spec fn dressed<S, M, T, C>(
    sk: Skeleton<S, M, T, C>,
    skin: Seq<char>,
    animation_name: Option<Seq<char>>,
    transition: Option<Animation<T, C>>,
    r: Result<SkinAnimation<T, C>, SkeletonError>,
) -> bool {
    let sn = entry_names(sk.skins@);
    let an = entry_names(sk.animations@);
    if first_named(sn, skin) is None {
        r matches Err(SkeletonError::SkinNotFound(n)) && n@ == skin
    } else if first_named(sn, "default"@) is None {
        r matches Err(SkeletonError::SkinNotFound(n)) && n@ == "default"@
    } else if animation_name matches Some(a) && first_named(an, a) is None {
        r matches Err(SkeletonError::AnimationNotFound(n)) && n@ == animation_name.unwrap()
    } else {
        r matches Ok(sa) && {
            &&& sa.skin == first_named(sn, skin).unwrap()
            &&& sa.default_skin == first_named(sn, "default"@).unwrap()
            &&& sa.fits(sk)
            &&& match animation_name {
                Some(a) => sa.animation == Some(first_named(an, a).unwrap() as usize)
                    && sa.name@ == a
                    && sa.duration == sk.animations@[first_named(an, a).unwrap()].1.duration,
                None => sa.animation is None && sa.name@.len() == 0 && sa.duration == 0,
            }
            &&& sa.bound_to(sk)
            &&& match transition {
                Some(t) => sa.transition_anim matches Some(tr) && tr.animation == t
                    && binds_first(tr.bones@, t.bones@, sk.bones@.len())
                    && binds_first(tr.slots@, t.slots@, sk.slots@.len()),
                None => sa.transition_anim is None,
            }
        }
    }
}

impl<T, C> SkinAnimation<T, C> {
    /// Every index refers into `sk`.
    pub open spec fn fits<S, M>(&self, sk: Skeleton<S, M, T, C>) -> bool {
        &&& self.skin < sk.skins@.len()
        &&& self.default_skin < sk.skins@.len()
        &&& self.animation matches Some(a) ==> a < sk.animations@.len()
        &&& self.anim_bones@.len() == sk.bones@.len()
        &&& self.anim_slots@.len() == sk.slots@.len()
        &&& forall|i: int| 0 <= i < self.anim_slots@.len() ==> ((#[trigger] self.anim_slots@[i]).0 matches Some(k)
            ==> self.animation matches Some(a) && k < sk.animations@[a as int].1.slots@.len())
        &&& forall|i: int| 0 <= i < self.anim_bones@.len() ==> (#[trigger] self.anim_bones@[i] matches Some(k)
            ==> self.animation matches Some(a) && k < sk.animations@[a as int].1.bones@.len())
    }

    /// Each bone and slot is bound to its first timeline in the animation, and
    /// each slot to its attachment.
    pub open spec fn bound_to<S, M>(&self, sk: Skeleton<S, M, T, C>) -> bool {
        &&& match self.animation {
            Some(a) => binds_first(self.anim_bones@, sk.animations@[a as int].1.bones@, sk.bones@.len())
                && binds_first(self.anim_slots@.map_values(|e: (Option<usize>, AttachmentWrapper)| e.0),
                    sk.animations@[a as int].1.slots@, sk.slots@.len()),
            None => (forall|i: int| 0 <= i < self.anim_bones@.len() ==> #[trigger] self.anim_bones@[i] is None)
                && (forall|i: int| 0 <= i < self.anim_slots@.len() ==> (#[trigger] self.anim_slots@[i]).0 is None),
        }
        &&& forall|i: int| 0 <= i < self.anim_slots@.len() ==> wrapper_ok(sk, self.skin, self.default_skin, i as usize,
            timeline_of(sk, self.animation, (#[trigger] self.anim_slots@[i]).0), self.anim_slots@[i].1)
    }

    /// Dresses skin `skin` on `skeleton`, playing `animation_name` if given and
    /// the transition `transition` first if given.
    #[verifier::rlimit(40)]
    pub fn new<S, M>(
        skeleton: &Skeleton<S, M, T, C>,
        skin: &str,
        animation_name: Option<&str>,
        transition: Option<Animation<T, C>>,
    ) -> (r: Result<SkinAnimation<T, C>, SkeletonError>)
        ensures
            dressed(*skeleton, skin@, match animation_name { Some(a) => Some(a@), None => None }, transition, r),
    {
        reveal(dressed);
        let skin_index = match skeleton.skin_position(skin) {
            Ok(i) => i,
            Err(e) => return Err(e),
        };
        let default_index = match skeleton.skin_position("default") {
            Ok(i) => i,
            Err(e) => return Err(e),
        };
        let animation: Option<usize> = match animation_name {
            Some(a) => match skeleton.animation_position(a) {
                Ok(i) => Some(i),
                Err(e) => return Err(e),
            },
            None => None,
        };
        let duration: u32 = match animation {
            Some(i) => skeleton.animations[i].1.duration,
            None => 0,
        };
        let name: String = match animation_name {
            Some(a) => a.to_owned(),
            None => String::new(),
        };
        let n_bones = skeleton.bones.len();
        let n_slots = skeleton.slots.len();
        let anim_bones = bind_bones(skeleton, animation);
        let anim_slots = bind_slots(skeleton, skin_index, default_index, animation);
        let transition_anim = match transition {
            Some(t) => {
                let bones = bind_all(&t.bones, n_bones);
                let slots = bind_all(&t.slots, n_slots);
                Some(Transition { animation: t, bones, slots })
            },
            None => None,
        };

        let sa = SkinAnimation {
            skin: skin_index,
            default_skin: default_index,
            animation,
            anim_bones,
            anim_slots,
            name,
            duration,
            transition_anim,
        };
        Ok(sa)
    }
}

/// Where a sprite takes its tint from.
#[derive(Clone, Copy, Debug)]
pub enum SpriteColor {
    /// The slot's base color.
    Base([u8; 4]),
    /// The color timeline of slot timeline `k` of the animation played.
    Timeline(usize),
}

/// A sprite to draw: attachment name, tint, the slot and bone that place it,
/// and where its attachment stands.
pub struct Sprite {
    pub attachment: String,
    pub color: SpriteColor,
    pub slot_index: usize,
    pub bone_index: usize,
    pub attachment_ref: AttachmentRef,
}

/// `r` designates an attachment of `sk`.
pub open spec fn ref_valid<S, M, T, C>(sk: Skeleton<S, M, T, C>, r: AttachmentRef) -> bool {
    &&& r.skin < sk.skins@.len()
    &&& r.entry < sk.skins@[r.skin as int].1.slots@.len()
    &&& r.item < sk.skins@[r.skin as int].1.slots@[r.entry as int].1@.len()
}

/// The attachment `r` designates, with its key.
pub open spec fn item_at<S, M, T, C>(sk: Skeleton<S, M, T, C>, r: AttachmentRef) -> (String, Attachment<S, M>) {
    sk.skins@[r.skin as int].1.slots@[r.entry as int].1@[r.item as int]
}

/// The attachment a switched slot shows under name `name`.
pub open spec fn listed(list: Seq<(String, Option<AttachmentRef>)>, name: Seq<char>) -> Option<AttachmentRef> {
    match first_named(entry_names(list), name) {
        Some(q) => list[q].1,
        None => None,
    }
}

/// What one slot draws: nothing, a sprite, or (`Err`, with the attachment's
/// name) a mesh, which has no local transform.
pub enum SlotOutput {
    Nothing,
    Drawn(Sprite),
    Mesh(String),
}

impl<T, C> SkinAnimation<T, C> {
    /// The name a switch gives slot `i` at `time`, and the attachment it shows.
    pub open spec fn resolved<S, M>(&self, sk: Skeleton<S, M, T, C>, i: int, time: u32) -> (Option<String>, Option<AttachmentRef>) {
        match self.anim_slots@[i].1 {
            AttachmentWrapper::Static(a) => (None, a),
            AttachmentWrapper::Dynamic(a, list) => match timeline_of(sk, self.animation, self.anim_slots@[i].0) {
                Some(t) => match active_key(t.attachment@, time) {
                    Some(k) => match t.attachment@[k].name {
                        Some(n) => (Some(n), listed(list@, n@)),
                        None => (None, a),
                    },
                    None => (None, a),
                },
                None => (None, a),
            },
        }
    }

    /// Tint source of slot `i`.
    pub open spec fn color_of_slot<S, M>(&self, sk: Skeleton<S, M, T, C>, i: int) -> SpriteColor {
        match (self.animation, self.anim_slots@[i].0) {
            (Some(_), Some(k)) => SpriteColor::Timeline(k),
            _ => SpriteColor::Base(sk.slots@[i].color),
        }
    }

    /// What slot `i` draws at `time`.
    pub open spec fn slot_output<S, M>(&self, sk: Skeleton<S, M, T, C>, i: int, time: u32) -> SlotOutput {
        let (dyn_name, att) = self.resolved(sk, i, time);
        match att {
            None => SlotOutput::Nothing,
            Some(r) => {
                let item = item_at(sk, r);
                let name = match dyn_name {
                    Some(n) => n,
                    None => match item.1.spec_name() {
                        Some(n) => n,
                        None => match sk.slots@[i].attachment {
                            Some(n) => n,
                            None => item.0,
                        },
                    },
                };
                match item.1 {
                    Attachment::Mesh(_) => SlotOutput::Mesh(name),
                    Attachment::Region(_) => SlotOutput::Drawn(Sprite {
                        attachment: name,
                        color: self.color_of_slot(sk, i),
                        slot_index: i as usize,
                        bone_index: sk.slots@[i].bone_index,
                        attachment_ref: r,
                    }),
                }
            },
        }
    }

    /// The sprites of the first `n` slots at `time`, in slot order; slots that
    /// draw nothing give none.
    pub open spec fn drawn<S, M>(&self, sk: Skeleton<S, M, T, C>, n: int, time: u32) -> Seq<Sprite>
        decreases n,
    {
        if n <= 0 {
            Seq::empty()
        } else {
            match self.slot_output(sk, n - 1, time) {
                SlotOutput::Drawn(s) => self.drawn(sk, n - 1, time).push(s),
                _ => self.drawn(sk, n - 1, time),
            }
        }
    }

    /// One of the first `n` slots shows a mesh at `time`.
    pub open spec fn blocked<S, M>(&self, sk: Skeleton<S, M, T, C>, n: int, time: u32) -> bool {
        exists|i: int| 0 <= i < n && #[trigger] self.slot_output(sk, i, time) is Mesh
    }
}

/// A slot whose default attachment the requested skin lacks and the
/// "default" skin has is bound to the "default" skin's attachment.
pub proof fn lemma_slot_falls_back<S, M, T, C>(sk: Skeleton<S, M, T, C>, skin: usize, default: usize, i: usize,
    tl: Option<SlotTimeline<C>>, w: AttachmentWrapper)
    requires
        wrapper_ok(sk, skin, default, i, tl, w),
        sk.slots@[i as int].attachment matches Some(n) && !sk.skins@[skin as int].1.has(i, n@)
            && sk.skins@[default as int].1.has(i, n@),
    ensures
        match w {
            AttachmentWrapper::Static(a) => a matches Some(r) && r.skin == default,
            AttachmentWrapper::Dynamic(a, _) => a matches Some(r) && r.skin == default,
        },
{
    reveal(wrapper_ok);
}

proof fn lemma_wrapper_refs<S, M, T, C>(sk: Skeleton<S, M, T, C>, skin: usize, default: usize, i: usize,
    tl: Option<SlotTimeline<C>>, w: AttachmentWrapper)
    requires
        skin < sk.skins@.len(),
        default < sk.skins@.len(),
        wrapper_ok(sk, skin, default, i, tl, w),
    ensures
        match w {
            AttachmentWrapper::Static(a) => a matches Some(r) ==> ref_valid(sk, r),
            AttachmentWrapper::Dynamic(a, list) => (a matches Some(r) ==> ref_valid(sk, r))
                && forall|q: int| 0 <= q < list@.len() ==> ((#[trigger] list@[q]).1 matches Some(r) ==> ref_valid(sk, r)),
        },
{
    reveal(wrapper_ok);
}

/// The attachment listed under `name`, if any.
fn lookup_listed(list: &Vec<(String, Option<AttachmentRef>)>, name: &str) -> (r: Option<AttachmentRef>)
    ensures
        r == listed(list@, name@),
{
    proof {
        crate::util::lemma_first_named_in_range(entry_names(list@), name@);
    }
    match crate::util::position_by_name(list, name) {
        Some(q) => list[q].1,
        None => None,
    }
}

impl<T, C> SkinAnimation<T, C> {
    /// What slot `i` draws at `time`.
    fn slot_sprite<S, M>(&self, sk: &Skeleton<S, M, T, C>, i: usize, time: u32) -> (r: SlotOutput)
        requires
            sk.well_formed(),
            self.fits(*sk),
            self.bound_to(*sk),
            i < sk.slots@.len(),
        ensures
            r == self.slot_output(*sk, i as int, time),
    {
        let bind = self.anim_slots[i].0;
        let w = &self.anim_slots[i].1;
        proof {
            lemma_wrapper_refs(*sk, self.skin, self.default_skin, i, timeline_of(*sk, self.animation, bind), *w);
        }
        let (dyn_name, att): (Option<String>, Option<AttachmentRef>) = match w {
            AttachmentWrapper::Static(a) => (None, *a),
            AttachmentWrapper::Dynamic(a, list) => {
                let tl: Option<&SlotTimeline<C>> = match (self.animation, bind) {
                    (Some(an), Some(k)) => Some(&sk.animations[an].1.slots[k].1),
                    _ => None,
                };
                match tl {
                    Some(t) => match t.interpolate_attachment(time) {
                        Some(Some(n)) => {
                            let found = lookup_listed(list, n.as_str());
                            proof {
                                crate::util::lemma_first_named_in_range(entry_names(list@), n@);
                            }
                            (Some(n.clone()), found)
                        },
                        _ => (None, *a),
                    },
                    None => (None, *a),
                }
            },
        };
        assert((dyn_name, att) == self.resolved(*sk, i as int, time));
        match att {
            None => SlotOutput::Nothing,
            Some(r) => {
                let item = &sk.skins[r.skin].1.slots[r.entry].1[r.item];
                let slot = &sk.slots[i];
                let name: String = match dyn_name {
                    Some(n) => n,
                    None => match item.1.name() {
                        Some(n) => n.clone(),
                        None => match &slot.attachment {
                            Some(n) => n.clone(),
                            None => item.0.clone(),
                        },
                    },
                };
                let color = match (self.animation, bind) {
                    (Some(_), Some(k)) => SpriteColor::Timeline(k),
                    _ => SpriteColor::Base(slot.color),
                };
                match &item.1 {
                    Attachment::Mesh(_) => SlotOutput::Mesh(name),
                    Attachment::Region(_) => SlotOutput::Drawn(Sprite {
                        attachment: name,
                        color,
                        slot_index: i,
                        bone_index: slot.bone_index,
                        attachment_ref: r,
                    }),
                }
            },
        }
    }

    /// The sprites to draw at `time`, back to front in slot order. A slot that
    /// shows no attachment draws nothing; a slot showing a mesh is refused.
    pub fn interpolate<S, M>(&self, sk: &Skeleton<S, M, T, C>, time: u32) -> (r: Result<Vec<Sprite>, SkeletonError>)
        requires
            sk.well_formed(),
            self.fits(*sk),
            self.bound_to(*sk),
        ensures
            r is Err <==> self.blocked(*sk, sk.slots@.len() as int, time),
            match r {
                Ok(v) => v@ == self.drawn(*sk, sk.slots@.len() as int, time),
                Err(e) => e is UnsupportedAttachment,
            },
    {
        let n = sk.slots.len();
        let mut out: Vec<Sprite> = Vec::new();
        let mut i: usize = 0;
        while i < n
            invariant
                n == sk.slots@.len(),
                sk.well_formed(),
                self.fits(*sk),
                self.bound_to(*sk),
                i <= n,
                out@ == self.drawn(*sk, i as int, time),
                !self.blocked(*sk, i as int, time),
            decreases n - i,
        {
            let o = self.slot_sprite(sk, i, time);
            match o {
                SlotOutput::Drawn(s) => {
                    out.push(s);
                },
                SlotOutput::Mesh(name) => {
                    assert(self.slot_output(*sk, i as int, time) is Mesh);
                    return Err(SkeletonError::UnsupportedAttachment(name));
                },
                SlotOutput::Nothing => {},
            }
            proof {
                assert(!self.blocked(*sk, i as int + 1, time)) by {
                    if self.blocked(*sk, i as int + 1, time) {
                        let j = choose|j: int| 0 <= j < i + 1 && #[trigger] self.slot_output(*sk, j, time) is Mesh;
                        if j < i {
                            assert(self.blocked(*sk, i as int, time));
                        }
                    }
                }
            }
            i = i + 1;
        }
        Ok(out)
    }
}

/// A slot that shows no attachment at `time` adds nothing to the sprites: it
/// is left out, neither an error nor an empty sprite.
pub proof fn lemma_unresolved_slot_left_out<S, M, T, C>(sa: SkinAnimation<T, C>, sk: Skeleton<S, M, T, C>, i: int, time: u32)
    requires
        0 <= i,
        sa.resolved(sk, i, time).1 is None,
    ensures
        sa.slot_output(sk, i, time) is Nothing,
        sa.drawn(sk, i + 1, time) == sa.drawn(sk, i, time),
{
}

impl<S, M, T, C> Skeleton<S, M, T, C> {
    /// Dresses skin `skin`, playing `animation` if given.
    pub fn get_animated_skin(&self, skin: &str, animation: Option<&str>) -> (r: Result<SkinAnimation<T, C>, SkeletonError>)
        ensures
            dressed(*self, skin@, match animation { Some(a) => Some(a@), None => None }, None, r),
    {
        SkinAnimation::new(self, skin, animation, None)
    }

    /// Dresses skin `skin` playing `next_animation`, after a transition of
    /// length `fade_duration` from the pose `current_animation` has at
    /// `current_time`; `blend` makes each bone's transition timeline from the
    /// two bone timelines, `fresh_color` an empty color timeline, and the
    /// transition's slot timelines start at `start`.
    pub fn get_animated_skin_with_transiton<F, G>(
        &self,
        skin: &str,
        next_animation: &str,
        current_animation: &str,
        current_time: u32,
        start: u32,
        fade_duration: u32,
        blend: F,
        fresh_color: G,
    ) -> (r: Result<SkinAnimation<T, C>, SkeletonError>)
        where
            F: Fn(&T, &T) -> T,
            G: Fn() -> C,
        requires
            self.well_formed(),
            forall|a: &T, b: &T| #[trigger] blend.requires((a, b)),
            fresh_color.requires(()),
        ensures
            ({
                let an = entry_names(self.animations@);
                if first_named(an, current_animation@) is None {
                    r matches Err(SkeletonError::AnimationNotFound(n)) && n@ == current_animation@
                } else if first_named(an, next_animation@) is None {
                    r matches Err(SkeletonError::AnimationNotFound(n)) && n@ == next_animation@
                } else {
                    let first = self.animations@[first_named(an, current_animation@).unwrap()].1;
                    let second = self.animations@[first_named(an, next_animation@).unwrap()].1;
                    exists|t: Animation<T, C>| {
                        &&& #[trigger] transition_from(t, first.bones@, second, self.bones@.len(), current_time, start,
                            fade_duration, blend, fresh_color)
                        &&& dressed(*self, skin@, Some(next_animation@), Some(t), r)
                    }
                }
            }),
    {
        proof {
            crate::util::lemma_first_named_in_range(entry_names(self.animations@), current_animation@);
            crate::util::lemma_first_named_in_range(entry_names(self.animations@), next_animation@);
        }
        let ci = match self.animation_position(current_animation) {
            Ok(i) => i,
            Err(e) => return Err(e),
        };
        let ni = match self.animation_position(next_animation) {
            Ok(i) => i,
            Err(e) => return Err(e),
        };
        let first = &self.animations[ci].1;
        let second = &self.animations[ni].1;
        let trans = Animation::from_animations(
            first.bones.as_slice(),
            second,
            self.bones.as_slice(),
            current_time,
            start,
            fade_duration,
            blend,
            fresh_color,
        );
        SkinAnimation::new(self, skin, Some(next_animation), Some(trans))
    }
}

impl<T, C> SkinAnimation<T, C> {
    /// Length of the animation played.
    pub fn get_duration(&self) -> (r: u32)
        ensures
            r == self.duration,
    {
        self.duration
    }

    /// The bone timelines whose pose a new transition starts from: the
    /// transition's when `interpolating` through one, else the animation's.
    pub open spec fn pose_bones<S, M>(&self, sk: Skeleton<S, M, T, C>, interpolating: bool) -> Option<Seq<(usize, T)>> {
        let an = entry_names(sk.animations@);
        if interpolating && self.transition_anim is Some {
            Some(self.transition_anim.unwrap().animation.bones@)
        } else if first_named(an, self.name@) is None {
            None
        } else {
            Some(sk.animations@[first_named(an, self.name@).unwrap()].1.bones@)
        }
    }

    /// The bone timelines whose pose a new transition starts from.
    fn pose_source<'a, S, M>(&'a self, skeleton: &'a Skeleton<S, M, T, C>, interpolating: bool)
        -> (r: Result<&'a Vec<(usize, T)>, SkeletonError>)
        requires
            skeleton.well_formed(),
            self.transition_anim matches Some(tr) ==> strictly_by_index(tr.animation.bones@)
                && forall|j: int| 0 <= j < tr.animation.bones@.len() ==> #[trigger] tr.animation.bones@[j].0 < skeleton.bones@.len(),
        ensures
            match self.pose_bones(*skeleton, interpolating) {
                Some(p) => r matches Ok(b) && b@ == p,
                None => r matches Err(SkeletonError::AnimationNotFound(n)) && n@ == self.name@,
            },
            r matches Ok(b) ==> strictly_by_index(b@) && forall|j: int| 0 <= j < b@.len() ==> #[trigger] b@[j].0 < skeleton.bones@.len(),
    {
        proof {
            crate::util::lemma_first_named_in_range(entry_names(skeleton.animations@), self.name@);
        }
        if interpolating {
            match &self.transition_anim {
                Some(tr) => return Ok(&tr.animation.bones),
                None => {},
            }
        }
        match skeleton.animation_position(self.name.as_str()) {
            Ok(i) => {
                assert(skeleton.animations@[i as int].1.fits(skeleton.bones@.len() as nat, skeleton.slots@.len() as nat));
                Ok(&skeleton.animations[i].1.bones)
            },
            Err(e) => Err(e),
        }
    }

    /// Dresses skin `skin` on `skeleton` playing `next_animation`, after a
    /// transition from the pose this animation has at `time`: the pose of the
    /// transition being played when `interpolating`, else that of the
    /// animation played (see `Skeleton::get_animated_skin_with_transiton`).
    pub fn get_animated_skin_with_transiton<S, M, F, G>(
        &self,
        skeleton: &Skeleton<S, M, T, C>,
        skin: &str,
        next_animation: &str,
        time: u32,
        interpolating: bool,
        start: u32,
        fade_duration: u32,
        blend: F,
        fresh_color: G,
    ) -> (r: Result<SkinAnimation<T, C>, SkeletonError>)
        where
            F: Fn(&T, &T) -> T,
            G: Fn() -> C,
        requires
            skeleton.well_formed(),
            self.transition_anim matches Some(tr) ==> strictly_by_index(tr.animation.bones@)
                && forall|j: int| 0 <= j < tr.animation.bones@.len() ==> #[trigger] tr.animation.bones@[j].0 < skeleton.bones@.len(),
            forall|a: &T, b: &T| #[trigger] blend.requires((a, b)),
            fresh_color.requires(()),
        ensures
            match self.pose_bones(*skeleton, interpolating) {
                None => r matches Err(SkeletonError::AnimationNotFound(n)) && n@ == self.name@,
                Some(first) => if first_named(entry_names(skeleton.animations@), next_animation@) is None {
                    r matches Err(SkeletonError::AnimationNotFound(n)) && n@ == next_animation@
                } else {
                    exists|t: Animation<T, C>| {
                        &&& #[trigger] transition_from(t, first,
                            skeleton.animations@[first_named(entry_names(skeleton.animations@), next_animation@).unwrap()].1,
                            skeleton.bones@.len(), time, start, fade_duration, blend, fresh_color)
                        &&& dressed(*skeleton, skin@, Some(next_animation@), Some(t), r)
                    }
                },
            },
    {
        proof {
            crate::util::lemma_first_named_in_range(entry_names(skeleton.animations@), self.name@);
            crate::util::lemma_first_named_in_range(entry_names(skeleton.animations@), next_animation@);
        }
        let cbones = match self.pose_source(skeleton, interpolating) {
            Ok(b) => b,
            Err(e) => return Err(e),
        };
        let ni = match skeleton.animation_position(next_animation) {
            Ok(i) => i,
            Err(e) => return Err(e),
        };
        let second = &skeleton.animations[ni].1;
        let trans = Animation::from_animations(
            cbones.as_slice(),
            second,
            skeleton.bones.as_slice(),
            time,
            start,
            fade_duration,
            blend,
            fresh_color,
        );
        let ghost t = trans;
        let r = SkinAnimation::new(skeleton, skin, Some(next_animation), Some(trans));
        assert(transition_from(t, cbones@, *second, skeleton.bones@.len(), time, start, fade_duration, blend, fresh_color)
            && dressed(*skeleton, skin@, Some(next_animation@), Some(t), r));
        r
    }
}

/// `srts[i]` is the world transform of bone `i` driven by timeline `tl`: its
/// local transform if it is a root, else that transform placed under its
/// parent's world transform.
pub open spec fn world_ok<S, T, P, F: Fn(&Bone<S>, Option<&T>) -> P, G: Fn(&P, P, &Bone<S>) -> P>(
    bones: Seq<Bone<S>>,
    srts: Seq<P>,
    i: int,
    tl: Option<&T>,
    local: F,
    inherit: G,
) -> bool {
    match bones[i].parent_index {
        None => local.ensures((&bones[i], tl), srts[i]),
        Some(p) => exists|l: P| local.ensures((&bones[i], tl), l) && #[trigger] inherit.ensures((&srts[p as int], l, &bones[i]), srts[i]),
    }
}

/// A root bone's world transform is its locally animated transform: no parent
/// transform is composed into it.
pub proof fn lemma_root_world_is_local<S, T, P, F: Fn(&Bone<S>, Option<&T>) -> P, G: Fn(&P, P, &Bone<S>) -> P>(
    bones: Seq<Bone<S>>,
    srts: Seq<P>,
    i: int,
    tl: Option<&T>,
    local: F,
    inherit: G,
)
    requires
        world_ok(bones, srts, i, tl, local, inherit),
        bones[i].parent_index is None,
    ensures
        local.ensures((&bones[i], tl), srts[i]),
{
}

/// The value held by `o`, by reference.
pub open spec fn by_ref<X>(o: &Option<X>) -> Option<&X> {
    match o {
        Some(x) => Some(x),
        None => None,
    }
}

impl<T, C> SkinAnimation<T, C> {
    /// The timeline that drives bone `i`: the transition's when
    /// `interpolating` through one, else the animation's.
    pub open spec fn bone_timeline<S, M>(&self, sk: Skeleton<S, M, T, C>, i: int, interpolating: bool) -> Option<T> {
        if interpolating && self.transition_anim is Some {
            let tr = self.transition_anim.unwrap();
            match tr.bones@[i] {
                Some(k) => Some(tr.animation.bones@[k as int].1),
                None => None,
            }
        } else {
            match (self.animation, self.anim_bones@[i]) {
                (Some(a), Some(k)) => Some(sk.animations@[a as int].1.bones@[k as int].1),
                _ => None,
            }
        }
    }

    /// The world transform of every bone, in bone order. `local` gives a
    /// bone's transform relative to its parent from its setup pose and its
    /// timeline; `inherit` places such a transform under the parent's world
    /// transform. A root's world transform is its local one.
    pub fn get_bones_srts<S, M, P, F, G>(
        &self,
        skeleton: &Skeleton<S, M, T, C>,
        interpolating: bool,
        local: F,
        inherit: G,
    ) -> (r: Vec<P>)
        where
            F: Fn(&Bone<S>, Option<&T>) -> P,
            G: Fn(&P, P, &Bone<S>) -> P,
        requires
            skeleton.well_formed(),
            self.fits(*skeleton),
            self.transition_anim matches Some(tr) ==> tr.bones@.len() == skeleton.bones@.len()
                && forall|i: int| 0 <= i < tr.bones@.len() ==> (#[trigger] tr.bones@[i] matches Some(k) ==> k < tr.animation.bones@.len()),
            forall|b: &Bone<S>, t: Option<&T>| #[trigger] local.requires((b, t)),
            forall|p: &P, l: P, b: &Bone<S>| #[trigger] inherit.requires((p, l, b)),
        ensures
            r@.len() == skeleton.bones@.len(),
            forall|i: int| 0 <= i < r@.len() ==> #[trigger] world_ok(skeleton.bones@, r@, i,
                by_ref(&self.bone_timeline(*skeleton, i, interpolating)), local, inherit),
    {
        let n = skeleton.bones.len();
        let mut srts: Vec<P> = Vec::new();
        let mut i: usize = 0;
        while i < n
            invariant
                n == skeleton.bones@.len(),
                skeleton.well_formed(),
                self.fits(*skeleton),
                self.transition_anim matches Some(tr) ==> tr.bones@.len() == skeleton.bones@.len()
                    && forall|i: int| 0 <= i < tr.bones@.len() ==> (#[trigger] tr.bones@[i] matches Some(k) ==> k < tr.animation.bones@.len()),
                forall|b: &Bone<S>, t: Option<&T>| #[trigger] local.requires((b, t)),
                forall|p: &P, l: P, b: &Bone<S>| #[trigger] inherit.requires((p, l, b)),
                i <= n,
                srts@.len() == i,
                forall|q: int| 0 <= q < i ==> #[trigger] world_ok(skeleton.bones@, srts@, q,
                    by_ref(&self.bone_timeline(*skeleton, q, interpolating)), local, inherit),
            decreases n - i,
        {
            let bone = &skeleton.bones[i];
            let tl: Option<&T> = match &self.transition_anim {
                Some(tr) if interpolating => match tr.bones[i] {
                    Some(k) => Some(&tr.animation.bones[k].1),
                    None => None,
                },
                _ => match (self.animation, self.anim_bones[i]) {
                    (Some(a), Some(k)) => Some(&skeleton.animations[a].1.bones[k].1),
                    _ => None,
                },
            };
            assert(tl == by_ref(&self.bone_timeline(*skeleton, i as int, interpolating)));
            let l = local(bone, tl);
            let world = match bone.parent_index {
                Some(p) => {
                    assert(p < i);
                    inherit(&srts[p], l, bone)
                },
                None => l,
            };
            let ghost prev = srts@;
            srts.push(world);
            proof {
                assert forall|q: int| 0 <= q < i + 1 implies #[trigger] world_ok(skeleton.bones@, srts@, q,
                    by_ref(&self.bone_timeline(*skeleton, q, interpolating)), local, inherit) by {
                    let tq = by_ref(&self.bone_timeline(*skeleton, q, interpolating));
                    if q < i {
                        assert(world_ok(skeleton.bones@, prev, q, tq, local, inherit));
                        assert(srts@[q] == prev[q]);
                        if let Some(p) = skeleton.bones@[q].parent_index {
                            assert(srts@[p as int] == prev[p as int]);
                            let l2 = choose|l2: P| local.ensures((&skeleton.bones@[q], tq), l2)
                                && inherit.ensures((&prev[p as int], l2, &skeleton.bones@[q]), prev[q]);
                            assert(local.ensures((&skeleton.bones@[q], tq), l2)
                                && inherit.ensures((&srts@[p as int], l2, &skeleton.bones@[q]), srts@[q]));
                        }
                    } else {
                        if let Some(p) = skeleton.bones@[q].parent_index {
                            assert(srts@[p as int] == prev[p as int]);
                            assert(local.ensures((&skeleton.bones@[q], tq), l)
                                && inherit.ensures((&srts@[p as int], l, &skeleton.bones@[q]), srts@[q]));
                        }
                    }
                }
            }
            i = i + 1;
        }
        srts
    }
}

} // verus!
