//! Slot timelines: which attachment a slot shows over time.
use vstd::prelude::*;
use crate::util::texts;

verus! {

/// From `time` on, the slot shows attachment `name` (nothing when `None`).
pub struct AttachmentKeyframe {
    pub time: u32,
    pub name: Option<String>,
}

/// The animated properties of one slot: attachment switches and a color
/// timeline carried as `C`.
pub struct SlotTimeline<C> {
    pub attachment: Vec<AttachmentKeyframe>,
    pub color: C,
}

/// The first keyframe at or after `from` that comes after `t`, or the length.
pub open spec fn first_later_key(keys: Seq<AttachmentKeyframe>, t: u32, from: int) -> int
    decreases keys.len() - from,
{
    if from < 0 || from >= keys.len() {
        keys.len() as int
    } else if t < keys[from].time {
        from
    } else {
        first_later_key(keys, t, from + 1)
    }
}

/// The keyframe in force at `t`: none before the first one, otherwise the one
/// just before the first keyframe that comes after `t`.
pub open spec fn active_key(keys: Seq<AttachmentKeyframe>, t: u32) -> Option<int> {
    if keys.len() == 0 || t < keys[0].time {
        None
    } else {
        Some(first_later_key(keys, t, 0) - 1)
    }
}

/// The attachment names that the keyframes switch to, in order.
pub open spec fn switched_names(keys: Seq<AttachmentKeyframe>) -> Seq<Seq<char>>
    decreases keys.len(),
{
    if keys.len() == 0 {
        Seq::empty()
    } else {
        let rest = switched_names(keys.drop_last());
        match keys.last().name {
            Some(n) => rest.push(n@),
            None => rest,
        }
    }
}

impl<C> SlotTimeline<C> {
    /// A timeline that shows `name` from `start` on, with color timeline `color`.
    pub fn from_timelines(name: Option<String>, start: u32, color: C) -> (r: Self)
        ensures
            r.attachment@.len() == 1,
            r.attachment@[0].time == start,
            r.attachment@[0].name == name,
            r.color == color,
    {
        let mut attachment = Vec::new();
        attachment.push(AttachmentKeyframe { time: start, name });
        SlotTimeline { attachment, color }
    }

    /// Index of the attachment keyframe in force at `elapsed`.
    pub fn active_keyframe(&self, elapsed: u32) -> (r: Option<usize>)
        ensures
            r is Some <==> active_key(self.attachment@, elapsed) is Some,
            r matches Some(k) ==> active_key(self.attachment@, elapsed) == Some(k as int)
                && k < self.attachment@.len(),
    {
        let keys = &self.attachment;
        if keys.len() == 0 || elapsed < keys[0].time {
            return None;
        }
        let mut p: usize = 1;
        proof {
            assert(!(elapsed < keys@[0].time));
            assert(first_later_key(keys@, elapsed, 0) == first_later_key(keys@, elapsed, 1));
        }
        while p < keys.len()
            invariant
                keys == &self.attachment,
                1 <= p <= keys@.len(),
                first_later_key(keys@, elapsed, 0) == first_later_key(keys@, elapsed, p as int),
            decreases keys@.len() - p,
        {
            if elapsed < keys[p].time {
                return Some(p - 1);
            }
            p = p + 1;
        }
        Some(p - 1)
    }

    /// The attachment the slot switches to at `elapsed`: `None` when no
    /// keyframe is in force yet, `Some(None)` when the keyframe hides it.
    pub fn interpolate_attachment(&self, elapsed: u32) -> (r: Option<Option<&String>>)
        ensures
            match active_key(self.attachment@, elapsed) {
                Some(k) => r matches Some(o) && match o {
                    Some(n) => self.attachment@[k].name == Some(*n),
                    None => self.attachment@[k].name is None,
                },
                None => r is None,
            },
    {
        match self.active_keyframe(elapsed) {
            Some(k) => {
                match &self.attachment[k].name {
                Some(n) => Some(Some(n)),
                None => Some(None),
            }},
            None => None,
        }
    }

    /// The names of all attachments the timeline switches to.
    pub fn get_attachment_names(&self) -> (r: Vec<String>)
        ensures
            texts(r@) == switched_names(self.attachment@),
    {
        let keys = &self.attachment;
        let mut names: Vec<String> = Vec::new();
        let mut i: usize = 0;
        while i < keys.len()
            invariant
                keys == &self.attachment,
                i <= keys@.len(),
                texts(names@) == switched_names(keys@.take(i as int)),
            decreases keys@.len() - i,
        {
            proof {
                assert(keys@.take(i as int + 1).drop_last() =~= keys@.take(i as int));
            }
            match &keys[i].name {
                Some(n) => {
                    names.push(n.clone());
                    assert(texts(names@) =~= switched_names(keys@.take(i as int)).push(n@));
                },
                None => {},
            }
            i = i + 1;
        }
        assert(keys@.take(keys@.len() as int) =~= keys@);
        names
    }
}

} // verus!
