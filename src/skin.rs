use vstd::prelude::*;
use crate::json::AttachmentType;
use crate::util::same_text;

verus! {

/// A textured rectangle; `srt` places it relative to its bone.
pub struct RegionAttachment<S> {
    pub name: Option<String>,
    pub srt: S,
}

/// A deformable mesh; its geometry is carried as `mesh`.
pub struct MeshAttachment<M> {
    pub name: Option<String>,
    pub mesh: M,
}

/// Visible content bound to a slot.
pub enum Attachment<S, M> {
    Region(RegionAttachment<S>),
    Mesh(MeshAttachment<M>),
}

/// Why an attachment of the document cannot be used.
#[derive(Clone, Copy, Debug, PartialEq, Eq, Structural)]
pub enum AttachmentError {
    UnknownType,
}

/// Kinds of attachment the skeleton holds.
#[derive(Clone, Copy, Debug, PartialEq, Eq, Structural)]
pub enum AttachmentKind {
    Region,
    Mesh,
}

/// The kind of attachment built from a declared type; regions by default.
pub open spec fn kind_of(t: Option<AttachmentType>) -> Result<AttachmentKind, AttachmentError> {
    match t {
        None => Ok(AttachmentKind::Region),
        Some(AttachmentType::Region) => Ok(AttachmentKind::Region),
        Some(AttachmentType::Mesh) => Ok(AttachmentKind::Mesh),
        Some(_) => Err(AttachmentError::UnknownType),
    }
}

/// Decides which kind of attachment a declared type gives.
pub fn attachment_kind(t: Option<AttachmentType>) -> (r: Result<AttachmentKind, AttachmentError>)
    ensures
        r == kind_of(t),
{
    match t {
        None => Ok(AttachmentKind::Region),
        Some(AttachmentType::Region) => Ok(AttachmentKind::Region),
        Some(AttachmentType::Mesh) => Ok(AttachmentKind::Mesh),
        Some(_) => Err(AttachmentError::UnknownType),
    }
}

impl<S, M> Attachment<S, M> {
    /// The name the attachment declares, if any.
    pub open spec fn spec_name(&self) -> Option<String> {
        match self {
            Attachment::Region(r) => r.name,
            Attachment::Mesh(m) => m.name,
        }
    }

    /// The name the attachment declares, if any.
    pub fn name(&self) -> (r: Option<&String>)
        ensures
            match self.spec_name() {
                Some(n) => r == Some(&n),
                None => r is None,
            },
    {
        match self {
            Attachment::Region(region) => region.name.as_ref(),
            Attachment::Mesh(mesh) => mesh.name.as_ref(),
        }
    }
}

/// A named set of attachments per slot.
pub struct Skin<S, M> {
    /// For each slot the skin dresses: the slot index and its attachments by name.
    pub slots: Vec<(usize, Vec<(String, Attachment<S, M>)>)>,
}

/// Entry `e`, item `k` of `slots` is an attachment called `name` for slot `slot`.
pub open spec fn holds_at<S, M>(
    slots: Seq<(usize, Vec<(String, Attachment<S, M>)>)>,
    e: int,
    k: int,
    slot: usize,
    name: Seq<char>,
) -> bool {
    &&& 0 <= e < slots.len()
    &&& slots[e].0 == slot
    &&& 0 <= k < slots[e].1@.len()
    &&& slots[e].1@[k].0@ == name
}

/// `p` is the first place of attachment `name` of slot `slot` in `slots`.
pub open spec fn is_first_place<S, M>(
    slots: Seq<(usize, Vec<(String, Attachment<S, M>)>)>,
    slot: usize,
    name: Seq<char>,
    p: (int, int),
) -> bool {
    &&& holds_at(slots, p.0, p.1, slot, name)
    &&& forall|e: int, k: int| 0 <= e < p.0 ==> !holds_at(slots, e, k, slot, name)
    &&& forall|k: int| 0 <= k < p.1 ==> !holds_at(slots, p.0, k, slot, name)
}

/// Every attachment of `slots`, entry after entry.
pub open spec fn all_items<S, M>(slots: Seq<(usize, Vec<(String, Attachment<S, M>)>)>) -> Seq<Attachment<S, M>>
    decreases slots.len(),
{
    if slots.len() == 0 {
        Seq::empty()
    } else {
        all_items(slots.drop_last()) + slots.last().1@.map_values(|it: (String, Attachment<S, M>)| it.1)
    }
}

impl<S, M> Skin<S, M> {
    /// Every attachment of the skin, entry after entry.
    pub fn attachments(&self) -> (r: Vec<&Attachment<S, M>>)
        ensures
            r@.len() == all_items(self.slots@).len(),
            forall|i: int| 0 <= i < r@.len() ==> *r@[i] == all_items(self.slots@)[i],
    {
        let mut out: Vec<&Attachment<S, M>> = Vec::new();
        let mut e: usize = 0;
        while e < self.slots.len()
            invariant
                e <= self.slots@.len(),
                out@.len() == all_items(self.slots@.take(e as int)).len(),
                forall|i: int| 0 <= i < out@.len() ==> *out@[i] == all_items(self.slots@.take(e as int))[i],
            decreases self.slots@.len() - e,
        {
            let items = &self.slots[e].1;
            let ghost base = out@;
            let mut k: usize = 0;
            while k < items.len()
                invariant
                    e < self.slots@.len(),
                    items == &self.slots@[e as int].1,
                    k <= items@.len(),
                    base.len() == all_items(self.slots@.take(e as int)).len(),
                    out@.len() == base.len() + k,
                    forall|i: int| 0 <= i < base.len() ==> *out@[i] == all_items(self.slots@.take(e as int))[i],
                    forall|i: int| 0 <= i < k ==> *out@[base.len() + i] == items@[i].1,
                decreases items@.len() - k,
            {
                out.push(&items[k].1);
                k = k + 1;
            }
            proof {
                let t1 = self.slots@.take(e as int + 1);
                assert(t1.drop_last() =~= self.slots@.take(e as int));
                assert(t1.last() == self.slots@[e as int]);
                let add = items@.map_values(|it: (String, Attachment<S, M>)| it.1);
                assert(all_items(t1) == all_items(self.slots@.take(e as int)) + add);
                assert forall|i: int| 0 <= i < out@.len() implies *out@[i] == all_items(t1)[i] by {
                    if i >= base.len() {
                        assert(*out@[base.len() + (i - base.len())] == items@[i - base.len()].1);
                    }
                }
            }
            e = e + 1;
        }
        assert(self.slots@.take(e as int) =~= self.slots@);
        out
    }

    /// The skin has attachment `name` for slot `slot`.
    pub open spec fn has(&self, slot: usize, name: Seq<char>) -> bool {
        exists|e: int, k: int| holds_at(self.slots@, e, k, slot, name)
    }

    /// Finds where attachment `name` of slot `slot` is: (entry, item).
    pub fn position(&self, slot_index: usize, attach_name: &str) -> (r: Option<(usize, usize)>)
        ensures
            match r {
                Some(p) => is_first_place(self.slots@, slot_index, attach_name@, (p.0 as int, p.1 as int)),
                None => !self.has(slot_index, attach_name@),
            },
    {
        let mut e: usize = 0;
        while e < self.slots.len()
            invariant
                e <= self.slots@.len(),
                forall|e2: int, k: int| 0 <= e2 < e ==> !holds_at(self.slots@, e2, k, slot_index, attach_name@),
            decreases self.slots@.len() - e,
        {
            if self.slots[e].0 == slot_index {
                let items = &self.slots[e].1;
                let mut k: usize = 0;
                while k < items.len()
                    invariant
                        e < self.slots@.len(),
                        items == &self.slots@[e as int].1,
                        self.slots@[e as int].0 == slot_index,
                        k <= items@.len(),
                        forall|e2: int, k2: int| 0 <= e2 < e ==> !holds_at(self.slots@, e2, k2, slot_index, attach_name@),
                        forall|k2: int| 0 <= k2 < k ==> !holds_at(self.slots@, e as int, k2, slot_index, attach_name@),
                    decreases items@.len() - k,
                {
                    if same_text(items[k].0.as_str(), attach_name) {
                        assert(holds_at(self.slots@, e as int, k as int, slot_index, attach_name@));
                        return Some((e, k));
                    }
                    k = k + 1;
                }
            }
            e = e + 1;
        }
        None
    }

    /// Finds attachment `attach_name` of slot `slot_index` in this skin.
    pub fn find(&self, slot_index: usize, attach_name: &str) -> (r: Option<&Attachment<S, M>>)
        ensures
            match r {
                Some(a) => exists|e: int, k: int| is_first_place(self.slots@, slot_index, attach_name@, (e, k))
                    && *a == self.slots@[e].1@[k].1,
                None => !self.has(slot_index, attach_name@),
            },
    {
        match self.position(slot_index, attach_name) {
            Some((e, k)) => Some(&self.slots[e].1[k].1),
            None => None,
        }
    }
}

} // verus!
