//! The skeleton: bones, slots, skins and animations, cross-referenced by index.
use vstd::prelude::*;
use crate::animation::{animation_built, animation_error, animation_resolves, Animation, AnimationSetup};
use crate::bone::{bone_built, bones_well_formed, Bone, BoneSetup};
use crate::error::SkeletonError;
use crate::json;
use crate::skin::{Attachment, Skin};
use crate::color::color_of;
use crate::slot::{slot_built, slot_color_invalid, Slot};
use crate::util::{bone_names, entry_names, first_false, first_missing, first_named, lemma_first_false_at, lemma_first_false_none, lemma_first_missing_none, names_of, position_by_name, slot_index, slot_names, sorted_unique, text_in, texts};

verus! {

/// A parsed skeleton document whose numeric fields are already payloads.
pub struct Document<S, M, T, C> {
    pub bones: Vec<BoneSetup<S>>,
    pub slots: Vec<json::Slot>,
    /// Skin name, then for each slot name its attachments by name.
    pub skins: Vec<(String, Vec<(String, Vec<(String, Attachment<S, M>)>)>)>,
    pub animations: Vec<(String, AnimationSetup<T, C>)>,
}

/// Names of the bones a document declares.
pub open spec fn setup_bone_names<S>(bones: Seq<BoneSetup<S>>) -> Seq<Seq<char>> {
    bones.map_values(|b: BoneSetup<S>| b.name@)
}

/// Names of the slots a document declares.
pub open spec fn setup_slot_names(slots: Seq<json::Slot>) -> Seq<Seq<char>> {
    slots.map_values(|s: json::Slot| s.name@)
}

/// Bone `i` of the document names no parent, or one declared before it.
pub open spec fn parent_declared_before<S>(bones: Seq<BoneSetup<S>>, i: int) -> bool {
    bones[i].parent matches Some(p) ==> first_named(setup_bone_names(bones).take(i), p@) is Some
}

/// Slot `i` of the document names a declared bone and a valid color.
pub open spec fn slot_resolves<S>(bones: Seq<BoneSetup<S>>, slot: json::Slot) -> bool {
    first_named(setup_bone_names(bones), slot.bone@) is Some && !slot_color_invalid(slot)
}

/// Every slot a skin dresses is declared.
pub open spec fn skin_resolves<S, M>(slots: Seq<json::Slot>, skin: Seq<(String, Vec<(String, Attachment<S, M>)>)>) -> bool {
    first_missing(setup_slot_names(slots), entry_names(skin), 0) is None
}

/// Every name the document refers to is declared where it must be.
pub open spec fn document_resolves<S, M, T, C>(doc: Document<S, M, T, C>) -> bool {
    let bn = setup_bone_names(doc.bones@);
    let sn = setup_slot_names(doc.slots@);
    &&& forall|i: int| 0 <= i < doc.bones@.len() ==> #[trigger] parent_declared_before(doc.bones@, i)
    &&& forall|i: int| 0 <= i < doc.slots@.len() ==> slot_resolves(doc.bones@, #[trigger] doc.slots@[i])
    &&& forall|k: int| 0 <= k < doc.animations@.len() ==> animation_resolves((#[trigger] doc.animations@[k]).1, bn, sn)
    &&& forall|k: int| 0 <= k < doc.skins@.len() ==> skin_resolves(doc.slots@, (#[trigger] doc.skins@[k]).1@)
}

/// Which bones have their parent declared before them.
#[verifier::opaque]
pub open spec fn orphan_flags<S>(bones: Seq<BoneSetup<S>>) -> Seq<bool> {
    Seq::new(bones.len(), |i: int| parent_declared_before(bones, i))
}

/// Which slots resolve.
#[verifier::opaque]
pub open spec fn slot_flags<S>(bones: Seq<BoneSetup<S>>, slots: Seq<json::Slot>) -> Seq<bool> {
    Seq::new(slots.len(), |i: int| slot_resolves(bones, slots[i]))
}

/// Which animations resolve.
#[verifier::opaque]
pub open spec fn animation_flags<S, M, T, C>(doc: Document<S, M, T, C>) -> Seq<bool> {
    Seq::new(doc.animations@.len(), |k: int| animation_resolves(doc.animations@[k].1,
        setup_bone_names(doc.bones@), setup_slot_names(doc.slots@)))
}

/// Which skins resolve.
#[verifier::opaque]
pub open spec fn skin_flags<S, M, T, C>(doc: Document<S, M, T, C>) -> Seq<bool> {
    Seq::new(doc.skins@.len(), |k: int| skin_resolves(doc.slots@, doc.skins@[k].1@))
}

/// `e` is the first failure met building `doc`, checking bones, then slots,
/// then animations, then skins, each in order: a parent not declared before
/// its child, a slot's unknown bone or invalid color, an animation's unknown
/// bone or slot, a skin's unknown slot; each error carries the unresolved name.
#[verifier::opaque]
pub open spec fn document_error<S, M, T, C>(doc: Document<S, M, T, C>, e: SkeletonError) -> bool {
    let bn = setup_bone_names(doc.bones@);
    let sn = setup_slot_names(doc.slots@);
    match first_false(orphan_flags(doc.bones@), 0) {
        Some(i) => e matches SkeletonError::BoneNotFound(n) && doc.bones@[i].parent matches Some(p) && n@ == p@,
        None => match first_false(slot_flags(doc.bones@, doc.slots@), 0) {
            Some(i) => if first_named(bn, doc.slots@[i].bone@) is None {
                e matches SkeletonError::BoneNotFound(n) && n@ == doc.slots@[i].bone@
            } else {
                doc.slots@[i].color matches Some(c) && color_of(c@) matches Err(h) && e == SkeletonError::InvalidColor(h)
            },
            None => match first_false(animation_flags(doc), 0) {
                Some(k) => animation_error(doc.animations@[k].1, bn, sn, e),
                None => match first_false(skin_flags(doc), 0) {
                    Some(k) => match first_missing(sn, entry_names(doc.skins@[k].1@), 0) {
                        Some(q) => e matches SkeletonError::SlotNotFound(n) && n@ == doc.skins@[k].1@[q].0@,
                        None => false,
                    },
                    None => false,
                },
            },
        },
    }
}

/// `entries` binds each slot entry of skin declaration `decl` to the index of
/// its slot among slots named `slots`, keeping its attachments.
pub open spec fn entries_built<S, M>(
    decl: Seq<(String, Vec<(String, Attachment<S, M>)>)>,
    slots: Seq<Seq<char>>,
    entries: Seq<(usize, Vec<(String, Attachment<S, M>)>)>,
) -> bool {
    &&& entries.len() == decl.len()
    &&& forall|e: int| 0 <= e < decl.len() ==> (#[trigger] entries[e]).1 == decl[e].1
        && first_named(slots, decl[e].0@) == Some(entries[e].0 as int)
}

/// No two of `names` are equal.
pub open spec fn distinct(names: Seq<Seq<char>>) -> bool {
    forall|i: int, j: int| 0 <= i < j < names.len() ==> #[trigger] names[i] != #[trigger] names[j]
}

/// The keys of the document's maps are unique: skin names, animation names,
/// the slot names of each skin and the attachment names of each of its slots.
pub open spec fn document_keys_unique<S, M, T, C>(doc: Document<S, M, T, C>) -> bool {
    &&& distinct(entry_names(doc.skins@))
    &&& distinct(entry_names(doc.animations@))
    &&& forall|k: int| 0 <= k < doc.skins@.len() ==> distinct(entry_names((#[trigger] doc.skins@[k]).1@))
    &&& forall|k: int, e: int| 0 <= k < doc.skins@.len() && 0 <= e < doc.skins@[k].1@.len()
        ==> distinct(entry_names((#[trigger] doc.skins@[k].1@[e]).1@))
}

/// Skeleton data loaded in memory.
pub struct Skeleton<S, M, T, C> {
    /// Bones, each after its parent.
    pub bones: Vec<Bone<S>>,
    pub slots: Vec<Slot>,
    /// Skins by name.
    pub skins: Vec<(String, Skin<S, M>)>,
    /// Animations by name.
    pub animations: Vec<(String, Animation<T, C>)>,
}

/// Binds each slot a skin dresses to the slot's index.
fn resolve_skin<S, M>(jskin: Vec<(String, Vec<(String, Attachment<S, M>)>)>, slots: &[Slot])
    -> (r: Result<Vec<(usize, Vec<(String, Attachment<S, M>)>)>, SkeletonError>)
    ensures
        r is Ok <==> first_missing(slot_names(slots@), entry_names(jskin@), 0) is None,
        match first_missing(slot_names(slots@), entry_names(jskin@), 0) {
            Some(k) => r matches Err(SkeletonError::SlotNotFound(n)) && n@ == jskin@[k].0@,
            None => true,
        },
        match r {
            Ok(v) => (forall|e: int| 0 <= e < v@.len() ==> #[trigger] v@[e].0 < slots@.len())
                && entries_built(jskin@, slot_names(slots@), v@),
            Err(e) => e is SlotNotFound,
        },
{
    let ghost all = jskin@;
    let ghost sn = slot_names(slots@);
    let mut entries: Vec<(usize, Vec<(String, Attachment<S, M>)>)> = Vec::new();
    let mut items = jskin;
    let m: usize = items.len();
    let mut q: usize = 0;
    while items.len() > 0
        invariant
            all == jskin@,
            sn == slot_names(slots@),
            m == all.len(),
            q + items@.len() == m,
            items@ == all.skip(q as int),
            entries@.len() == q,
            forall|e: int| 0 <= e < q ==> #[trigger] entries@[e].0 < slots@.len(),
            forall|e: int| 0 <= e < q ==> first_named(sn, (#[trigger] all[e]).0@) is Some,
            entries_built(all.take(q as int), sn, entries@),
        decreases items@.len(),
    {
        let (slot_name, attachments) = items.remove(0);
        assert((slot_name, attachments) == all[q as int]);
        let ghost prev = entries@;
        match slot_index(slot_name.as_str(), slots) {
            Ok(si) => {
                entries.push((si, attachments));
                proof {
                    assert forall|e: int| 0 <= e < q + 1 implies #[trigger] entries@[e].0 < slots@.len() by {
                        if e < q {
                            assert(entries@[e] == prev[e]);
                        }
                    }
                    let t1 = all.take(q as int + 1);
                    assert forall|e: int| 0 <= e < t1.len() implies (#[trigger] entries@[e]).1 == t1[e].1
                        && first_named(sn, t1[e].0@) == Some(entries@[e].0 as int) by {
                        if e < q {
                            assert(entries@[e] == prev[e]);
                            assert(t1[e] == all.take(q as int)[e]);
                        }
                    }
                }
            },
            Err(e) => {
                proof {
                    let keys = entry_names(all);
                    assert(keys[q as int] == slot_name@);
                    assert forall|j: int| 0 <= j < q implies first_named(sn, #[trigger] keys[j]) is Some by {
                        assert(keys[j] == all[j].0@);
                    }
                    crate::util::lemma_first_missing_at(sn, keys, 0, q as int);
                }
                return Err(e);
            },
        }
        q = q + 1;
    }
    assert(all.take(q as int) =~= all);
    proof {
        let keys = entry_names(all);
        lemma_first_missing_none(sn, keys, 0);
        assert forall|j: int| 0 <= j < keys.len() implies first_named(sn, #[trigger] keys[j]) is Some by {
            assert(keys[j] == all[j].0@);
        }
    }
    Ok(entries)
}

/// The name a renderer knows an attachment by: its own, else its key.
pub open spec fn shown_name<S, M>(item: (String, Attachment<S, M>)) -> Seq<char> {
    match item.1.spec_name() {
        Some(n) => n@,
        None => item.0@,
    }
}

/// One of the first `n` attachments of `items` is known by `x`.
pub open spec fn items_show<S, M>(items: Seq<(String, Attachment<S, M>)>, n: int, x: Seq<char>) -> bool {
    exists|q: int| 0 <= q < n && q < items.len() && #[trigger] shown_name(items[q]) == x
}

/// An attachment of one of the first `n` entries of a skin is known by `x`.
pub open spec fn entries_show<S, M>(entries: Seq<(usize, Vec<(String, Attachment<S, M>)>)>, n: int, x: Seq<char>) -> bool {
    exists|e: int| 0 <= e < n && e < entries.len() && #[trigger] items_show(entries[e].1@, entries[e].1@.len() as int, x)
}

/// Some attachment of one of the first `n` skins is known by `x`.
pub open spec fn skins_show<S, M>(skins: Seq<(String, Skin<S, M>)>, n: int, x: Seq<char>) -> bool {
    exists|k: int| 0 <= k < n && k < skins.len() && #[trigger] entries_show(skins[k].1.slots@, skins[k].1.slots@.len() as int, x)
}

/// Appends the name of every attachment of `skin` to `out`.
fn collect_shown<S, M>(skin: &Skin<S, M>, out: &mut Vec<String>)
    ensures
        forall|x: Seq<char>| #[trigger] text_in(final(out)@, x) <==> (text_in(old(out)@, x)
            || entries_show(skin.slots@, skin.slots@.len() as int, x)),
{
    let ghost start = out@;
    let mut e: usize = 0;
    while e < skin.slots.len()
        invariant
            e <= skin.slots@.len(),
            forall|x: Seq<char>| #[trigger] text_in(out@, x) <==> (text_in(start, x) || entries_show(skin.slots@, e as int, x)),
        decreases skin.slots@.len() - e,
    {
        let items = &skin.slots[e].1;
        let ghost before = out@;
        let mut q: usize = 0;
        while q < items.len()
            invariant
                e < skin.slots@.len(),
                items == &skin.slots@[e as int].1,
                q <= items@.len(),
                forall|x: Seq<char>| #[trigger] text_in(out@, x) <==> (text_in(before, x) || items_show(items@, q as int, x)),
            decreases items@.len() - q,
        {
            let name = match items[q].1.name() {
                Some(n) => n.clone(),
                None => items[q].0.clone(),
            };
            assert(name@ == shown_name(items@[q as int]));
            let ghost prev = out@;
            out.push(name);
            proof {
                assert forall|x: Seq<char>| #[trigger] text_in(out@, x) <==> (text_in(before, x) || items_show(items@, q as int + 1, x)) by {
                    if text_in(out@, x) {
                        let a = choose|a: int| 0 <= a < out@.len() && #[trigger] out@[a]@ == x;
                        if a < prev.len() {
                            assert(prev[a] == out@[a]);
                            assert(text_in(prev, x));
                            if items_show(items@, q as int, x) {
                                let c = choose|c: int| 0 <= c < q && c < items@.len() && #[trigger] shown_name(items@[c]) == x;
                                assert(items_show(items@, q as int + 1, x));
                            }
                        } else {
                            assert(shown_name(items@[q as int]) == x);
                        }
                    }
                    if text_in(before, x) || items_show(items@, q as int, x) {
                        assert(text_in(prev, x));
                        let a = choose|a: int| 0 <= a < prev.len() && #[trigger] prev[a]@ == x;
                        assert(out@[a] == prev[a]);
                    }
                    if items_show(items@, q as int + 1, x) && !items_show(items@, q as int, x) {
                        let c = choose|c: int| 0 <= c < q + 1 && c < items@.len() && #[trigger] shown_name(items@[c]) == x;
                        assert(c == q);
                        assert(out@[prev.len() as int] == name);
                    }
                }
            }
            q = q + 1;
        }
        proof {
            assert forall|x: Seq<char>| #[trigger] text_in(out@, x) <==> (text_in(start, x) || entries_show(skin.slots@, e as int + 1, x)) by {
                if entries_show(skin.slots@, e as int + 1, x) && !entries_show(skin.slots@, e as int, x) {
                    let c = choose|c: int| 0 <= c < e + 1 && c < skin.slots@.len() && #[trigger] items_show(skin.slots@[c].1@, skin.slots@[c].1@.len() as int, x);
                    assert(c == e);
                }
                if entries_show(skin.slots@, e as int, x) {
                    let c = choose|c: int| 0 <= c < e && c < skin.slots@.len() && #[trigger] items_show(skin.slots@[c].1@, skin.slots@[c].1@.len() as int, x);
                    assert(entries_show(skin.slots@, e as int + 1, x));
                }
                if items_show(items@, items@.len() as int, x) {
                    assert(entries_show(skin.slots@, e as int + 1, x));
                }
            }
        }
        e = e + 1;
    }
}

proof fn lemma_keys_unique<S, M, T, C>(doc: Document<S, M, T, C>, sk: Skeleton<S, M, T, C>)
    requires
        document_keys_unique(doc),
        slot_names(sk.slots@) == setup_slot_names(doc.slots@),
        sk.skins@.len() == doc.skins@.len(),
        forall|k: int| 0 <= k < sk.skins@.len() ==> #[trigger] sk.skins@[k].0 == doc.skins@[k].0,
        sk.animations@.len() == doc.animations@.len(),
        forall|k: int| 0 <= k < sk.animations@.len() ==> #[trigger] sk.animations@[k].0 == doc.animations@[k].0,
        forall|k: int| 0 <= k < sk.skins@.len() ==> entries_built(doc.skins@[k].1@,
            setup_slot_names(doc.slots@), (#[trigger] sk.skins@[k]).1.slots@),
    ensures
        sk.keys_unique(),
{
    let sn = setup_slot_names(doc.slots@);
    assert(entry_names(sk.skins@) =~= entry_names(doc.skins@)) by {
        assert forall|k: int| 0 <= k < sk.skins@.len() implies entry_names(sk.skins@)[k] == entry_names(doc.skins@)[k] by {
            assert(sk.skins@[k].0 == doc.skins@[k].0);
        }
    }
    assert(entry_names(sk.animations@) =~= entry_names(doc.animations@)) by {
        assert forall|k: int| 0 <= k < sk.animations@.len() implies entry_names(sk.animations@)[k] == entry_names(doc.animations@)[k] by {
            assert(sk.animations@[k].0 == doc.animations@[k].0);
        }
    }
    assert forall|k: int, a: int, b: int| 0 <= k < sk.skins@.len() && 0 <= a < b < sk.skins@[k].1.slots@.len()
        implies #[trigger] sk.skins@[k].1.slots@[a].0 != #[trigger] sk.skins@[k].1.slots@[b].0 by {
        let decl = doc.skins@[k].1@;
        let es = sk.skins@[k].1.slots@;
        assert(entries_built(decl, sn, es));
        assert(first_named(sn, decl[a].0@) == Some(es[a].0 as int));
        assert(first_named(sn, decl[b].0@) == Some(es[b].0 as int));
        crate::util::lemma_first_named_in_range(sn, decl[a].0@);
        crate::util::lemma_first_named_in_range(sn, decl[b].0@);
        assert(entry_names(decl)[a] == decl[a].0@);
        assert(entry_names(decl)[b] == decl[b].0@);
        assert(distinct(entry_names(decl)));
    }
    assert forall|k: int, e: int| 0 <= k < sk.skins@.len() && 0 <= e < sk.skins@[k].1.slots@.len()
        implies distinct(entry_names((#[trigger] sk.skins@[k].1.slots@[e]).1@)) by {
        let decl = doc.skins@[k].1@;
        assert(entries_built(decl, sn, sk.skins@[k].1.slots@));
        assert(sk.skins@[k].1.slots@[e].1 == decl[e].1);
        assert(distinct(entry_names(doc.skins@[k].1@[e].1@)));
    }
}

impl<S, M, T, C> Skeleton<S, M, T, C> {
    /// Every index refers to an existing bone or slot, and parents come first.
    pub open spec fn well_formed(&self) -> bool {
        &&& bones_well_formed(self.bones@)
        &&& forall|i: int| 0 <= i < self.slots@.len() ==> #[trigger] self.slots@[i].bone_index < self.bones@.len()
        &&& forall|k: int, e: int| 0 <= k < self.skins@.len() && 0 <= e < self.skins@[k].1.slots@.len()
            ==> #[trigger] self.skins@[k].1.slots@[e].0 < self.slots@.len()
        &&& forall|k: int| 0 <= k < self.animations@.len()
            ==> (#[trigger] self.animations@[k]).1.fits(self.bones@.len() as nat, self.slots@.len() as nat)
        &&& self.keys_unique()
    }

    /// Skin and animation names are unique, a skin dresses each slot at most
    /// once, and names each attachment of a slot at most once.
    pub open spec fn keys_unique(&self) -> bool {
        &&& distinct(entry_names(self.skins@))
        &&& distinct(entry_names(self.animations@))
        &&& forall|k: int, a: int, b: int| 0 <= k < self.skins@.len() && 0 <= a < b < self.skins@[k].1.slots@.len()
            ==> #[trigger] self.skins@[k].1.slots@[a].0 != #[trigger] self.skins@[k].1.slots@[b].0
        &&& forall|k: int, e: int| 0 <= k < self.skins@.len() && 0 <= e < self.skins@[k].1.slots@.len()
            ==> distinct(entry_names((#[trigger] self.skins@[k].1.slots@[e]).1@))
    }

    /// Builds the skeleton, resolving every name reference to an index.
    #[verifier::rlimit(80)]
    pub fn from_json(doc: Document<S, M, T, C>) -> (r: Result<Self, SkeletonError>)
        requires
            document_keys_unique(doc),
        ensures
            r is Ok <==> document_resolves(doc),
            match r {
                Ok(sk) => {
                    &&& sk.well_formed()
                    &&& bone_names(sk.bones@) == setup_bone_names(doc.bones@)
                    &&& slot_names(sk.slots@) == setup_slot_names(doc.slots@)
                    &&& forall|i: int| 0 <= i < sk.bones@.len() ==> bone_built(doc.bones@[i],
                        setup_bone_names(doc.bones@).take(i), #[trigger] sk.bones@[i])
                    &&& forall|i: int| 0 <= i < sk.slots@.len() ==> slot_built(doc.slots@[i],
                        setup_bone_names(doc.bones@), #[trigger] sk.slots@[i])
                    &&& forall|k: int| 0 <= k < sk.skins@.len() ==> entries_built(doc.skins@[k].1@,
                        setup_slot_names(doc.slots@), (#[trigger] sk.skins@[k]).1.slots@)
                    &&& forall|k: int| 0 <= k < sk.animations@.len() ==> animation_built(doc.animations@[k].1,
                        sk.bones@, sk.slots@, #[trigger] sk.animations@[k].1)
                    &&& sk.skins@.len() == doc.skins@.len()
                    &&& forall|k: int| 0 <= k < sk.skins@.len() ==> #[trigger] sk.skins@[k].0 == doc.skins@[k].0
                    &&& sk.animations@.len() == doc.animations@.len()
                    &&& forall|k: int| 0 <= k < sk.animations@.len() ==> #[trigger] sk.animations@[k].0 == doc.animations@[k].0
                },
                Err(e) => document_error(doc, e),
            },
    {
        let ghost d = doc;
        let Document { bones: jbones, slots: jslots, skins: jskins, animations: janimations } = doc;
        let ghost bn = setup_bone_names(d.bones@);
        let ghost sn = setup_slot_names(d.slots@);

        // bones
        let mut bones: Vec<Bone<S>> = Vec::new();
        let mut rest = jbones;
        let n: usize = rest.len();
        let mut i: usize = 0;
        while rest.len() > 0
            invariant
                d == doc,
                bn == setup_bone_names(d.bones@),
                n == d.bones@.len(),
                i + rest@.len() == n,
                rest@ == d.bones@.skip(i as int),
                bones@.len() == i,
                bone_names(bones@) == bn.take(i as int),
                bones_well_formed(bones@),
                forall|j: int| 0 <= j < i ==> bone_built(d.bones@[j], bn.take(j), #[trigger] bones@[j]),
                forall|j: int| 0 <= j < i ==> #[trigger] parent_declared_before(d.bones@, j),
            decreases rest@.len(),
        {
            let setup = rest.remove(0);
            assert(setup == d.bones@[i as int]);
            let ghost prev = bones@;
            match Bone::from_json(setup, bones.as_slice()) {
                Ok(b) => {
                    bones.push(b);
                    proof {
                        assert(bone_names(bones@) =~= bn.take(i as int + 1));
                        assert forall|j: int| 0 <= j < i + 1 implies bone_built(d.bones@[j], bn.take(j), #[trigger] bones@[j]) by {
                            if j < i {
                                assert(bones@[j] == prev[j]);
                            }
                        }
                        assert(parent_declared_before(d.bones@, i as int)) by {
                            if let Some(p) = d.bones@[i as int].parent {
                                let k = b.parent_index.unwrap();
                                assert(bone_names(prev)[k as int] == p@);
                            }
                        }
                        assert forall|j: int| 0 <= j < bones@.len() implies match #[trigger] bones@[j].parent_index {
                            Some(p) => p < j,
                            None => true,
                        } by {
                            if j < prev.len() {
                                assert(bones@[j] == prev[j]);
                            }
                        }
                    }
                },
                Err(e) => {
                    proof {
                        assert(!parent_declared_before(d.bones@, i as int)) by {
                            let p = d.bones@[i as int].parent.unwrap();
                            assert(forall|j: int| 0 <= j < prev.len() ==> #[trigger] prev[j].name@ != p@);
                            assert(!exists|j: int| 0 <= j < bn.take(i as int).len() && bn.take(i as int)[j] == p@) by {
                                assert forall|j: int| 0 <= j < bn.take(i as int).len() implies bn.take(i as int)[j] != p@ by {
                                    assert(bone_names(prev)[j] == prev[j].name@);
                                }
                            }
                        }
                        reveal(orphan_flags);
                        let flags = orphan_flags(d.bones@);
                        assert forall|j: int| 0 <= j < i implies #[trigger] flags[j] by {}
                        lemma_first_false_at(flags, 0, i as int);
                    }
                    proof {
                        reveal(document_error);
                    }
                    return Err(e);
                },
            }
            i = i + 1;
        }
        proof {
            assert(bn.take(n as int) =~= bn);
            reveal(orphan_flags);
                        let flags = orphan_flags(d.bones@);
            lemma_first_false_none(flags, 0);
            assert forall|j: int| 0 <= j < flags.len() implies #[trigger] flags[j] by {}
        }

        // slots
        let mut slots: Vec<Slot> = Vec::new();
        let mut rest = jslots;
        let n: usize = rest.len();
        let mut i: usize = 0;
        while rest.len() > 0
            invariant
                d == doc,
                bn == setup_bone_names(d.bones@),
                sn == setup_slot_names(d.slots@),
                bone_names(bones@) == bn,
                n == d.slots@.len(),
                i + rest@.len() == n,
                rest@ == d.slots@.skip(i as int),
                slots@.len() == i,
                slot_names(slots@) == sn.take(i as int),
                forall|j: int| 0 <= j < i ==> #[trigger] slots@[j].bone_index < bones@.len(),
                forall|j: int| 0 <= j < i ==> slot_resolves(d.bones@, #[trigger] d.slots@[j]),
                forall|j: int| 0 <= j < i ==> slot_built(d.slots@[j], bn, #[trigger] slots@[j]),
                first_false(orphan_flags(d.bones@), 0) is None,
            decreases rest@.len(),
        {
            let js = rest.remove(0);
            assert(js == d.slots@[i as int]);
            let ghost prev = slots@;
            match Slot::from_json(js, bones.as_slice()) {
                Ok(s) => {
                    slots.push(s);
                    proof {
                        assert(slot_names(slots@) =~= sn.take(i as int + 1));
                        assert(bone_names(bones@)[s.bone_index as int] == js.bone@);
                        assert(slot_resolves(d.bones@, d.slots@[i as int]));
                        assert forall|j: int| 0 <= j < i + 1 implies #[trigger] slots@[j].bone_index < bones@.len()
                            && slot_built(d.slots@[j], bn, slots@[j]) by {
                            if j < i {
                                assert(slots@[j] == prev[j]);
                            }
                        }
                    }
                },
                Err(e) => {
                    proof {
                        assert(!slot_resolves(d.bones@, d.slots@[i as int])) by {
                            if !slot_color_invalid(js) {
                                assert forall|j: int| 0 <= j < bn.len() implies bn[j] != js.bone@ by {
                                    assert(bone_names(bones@)[j] == bones@[j].name@);
                                }
                            }
                        }
                        reveal(slot_flags);
                        let flags = slot_flags(d.bones@, d.slots@);
                        assert forall|j: int| 0 <= j < i implies #[trigger] flags[j] by {}
                        lemma_first_false_at(flags, 0, i as int);
                        if first_named(bn, js.bone@) is None {
                            assert forall|j: int| 0 <= j < bones@.len() implies #[trigger] bones@[j].name@ != js.bone@ by {
                                assert(bone_names(bones@)[j] == bones@[j].name@);
                            }
                        } else {
                            crate::util::lemma_first_named_in_range(bn, js.bone@);
                            let q = first_named(bn, js.bone@).unwrap();
                            assert(bone_names(bones@)[q] == bones@[q].name@);
                        }
                    }
                    proof {
                        reveal(document_error);
                    }
                    return Err(e);
                },
            }
            i = i + 1;
        }
        proof {
            assert(sn.take(n as int) =~= sn);
            reveal(slot_flags);
                        let flags = slot_flags(d.bones@, d.slots@);
            lemma_first_false_none(flags, 0);
            assert forall|j: int| 0 <= j < flags.len() implies #[trigger] flags[j] by {}
        }

        // animations
        let mut animations: Vec<(String, Animation<T, C>)> = Vec::new();
        let mut rest = janimations;
        let n: usize = rest.len();
        let mut i: usize = 0;
        while rest.len() > 0
            invariant
                d == doc,
                bn == setup_bone_names(d.bones@),
                sn == setup_slot_names(d.slots@),
                bone_names(bones@) == bn,
                slot_names(slots@) == sn,
                n == d.animations@.len(),
                i + rest@.len() == n,
                rest@ == d.animations@.skip(i as int),
                animations@.len() == i,
                forall|j: int| 0 <= j < i ==> #[trigger] animations@[j].0 == d.animations@[j].0,
                forall|j: int| 0 <= j < i ==> (#[trigger] animations@[j]).1.fits(bones@.len() as nat, slots@.len() as nat),
                forall|j: int| 0 <= j < i ==> animation_resolves(#[trigger] d.animations@[j].1, bn, sn),
                first_false(orphan_flags(d.bones@), 0) is None,
                first_false(slot_flags(d.bones@, d.slots@), 0) is None,
                forall|j: int| 0 <= j < i ==> animation_built(d.animations@[j].1, bones@, slots@, (#[trigger] animations@[j]).1),
            decreases rest@.len(),
        {
            let (name, ja) = rest.remove(0);
            assert((name, ja) == d.animations@[i as int]);
            let ghost prev = animations@;
            match Animation::from_json(ja, bones.as_slice(), slots.as_slice()) {
                Ok(a) => {
                    animations.push((name, a));
                    proof {
                        assert forall|j: int| 0 <= j < i + 1 implies #[trigger] animations@[j].0 == d.animations@[j].0
                            && animations@[j].1.fits(bones@.len() as nat, slots@.len() as nat)
                            && animation_built(d.animations@[j].1, bones@, slots@, animations@[j].1) by {
                            if j < i {
                                assert(animations@[j] == prev[j]);
                            }
                        }
                    }
                },
                Err(e) => {
                    proof {
                        reveal(animation_flags);
                        let flags = animation_flags(d);
                        assert forall|j: int| 0 <= j < i implies #[trigger] flags[j] by {}
                        lemma_first_false_at(flags, 0, i as int);
                    }
                    proof {
                        reveal(document_error);
                    }
                    return Err(e);
                },
            }
            i = i + 1;
        }
        proof {
            reveal(animation_flags);
                        let flags = animation_flags(d);
            lemma_first_false_none(flags, 0);
            assert forall|j: int| 0 <= j < flags.len() implies #[trigger] flags[j] by {}
        }

        // skins
        let mut skins: Vec<(String, Skin<S, M>)> = Vec::new();
        let mut rest = jskins;
        let n: usize = rest.len();
        let mut i: usize = 0;
        while rest.len() > 0
            invariant
                d == doc,
                sn == setup_slot_names(d.slots@),
                slot_names(slots@) == sn,
                n == d.skins@.len(),
                i + rest@.len() == n,
                rest@ == d.skins@.skip(i as int),
                skins@.len() == i,
                forall|j: int| 0 <= j < i ==> #[trigger] skins@[j].0 == d.skins@[j].0,
                forall|j: int, e: int| 0 <= j < i && 0 <= e < skins@[j].1.slots@.len()
                    ==> #[trigger] skins@[j].1.slots@[e].0 < slots@.len(),
                forall|j: int| 0 <= j < i ==> skin_resolves(d.slots@, (#[trigger] d.skins@[j]).1@),
                forall|j: int| 0 <= j < i ==> entries_built(d.skins@[j].1@, sn, (#[trigger] skins@[j]).1.slots@),
                first_false(orphan_flags(d.bones@), 0) is None,
                first_false(slot_flags(d.bones@, d.slots@), 0) is None,
                first_false(animation_flags(d), 0) is None,
            decreases rest@.len(),
        {
            let (name, jskin) = rest.remove(0);
            assert((name, jskin) == d.skins@[i as int]);
            let ghost js = jskin@;
            let entries = match resolve_skin(jskin, slots.as_slice()) {
                Ok(v) => v,
                Err(e) => {
                    proof {
                        reveal(skin_flags);
                        let flags = skin_flags(d);
                        assert forall|j: int| 0 <= j < i implies #[trigger] flags[j] by {}
                        lemma_first_false_at(flags, 0, i as int);
                    }
                    proof {
                        reveal(document_error);
                    }
                    return Err(e);
                },
            };
            let ghost ev = entries@;
            let ghost prev = skins@;
            skins.push((name, Skin { slots: entries }));
            proof {
                assert forall|j: int| 0 <= j < i + 1 implies #[trigger] skins@[j].0 == d.skins@[j].0 by {
                    if j < i {
                        assert(skins@[j] == prev[j]);
                    }
                }
                assert forall|j: int, e: int| 0 <= j < i + 1 && 0 <= e < skins@[j].1.slots@.len()
                    implies #[trigger] skins@[j].1.slots@[e].0 < slots@.len() by {
                    if j < i {
                        assert(skins@[j] == prev[j]);
                    }
                }
                assert(skin_resolves(d.slots@, d.skins@[i as int].1@));
                assert forall|j: int| 0 <= j < i + 1 implies entries_built(d.skins@[j].1@, sn, (#[trigger] skins@[j]).1.slots@) by {
                    if j < i {
                        assert(skins@[j] == prev[j]);
                    } else {
                        assert(skins@[j].1.slots@ == ev);
                        assert(d.skins@[j].1@ == js);
                    }
                }
                assert forall|j: int| 0 <= j < i + 1 implies skin_resolves(d.slots@, (#[trigger] d.skins@[j]).1@) by {
                }
            }
            i = i + 1;
        }
        let sk = Skeleton { bones, slots, skins, animations };
        proof {
            lemma_keys_unique(d, sk);
        }
        Ok(sk)
    }
}

impl<S, M, T, C> Skeleton<S, M, T, C> {
    /// Index of the skin called `name`.
    pub fn skin_position(&self, name: &str) -> (r: Result<usize, SkeletonError>)
        ensures
            match first_named(entry_names(self.skins@), name@) {
                Some(i) => r matches Ok(k) && k == i,
                None => r matches Err(SkeletonError::SkinNotFound(n)) && n@ == name@,
            },
            r matches Ok(i) ==> i < self.skins@.len(),
    {
        match position_by_name(&self.skins, name) {
            Some(i) => Ok(i),
            None => Err(SkeletonError::SkinNotFound(name.to_owned())),
        }
    }

    /// Index of the animation called `name`.
    pub fn animation_position(&self, name: &str) -> (r: Result<usize, SkeletonError>)
        ensures
            match first_named(entry_names(self.animations@), name@) {
                Some(i) => r matches Ok(k) && k == i,
                None => r matches Err(SkeletonError::AnimationNotFound(n)) && n@ == name@,
            },
            r matches Ok(i) ==> i < self.animations@.len(),
    {
        match position_by_name(&self.animations, name) {
            Some(i) => Ok(i),
            None => Err(SkeletonError::AnimationNotFound(name.to_owned())),
        }
    }

    /// The skin called `name`.
    pub fn get_skin(&self, name: &str) -> (r: Result<&Skin<S, M>, SkeletonError>)
        ensures
            match first_named(entry_names(self.skins@), name@) {
                Some(i) => r matches Ok(s) && *s == self.skins@[i].1,
                None => r matches Err(SkeletonError::SkinNotFound(n)) && n@ == name@,
            },
    {
        proof {
            crate::util::lemma_first_named_in_range(entry_names(self.skins@), name@);
        }
        match self.skin_position(name) {
            Ok(i) => Ok(&self.skins[i].1),
            Err(e) => Err(e),
        }
    }

    /// Names of all skins.
    pub fn get_skins_names(&self) -> (r: Vec<String>)
        ensures
            texts(r@) == entry_names(self.skins@),
    {
        names_of(&self.skins)
    }

    /// Names of all animations.
    pub fn get_animations_names(&self) -> (r: Vec<String>)
        ensures
            texts(r@) == entry_names(self.animations@),
    {
        names_of(&self.animations)
    }

    /// The name of every attachment of every skin, each once, sorted; meant
    /// for preloading.
    pub fn get_attachments_names(&self) -> (r: Vec<String>)
        ensures
            forall|i: int, j: int| 0 <= i < j < r@.len() ==> #[trigger] r@[i]@ != #[trigger] r@[j]@,
            forall|x: Seq<char>| #[trigger] text_in(r@, x) <==> skins_show(self.skins@, self.skins@.len() as int, x),
            crate::util::texts_ascending(r@),
    {
        let mut all: Vec<String> = Vec::new();
        let mut k: usize = 0;
        while k < self.skins.len()
            invariant
                k <= self.skins@.len(),
                forall|x: Seq<char>| #[trigger] text_in(all@, x) <==> skins_show(self.skins@, k as int, x),
            decreases self.skins@.len() - k,
        {
            collect_shown(&self.skins[k].1, &mut all);
            proof {
                let sk = self.skins@;
                assert forall|x: Seq<char>| #[trigger] text_in(all@, x) <==> skins_show(sk, k as int + 1, x) by {
                    if skins_show(sk, k as int + 1, x) && !skins_show(sk, k as int, x) {
                        let c = choose|c: int| 0 <= c < k + 1 && c < sk.len() && #[trigger] entries_show(sk[c].1.slots@, sk[c].1.slots@.len() as int, x);
                        assert(c == k);
                    }
                    if skins_show(sk, k as int, x) {
                        let c = choose|c: int| 0 <= c < k && c < sk.len() && #[trigger] entries_show(sk[c].1.slots@, sk[c].1.slots@.len() as int, x);
                        assert(skins_show(sk, k as int + 1, x));
                    }
                    if entries_show(sk[k as int].1.slots@, sk[k as int].1.slots@.len() as int, x) {
                        assert(skins_show(sk, k as int + 1, x));
                    }
                }
            }
            k = k + 1;
        }
        sorted_unique(all)
    }
}

} // verus!
