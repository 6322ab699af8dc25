//! A summary of a skeleton document: the names it declares, for preloading.
use vstd::prelude::*;
use crate::util::{same_text, sorted_unique, text_in, texts};

verus! {

/// The names a skeleton document declares: its animations, and for each skin
/// the attachment names of each slot.
pub struct SpineDocument {
    animations: Vec<String>,
    skins: Vec<(String, Vec<(String, Vec<String>)>)>,
}

/// Some attachment of some slot of some skin of `skins` is called `x`.
pub open spec fn sprite_named(skins: Seq<(String, Vec<(String, Vec<String>)>)>, x: Seq<char>) -> bool {
    exists|k: int, e: int| 0 <= k < skins.len() && 0 <= e < skins[k].1@.len()
        && #[trigger] text_in(skins[k].1@[e].1@, x)
}

impl SpineDocument {
    /// Animation names, in the order given.
    pub closed spec fn spec_animations(&self) -> Seq<Seq<char>> {
        texts(self.animations@)
    }

    /// Skins with their slots and attachment names, in the order given.
    pub closed spec fn spec_skins(&self) -> Seq<(String, Vec<(String, Vec<String>)>)> {
        self.skins@
    }

    /// Summarises a document from its animation names and, per skin, the
    /// attachment names of each slot.
    pub fn new(animations: Vec<String>, skins: Vec<(String, Vec<(String, Vec<String>)>)>) -> (r: SpineDocument)
        ensures
            r.spec_animations() == texts(animations@),
            r.spec_skins() == skins@,
    {
        SpineDocument { animations, skins }
    }

    /// Returns the list of all animations in this document.
    pub fn get_animations_list(&self) -> (r: Vec<String>)
        ensures
            texts(r@) == self.spec_animations(),
    {
        let mut out: Vec<String> = Vec::new();
        let mut i: usize = 0;
        while i < self.animations.len()
            invariant
                i <= self.animations@.len(),
                out@.len() == i,
                texts(out@) == texts(self.animations@).take(i as int),
            decreases self.animations@.len() - i,
        {
            let ghost prev = out@;
            out.push(self.animations[i].clone());
            proof {
                assert forall|j: int| 0 <= j < i + 1 implies #[trigger] texts(out@)[j] == texts(self.animations@).take(i as int + 1)[j] by {
                    if j < i {
                        assert(texts(prev)[j] == texts(self.animations@).take(i as int)[j]);
                    }
                }
                assert(texts(out@) =~= texts(self.animations@).take(i as int + 1));
            }
            i = i + 1;
        }
        assert(texts(self.animations@).take(i as int) =~= texts(self.animations@));
        out
    }

    /// Returns the list of all skins in this document.
    pub fn get_skins_list(&self) -> (r: Vec<String>)
        ensures
            texts(r@) == self.spec_skins().map_values(|s: (String, Vec<(String, Vec<String>)>)| s.0@),
    {
        crate::util::names_of(&self.skins)
    }

    /// Returns true if an animation is in the document.
    pub fn has_animation(&self, name: &str) -> (r: bool)
        ensures
            r == self.spec_animations().contains(name@),
    {
        let mut i: usize = 0;
        while i < self.animations.len()
            invariant
                i <= self.animations@.len(),
                forall|j: int| 0 <= j < i ==> #[trigger] texts(self.animations@)[j] != name@,
            decreases self.animations@.len() - i,
        {
            if same_text(self.animations[i].as_str(), name) {
                assert(texts(self.animations@)[i as int] == name@);
                return true;
            }
            i = i + 1;
        }
        false
    }

    /// Returns true if a skin is in the document.
    pub fn has_skin(&self, name: &str) -> (r: bool)
        ensures
            r == self.spec_skins().map_values(|s: (String, Vec<(String, Vec<String>)>)| s.0@).contains(name@),
    {
        let ghost names = self.skins@.map_values(|s: (String, Vec<(String, Vec<String>)>)| s.0@);
        let mut i: usize = 0;
        while i < self.skins.len()
            invariant
                names == self.skins@.map_values(|s: (String, Vec<(String, Vec<String>)>)| s.0@),
                i <= self.skins@.len(),
                forall|j: int| 0 <= j < i ==> #[trigger] names[j] != name@,
            decreases self.skins@.len() - i,
        {
            if same_text(self.skins[i].0.as_str(), name) {
                assert(names[i as int] == name@);
                return true;
            }
            i = i + 1;
        }
        false
    }

    /// Returns every attachment name of every skin, each once, sorted; meant
    /// for preloading.
    pub fn get_possible_sprites(&self) -> (r: Vec<String>)
        ensures
            forall|i: int, j: int| 0 <= i < j < r@.len() ==> #[trigger] r@[i]@ != #[trigger] r@[j]@,
            forall|x: Seq<char>| #[trigger] text_in(r@, x) <==> sprite_named(self.spec_skins(), x),
            crate::util::texts_ascending(r@),
    {
        let mut all: Vec<String> = Vec::new();
        let mut k: usize = 0;
        while k < self.skins.len()
            invariant
                k <= self.skins@.len(),
                forall|x: Seq<char>| #[trigger] text_in(all@, x) <==> sprite_named(self.skins@.take(k as int), x),
            decreases self.skins@.len() - k,
        {
            let slots = &self.skins[k].1;
            let ghost before = all@;
            let mut e: usize = 0;
            while e < slots.len()
                invariant
                    k < self.skins@.len(),
                    slots == &self.skins@[k as int].1,
                    e <= slots@.len(),
                    forall|x: Seq<char>| #[trigger] text_in(all@, x) <==> (text_in(before, x)
                        || exists|e2: int| 0 <= e2 < e && #[trigger] text_in(slots@[e2].1@, x)),
                decreases slots@.len() - e,
            {
                let names = &slots[e].1;
                let ghost mid = all@;
                let mut q: usize = 0;
                while q < names.len()
                    invariant
                        e < slots@.len(),
                        names == &slots@[e as int].1,
                        q <= names@.len(),
                        forall|x: Seq<char>| #[trigger] text_in(all@, x) <==> (text_in(mid, x) || text_in(names@.take(q as int), x)),
                    decreases names@.len() - q,
                {
                    let ghost prev = all@;
                    let c = names[q].clone();
                    all.push(c);
                    proof {
                        assert forall|x: Seq<char>| #[trigger] text_in(all@, x) <==> (text_in(mid, x) || text_in(names@.take(q as int + 1), x)) by {
                            let t0 = names@.take(q as int);
                            let t1 = names@.take(q as int + 1);
                            if text_in(all@, x) {
                                let a = choose|a: int| 0 <= a < all@.len() && #[trigger] all@[a]@ == x;
                                if a < prev.len() {
                                    assert(prev[a] == all@[a]);
                                    assert(text_in(prev, x));
                                    if text_in(t0, x) {
                                        let b = choose|b: int| 0 <= b < t0.len() && #[trigger] t0[b]@ == x;
                                        assert(t1[b] == t0[b]);
                                    }
                                } else {
                                    assert(t1[q as int] == c);
                                }
                            }
                            if text_in(mid, x) || text_in(t0, x) {
                                assert(text_in(prev, x));
                                let a = choose|a: int| 0 <= a < prev.len() && #[trigger] prev[a]@ == x;
                                assert(all@[a] == prev[a]);
                            }
                            if text_in(t1, x) {
                                let b = choose|b: int| 0 <= b < t1.len() && #[trigger] t1[b]@ == x;
                                if b < q {
                                    assert(t0[b] == t1[b]);
                                    assert(text_in(prev, x));
                                    let a = choose|a: int| 0 <= a < prev.len() && #[trigger] prev[a]@ == x;
                                    assert(all@[a] == prev[a]);
                                } else {
                                    assert(all@[prev.len() as int] == c);
                                }
                            }
                        }
                    }
                    q = q + 1;
                }
                proof {
                    assert(names@.take(q as int) =~= names@);
                    assert forall|x: Seq<char>| #[trigger] text_in(all@, x) <==> (text_in(before, x)
                        || exists|e2: int| 0 <= e2 < e + 1 && #[trigger] text_in(slots@[e2].1@, x)) by {
                        if exists|e2: int| 0 <= e2 < e + 1 && #[trigger] text_in(slots@[e2].1@, x) {
                            let e2 = choose|e2: int| 0 <= e2 < e + 1 && #[trigger] text_in(slots@[e2].1@, x);
                            if e2 < e {
                                assert(text_in(mid, x));
                            }
                        }
                        if text_in(names@, x) {
                            assert(text_in(slots@[e as int].1@, x));
                        }
                    }
                }
                e = e + 1;
            }
            proof {
                let sk = self.skins@;
                let t0 = sk.take(k as int);
                let t1 = sk.take(k as int + 1);
                assert forall|x: Seq<char>| #[trigger] text_in(all@, x) <==> sprite_named(t1, x) by {
                    if sprite_named(t1, x) {
                        let (a, b) = choose|a: int, b: int| 0 <= a < t1.len() && 0 <= b < t1[a].1@.len()
                            && #[trigger] text_in(t1[a].1@[b].1@, x);
                        if a < k {
                            assert(t0[a] == t1[a]);
                            assert(sprite_named(t0, x));
                        } else {
                            assert(text_in(slots@[b].1@, x));
                        }
                    }
                    if sprite_named(t0, x) {
                        let (a, b) = choose|a: int, b: int| 0 <= a < t0.len() && 0 <= b < t0[a].1@.len()
                            && #[trigger] text_in(t0[a].1@[b].1@, x);
                        assert(t1[a] == t0[a]);
                    }
                    if exists|e2: int| 0 <= e2 < slots@.len() && #[trigger] text_in(slots@[e2].1@, x) {
                        let e2 = choose|e2: int| 0 <= e2 < slots@.len() && #[trigger] text_in(slots@[e2].1@, x);
                        assert(t1[k as int] == sk[k as int]);
                        assert(text_in(t1[k as int].1@[e2].1@, x));
                    }
                }
            }
            k = k + 1;
        }
        assert(self.skins@.take(k as int) =~= self.skins@);
        sorted_unique(all)
    }
}

} // verus!
