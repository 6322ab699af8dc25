use vstd::prelude::*;
use crate::bone::Bone;
use crate::error::SkeletonError;
use crate::slot::Slot;

verus! {

/// Compares two strings character by character.
pub fn same_text(a: &str, b: &str) -> (r: bool)
    ensures
        r == (a@ == b@),
{
    let x = a.to_owned();
    let y = b.to_owned();
    x == y
}

/// Finds the index of the first bone called `name`.
pub fn bone_index<S>(name: &str, bones: &[Bone<S>]) -> (r: Result<usize, SkeletonError>)
    ensures
        match r {
            Ok(i) => i < bones@.len() && bones@[i as int].name@ == name@
                && forall|j: int| 0 <= j < i ==> #[trigger] bones@[j].name@ != name@,
            Err(e) => {
                &&& forall|j: int| 0 <= j < bones@.len() ==> #[trigger] bones@[j].name@ != name@
                &&& e matches SkeletonError::BoneNotFound(n) && n@ == name@
            },
        },
        match first_named(bone_names(bones@), name@) {
            Some(i) => r matches Ok(k) && k == i,
            None => r is Err,
        },
{
    let key = name.to_owned();
    let mut i: usize = 0;
    while i < bones.len()
        invariant
            i <= bones@.len(),
            key@ == name@,
            forall|j: int| 0 <= j < i ==> #[trigger] bones@[j].name@ != name@,
        decreases bones@.len() - i,
    {
        if bones[i].name == key {
            proof {
                lemma_first_named(bone_names(bones@), name@, i as int);
            }
            return Ok(i);
        }
        i = i + 1;
    }
    proof {
        assert(!exists|j: int| 0 <= j < bone_names(bones@).len() && bone_names(bones@)[j] == name@);
    }
    Err(SkeletonError::BoneNotFound(key))
}

/// Finds the index of the first slot called `name`.
pub fn slot_index(name: &str, slots: &[Slot]) -> (r: Result<usize, SkeletonError>)
    ensures
        match r {
            Ok(i) => i < slots@.len() && slots@[i as int].name@ == name@
                && forall|j: int| 0 <= j < i ==> #[trigger] slots@[j].name@ != name@,
            Err(e) => {
                &&& forall|j: int| 0 <= j < slots@.len() ==> #[trigger] slots@[j].name@ != name@
                &&& e matches SkeletonError::SlotNotFound(n) && n@ == name@
            },
        },
        match first_named(slot_names(slots@), name@) {
            Some(i) => r matches Ok(k) && k == i,
            None => r is Err,
        },
{
    let key = name.to_owned();
    let mut i: usize = 0;
    while i < slots.len()
        invariant
            i <= slots@.len(),
            key@ == name@,
            forall|j: int| 0 <= j < i ==> #[trigger] slots@[j].name@ != name@,
        decreases slots@.len() - i,
    {
        if slots[i].name == key {
            proof {
                lemma_first_named(slot_names(slots@), name@, i as int);
            }
            return Ok(i);
        }
        i = i + 1;
    }
    proof {
        assert(!exists|j: int| 0 <= j < slot_names(slots@).len() && slot_names(slots@)[j] == name@);
    }
    Err(SkeletonError::SlotNotFound(key))
}

} // verus!

verus! {

/// Index of the first of `names` equal to `name`, if any.
pub open spec fn first_named(names: Seq<Seq<char>>, name: Seq<char>) -> Option<int> {
    if exists|i: int| 0 <= i < names.len() && names[i] == name {
        Some(choose|i: int| 0 <= i < names.len() && names[i] == name
            && forall|j: int| 0 <= j < i ==> names[j] != name)
    } else {
        None
    }
}

/// The first index of a name is the one index that has it and has no equal
/// name before it.
pub proof fn lemma_first_named(names: Seq<Seq<char>>, name: Seq<char>, i: int)
    requires
        0 <= i < names.len(),
        names[i] == name,
        forall|j: int| 0 <= j < i ==> names[j] != name,
    ensures
        first_named(names, name) == Some(i),
{
    let k = choose|k: int| 0 <= k < names.len() && names[k] == name
        && forall|j: int| 0 <= j < k ==> names[j] != name;
    assert(0 <= k < names.len() && names[k] == name && forall|j: int| 0 <= j < k ==> names[j] != name);
    if k < i {
        assert(names[k] != name);
    }
    if i < k {
        assert(names[i] != name);
    }
}

/// A first index is in range and has the name.
pub proof fn lemma_first_named_in_range(names: Seq<Seq<char>>, name: Seq<char>)
    ensures
        first_named(names, name) matches Some(i) ==> 0 <= i < names.len() && names[i] == name,
{
    if exists|i: int| 0 <= i < names.len() && names[i] == name {
        let i = choose|i: int| 0 <= i < names.len() && names[i] == name;
        lemma_first_witness(names, name, i);
    }
}

proof fn lemma_first_witness(names: Seq<Seq<char>>, name: Seq<char>, i: int)
    requires
        0 <= i < names.len(),
        names[i] == name,
    ensures
        exists|k: int| 0 <= k < names.len() && names[k] == name && forall|j: int| 0 <= j < k ==> names[j] != name,
    decreases i,
{
    if exists|j: int| 0 <= j < i && names[j] == name {
        let j = choose|j: int| 0 <= j < i && names[j] == name;
        lemma_first_witness(names, name, j);
    } else {
        assert(forall|j: int| 0 <= j < i ==> names[j] != name);
    }
}

/// The names of a sequence of bones.
pub open spec fn bone_names<S>(bones: Seq<Bone<S>>) -> Seq<Seq<char>> {
    bones.map_values(|b: Bone<S>| b.name@)
}

/// The names of a sequence of slots.
pub open spec fn slot_names(slots: Seq<Slot>) -> Seq<Seq<char>> {
    slots.map_values(|s: Slot| s.name@)
}

} // verus!

verus! {

/// What each string of `s` reads.
pub open spec fn texts(s: Seq<String>) -> Seq<Seq<char>> {
    s.map_values(|t: String| t@)
}

/// The names of named entries.
pub open spec fn entry_names<X>(entries: Seq<(String, X)>) -> Seq<Seq<char>> {
    entries.map_values(|e: (String, X)| e.0@)
}

/// Position, at or after `from`, of the first of `keys` that is not among `names`.
pub open spec fn first_missing(names: Seq<Seq<char>>, keys: Seq<Seq<char>>, from: int) -> Option<int>
    decreases keys.len() - from,
{
    if from < 0 || from >= keys.len() {
        None
    } else if first_named(names, keys[from]) is None {
        Some(from)
    } else {
        first_missing(names, keys, from + 1)
    }
}

/// No key from `from` on is missing exactly when each of them is found.
pub proof fn lemma_first_missing_none(names: Seq<Seq<char>>, keys: Seq<Seq<char>>, from: int)
    requires
        0 <= from,
    ensures
        first_missing(names, keys, from) is None <==> forall|k: int| from <= k < keys.len() ==> first_named(names, #[trigger] keys[k]) is Some,
        first_missing(names, keys, from) matches Some(k) ==> from <= k < keys.len() && first_named(names, keys[k]) is None,
    decreases keys.len() - from,
{
    if from < keys.len() {
        lemma_first_missing_none(names, keys, from + 1);
    }
}

/// When the keys before `k` are found and key `k` is not, `k` is the first
/// missing key.
pub proof fn lemma_first_missing_at(names: Seq<Seq<char>>, keys: Seq<Seq<char>>, from: int, k: int)
    requires
        0 <= from <= k < keys.len(),
        forall|j: int| from <= j < k ==> first_named(names, #[trigger] keys[j]) is Some,
        first_named(names, keys[k]) is None,
    ensures
        first_missing(names, keys, from) == Some(k),
    decreases k - from,
{
    if from < k {
        lemma_first_missing_at(names, keys, from + 1, k);
    }
}

/// Position, at or after `from`, of the first `false` of `flags`.
pub open spec fn first_false(flags: Seq<bool>, from: int) -> Option<int>
    decreases flags.len() - from,
{
    if from < 0 || from >= flags.len() {
        None
    } else if !flags[from] {
        Some(from)
    } else {
        first_false(flags, from + 1)
    }
}

/// When the flags before `k` hold and flag `k` does not, `k` is the first false one.
pub proof fn lemma_first_false_at(flags: Seq<bool>, from: int, k: int)
    requires
        0 <= from <= k < flags.len(),
        forall|j: int| from <= j < k ==> #[trigger] flags[j],
        !flags[k],
    ensures
        first_false(flags, from) == Some(k),
    decreases k - from,
{
    if from < k {
        lemma_first_false_at(flags, from + 1, k);
    }
}

/// No flag is false from `from` on exactly when all of them hold.
pub proof fn lemma_first_false_none(flags: Seq<bool>, from: int)
    requires
        0 <= from,
    ensures
        first_false(flags, from) is None <==> forall|j: int| from <= j < flags.len() ==> #[trigger] flags[j],
    decreases flags.len() - from,
{
    if from < flags.len() {
        lemma_first_false_none(flags, from + 1);
    }
}

/// Position of the first entry called `name`.
pub fn position_by_name<X>(entries: &Vec<(String, X)>, name: &str) -> (r: Option<usize>)
    ensures
        match first_named(entry_names(entries@), name@) {
            Some(i) => r matches Some(k) && k == i,
            None => r is None,
        },
        r matches Some(i) ==> i < entries@.len(),
{
    let mut i: usize = 0;
    while i < entries.len()
        invariant
            i <= entries@.len(),
            forall|j: int| 0 <= j < i ==> #[trigger] entry_names(entries@)[j] != name@,
        decreases entries@.len() - i,
    {
        if same_text(entries[i].0.as_str(), name) {
            proof {
                lemma_first_named(entry_names(entries@), name@, i as int);
            }
            return Some(i);
        }
        i = i + 1;
    }
    proof {
        assert(!exists|j: int| 0 <= j < entry_names(entries@).len() && entry_names(entries@)[j] == name@);
    }
    None
}

/// Copies of the names of named entries, in order.
pub fn names_of<X>(entries: &Vec<(String, X)>) -> (r: Vec<String>)
    ensures
        texts(r@) == entry_names(entries@),
{
    let mut names: Vec<String> = Vec::new();
    let mut i: usize = 0;
    while i < entries.len()
        invariant
            i <= entries@.len(),
            names@.len() == i,
            texts(names@) == entry_names(entries@).take(i as int),
        decreases entries@.len() - i,
    {
        let ghost prev = names@;
        let c = entries[i].0.clone();
        assert(c@ == entries@[i as int].0@);
        names.push(c);
        assert(names@ == prev.push(c));
        assert forall|j: int| 0 <= j < i + 1 implies #[trigger] texts(names@)[j] == entry_names(entries@).take(i as int + 1)[j] by {
            if j < i {
                assert(texts(prev)[j] == entry_names(entries@).take(i as int)[j]);
            }
        }
        assert(texts(names@) =~= entry_names(entries@).take(i as int + 1));
        i = i + 1;
    }
    assert(entry_names(entries@).take(i as int) =~= entry_names(entries@));
    names
}

/// `a` comes before `b`, or equals it, comparing character codes one by one
/// (a prefix first). This is the order of `str`: it compares UTF-8 bytes, and
/// UTF-8 keeps the order of character codes.
pub open spec fn text_le(a: Seq<char>, b: Seq<char>) -> bool
    decreases a.len(),
{
    if a.len() == 0 {
        true
    } else if b.len() == 0 {
        false
    } else if a[0] != b[0] {
        (a[0] as u32) < (b[0] as u32)
    } else {
        text_le(a.drop_first(), b.drop_first())
    }
}

/// The strings of `s` are in ascending order.
pub open spec fn texts_ascending(s: Seq<String>) -> bool {
    forall|i: int, j: int| 0 <= i < j < s.len() ==> text_le(#[trigger] s[i]@, #[trigger] s[j]@)
}

/// Relies on `slice::sort` of std: the names come back in ascending order of
/// `String`'s `Ord`, the same names as many times each.
#[verifier::external_body]
fn sort_names(v: &mut Vec<String>)
    ensures
        final(v)@.to_multiset() == old(v)@.to_multiset(),
        texts_ascending(final(v)@),
{
    v.sort();
}

/// Some string of `s` reads `x`.
pub open spec fn text_in(s: Seq<String>, x: Seq<char>) -> bool {
    exists|i: int| 0 <= i < s.len() && #[trigger] s[i]@ == x
}

/// The names of `names`, each once, in ascending order.
pub fn sorted_unique(names: Vec<String>) -> (r: Vec<String>)
    ensures
        forall|i: int, j: int| 0 <= i < j < r@.len() ==> #[trigger] r@[i]@ != #[trigger] r@[j]@,
        forall|x: Seq<char>| #[trigger] text_in(r@, x) <==> text_in(names@, x),
        texts_ascending(r@),
{
    broadcast use vstd::seq_lib::group_to_multiset_ensures;
    let mut sorted = names;
    sort_names(&mut sorted);
    let ghost s = sorted@;
    assert forall|x: Seq<char>| #[trigger] text_in(s, x) <==> text_in(names@, x) by {
        if text_in(s, x) {
            let i = choose|i: int| 0 <= i < s.len() && #[trigger] s[i]@ == x;
            assert(s.contains(s[i]));
            assert(names@.to_multiset().contains(s[i]));
            assert(names@.contains(s[i]));
        }
        if text_in(names@, x) {
            let i = choose|i: int| 0 <= i < names@.len() && #[trigger] names@[i]@ == x;
            assert(names@.contains(names@[i]));
            assert(s.to_multiset().contains(names@[i]));
            assert(s.contains(names@[i]));
        }
    }
    let mut out: Vec<String> = Vec::new();
    let mut i: usize = 0;
    while i < sorted.len()
        invariant
            sorted@ == s,
            i <= s.len(),
            forall|a: int, b: int| 0 <= a < b < out@.len() ==> #[trigger] out@[a]@ != #[trigger] out@[b]@,
            forall|x: Seq<char>| #[trigger] text_in(out@, x) <==> text_in(s.take(i as int), x),
            texts_ascending(s),
            texts_ascending(out@),
            forall|a: int, j: int| 0 <= a < out@.len() && i <= j < s.len() ==> text_le(#[trigger] out@[a]@, #[trigger] s[j]@),
        decreases s.len() - i,
    {
        let mut seen = false;
        let mut k: usize = 0;
        while k < out.len()
            invariant
                sorted@ == s,
                i < s.len(),
                k <= out@.len(),
                seen == exists|a: int| 0 <= a < k && #[trigger] out@[a]@ == s[i as int]@,
            decreases out@.len() - k,
        {
            if out[k] == sorted[i] {
                seen = true;
            }
            k = k + 1;
        }
        let ghost prev = out@;
        if !seen {
            out.push(sorted[i].clone());
            proof {
                assert forall|a: int, b: int| 0 <= a < b < out@.len() implies #[trigger] out@[a]@ != #[trigger] out@[b]@ by {
                    if b < prev.len() {
                        assert(out@[a] == prev[a] && out@[b] == prev[b]);
                    } else {
                        assert(out@[a] == prev[a]);
                    }
                }
                assert forall|a: int, b: int| 0 <= a < b < out@.len() implies text_le(#[trigger] out@[a]@, #[trigger] out@[b]@) by {
                    assert(out@[a] == prev[a]);
                    if b < prev.len() {
                        assert(out@[b] == prev[b]);
                    } else {
                        assert(out@[b]@ == s[i as int]@);
                    }
                }
            }
        }
        proof {
            assert forall|a: int, j: int| 0 <= a < out@.len() && i + 1 <= j < s.len() implies text_le(#[trigger] out@[a]@, #[trigger] s[j]@) by {
                if a < prev.len() {
                    assert(out@[a] == prev[a]);
                } else {
                    assert(out@[a]@ == s[i as int]@);
                    assert(text_le(s[i as int]@, s[j]@));
                }
            }
            assert forall|x: Seq<char>| #[trigger] text_in(out@, x) <==> text_in(s.take(i as int + 1), x) by {
                if text_in(out@, x) {
                    let a = choose|a: int| 0 <= a < out@.len() && #[trigger] out@[a]@ == x;
                    if a < prev.len() {
                        assert(out@[a] == prev[a]);
                        assert(text_in(prev, x));
                        let c = choose|c: int| 0 <= c < s.take(i as int).len() && #[trigger] s.take(i as int)[c]@ == x;
                        assert(s.take(i as int + 1)[c] == s[c]);
                    } else {
                        assert(s[i as int]@ == x);
                        assert(s.take(i as int + 1)[i as int] == s[i as int]);
                    }
                }
                if text_in(s.take(i as int + 1), x) {
                    let a = choose|a: int| 0 <= a < i + 1 && #[trigger] s.take(i as int + 1)[a]@ == x;
                    if a < i {
                        assert(s.take(i as int)[a] == s[a]);
                        assert(text_in(s.take(i as int), x));
                        assert(text_in(prev, x));
                        let b = choose|b: int| 0 <= b < prev.len() && #[trigger] prev[b]@ == x;
                        assert(out@[b] == prev[b]);
                    } else if seen {
                        let b = choose|b: int| 0 <= b < prev.len() && #[trigger] prev[b]@ == s[i as int]@;
                        assert(out@[b] == prev[b]);
                    } else {
                        assert(out@[prev.len() as int] == sorted@[i as int]);
                    }
                }
            }
        }
        i = i + 1;
    }
    assert(s.take(s.len() as int) =~= s);
    out
}

} // verus!
