use vstd::prelude::*;
use crate::bone::Bone;
use crate::color::{color_of, parse_color};
use crate::error::SkeletonError;
use crate::json;
use crate::util::{bone_index, first_named};

verus! {

/// A slot of the skeleton: where an attachment is drawn, bound to one bone.
pub struct Slot {
    pub name: String,
    pub bone_index: usize,
    /// Base RGBA tint.
    pub color: [u8; 4],
    /// Attachment shown when no animation says otherwise.
    pub attachment: Option<String>,
}

/// The bone named by `slot` is not in `bones`.
pub open spec fn slot_bone_missing<S>(slot: json::Slot, bones: Seq<Bone<S>>) -> bool {
    forall|j: int| 0 <= j < bones.len() ==> #[trigger] bones[j].name@ != slot.bone@
}

/// The color of `slot` is given and does not read as a color.
pub open spec fn slot_color_invalid(slot: json::Slot) -> bool {
    slot.color matches Some(c) && color_of(c@) is Err
}

/// `s` is the slot built from `slot` over bones named `bones`.
pub open spec fn slot_built(slot: json::Slot, bones: Seq<Seq<char>>, s: Slot) -> bool {
    &&& s.name == slot.name
    &&& s.attachment == slot.attachment
    &&& first_named(bones, slot.bone@) == Some(s.bone_index as int)
    &&& match slot.color {
        Some(c) => color_of(c@) == Ok::<[u8; 4], crate::error::HexError>(s.color),
        None => s.color@ == seq![255u8, 255u8, 255u8, 255u8],
    }
}

impl Slot {
    /// Builds a slot, resolving its bone and reading its color.
    pub fn from_json<S>(slot: json::Slot, bones: &[Bone<S>]) -> (r: Result<Slot, SkeletonError>)
        ensures
            r is Err <==> slot_bone_missing(slot, bones@) || slot_color_invalid(slot),
            r matches Ok(s) ==> slot_built(slot, crate::util::bone_names(bones@), s),
            match r {
                Ok(s) => {
                    &&& s.name == slot.name
                    &&& s.attachment == slot.attachment
                    &&& s.bone_index < bones@.len()
                    &&& bones@[s.bone_index as int].name@ == slot.bone@
                    &&& forall|j: int| 0 <= j < s.bone_index ==> #[trigger] bones@[j].name@ != slot.bone@
                    &&& match slot.color {
                        Some(c) => color_of(c@) == Ok::<[u8; 4], crate::error::HexError>(s.color),
                        None => s.color@ == seq![255u8, 255u8, 255u8, 255u8],
                    }
                },
                Err(e) => if slot_bone_missing(slot, bones@) {
                    e matches SkeletonError::BoneNotFound(n) && n@ == slot.bone@
                } else {
                    slot.color matches Some(c) && color_of(c@) matches Err(h)
                        && e == SkeletonError::InvalidColor(h)
                },
            },
    {
        let bone_index = match bone_index(slot.bone.as_str(), bones) {
            Ok(i) => i,
            Err(e) => return Err(e),
        };
        let color = match &slot.color {
            Some(c) => match parse_color(c.as_str()) {
                Ok(v) => v,
                Err(e) => return Err(e),
            },
            None => [255, 255, 255, 255],
        };
        Ok(Slot { name: slot.name, bone_index, color, attachment: slot.attachment })
    }
}

} // verus!
