//! Plain records of the skeleton document, as the document reader hands them
//! over (numeric fields are turned into payloads before they reach the library).
use vstd::prelude::*;
use crate::util::same_text;

verus! {

/// A slot as the document declares it.
pub struct Slot {
    pub name: String,
    /// Name of the bone the slot is bound to.
    pub bone: String,
    /// `RRGGBBAA` tint, white when absent.
    pub color: Option<String>,
    /// Name of the attachment shown by default.
    pub attachment: Option<String>,
}

/// One entry of a draw order keyframe: a slot moved by `offset` places.
pub struct DrawOrderTimelineOffset {
    pub slot: String,
    pub offset: i32,
}

/// Kinds of attachment a document may declare.
#[derive(Clone, Copy, Debug, PartialEq, Eq, Structural)]
pub enum AttachmentType {
    Region,
    Mesh,
    RegionSequence,
    BoundingBox,
}

/// The attachment kind written `name` in a document, if it is one.
pub open spec fn attachment_type_named(name: Seq<char>) -> Option<AttachmentType> {
    if name == "region"@ {
        Some(AttachmentType::Region)
    } else if name == "regionsequence"@ {
        Some(AttachmentType::RegionSequence)
    } else if name == "boundingbox"@ {
        Some(AttachmentType::BoundingBox)
    } else if name == "mesh"@ {
        Some(AttachmentType::Mesh)
    } else {
        None
    }
}

impl AttachmentType {
    /// Reads an attachment kind from its document name.
    pub fn from_name(name: &str) -> (r: Option<AttachmentType>)
        ensures
            r == attachment_type_named(name@),
    {
        if same_text(name, "region") {
            Some(AttachmentType::Region)
        } else if same_text(name, "regionsequence") {
            Some(AttachmentType::RegionSequence)
        } else if same_text(name, "boundingbox") {
            Some(AttachmentType::BoundingBox)
        } else if same_text(name, "mesh") {
            Some(AttachmentType::Mesh)
        } else {
            None
        }
    }
}

/// Shape of a curve that has no control points.
#[derive(Clone, Copy, Debug, PartialEq, Eq, Structural)]
pub enum CurveName {
    Linear,
    Stepped,
}

/// The curve shape written `name` in a document, if it is one.
pub open spec fn curve_named(name: Seq<char>) -> Option<CurveName> {
    if name == "linear"@ {
        Some(CurveName::Linear)
    } else if name == "stepped"@ {
        Some(CurveName::Stepped)
    } else {
        None
    }
}

/// Reads a named curve shape.
pub fn curve_from_name(name: &str) -> (r: Option<CurveName>)
    ensures
        r == curve_named(name@),
{
    if same_text(name, "linear") {
        Some(CurveName::Linear)
    } else if same_text(name, "stepped") {
        Some(CurveName::Stepped)
    } else {
        None
    }
}

/// The color of an attachment that gives none: opaque white.
pub fn white_color() -> (r: String)
    ensures
        r@ == "FFFFFFFF"@,
{
    "FFFFFFFF".to_owned()
}

} // verus!
