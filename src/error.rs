use vstd::prelude::*;

verus! {

/// Why a hexadecimal string could not be decoded.
#[derive(Clone, Copy, Debug, PartialEq, Eq, Structural)]
pub enum HexError {
    /// A character that is neither a hex digit nor blank, with its position.
    InvalidHexCharacter(char, usize),
    /// An odd number of hex digits.
    InvalidHexLength,
}

/// Errors raised while building a skeleton or looking something up in it.
#[derive(Clone, Debug, PartialEq, Eq)]
pub enum SkeletonError {
    /// The requested bone was not found.
    BoneNotFound(String),
    /// The requested slot was not found.
    SlotNotFound(String),
    /// The requested skin was not found.
    SkinNotFound(String),
    /// A color could not be read as four hexadecimal bytes.
    InvalidColor(HexError),
    /// The requested animation was not found.
    AnimationNotFound(String),
    /// The attachment has no local transform (meshes are not supported there).
    UnsupportedAttachment(String),
}

impl SkeletonError {
    /// A human-readable description of the error.
    pub fn message(&self) -> (r: String) {
        match self {
            SkeletonError::BoneNotFound(_) => "bone cannot be found in skeleton bones".to_string(),
            SkeletonError::SlotNotFound(_) => "slot cannot be found in skeleton slots".to_string(),
            SkeletonError::SkinNotFound(_) => "skin cannot be found in skeleton skins".to_string(),
            SkeletonError::InvalidColor(_) => "color cannot be parsed".to_string(),
            SkeletonError::AnimationNotFound(_) => "animation cannot be found in skeleton animations".to_string(),
            SkeletonError::UnsupportedAttachment(_) => "attachment kind is not supported here".to_string(),
        }
    }
}

} // verus!
