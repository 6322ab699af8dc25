//! Runtime model of a 2D skeletal animation: bones, slots, skins, keyframe
//! timelines and the resolution of the sprites to draw at a given instant.
//!
//! Numeric payloads (transforms, curve tables, mesh geometry) are generic
//! parameters that the library carries without computing on them. Instants are
//! `u32` keys: a later instant always has a larger key.
pub mod color;
pub mod error;
pub mod json;
pub mod bone;
pub mod slot;
pub mod util;
pub mod skin;
pub mod curve;
pub mod timeline;
pub mod animation;
pub mod skeleton;
pub mod skin_animation;
pub mod document;
pub mod atlas;
