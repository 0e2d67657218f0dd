//! Skinned mesh (`.sm`) files.
use vstd::prelude::*;

verus! {

/// Parser for `.sm` files (UTF-16LE text).
pub struct SMParser;

/// A material of a mesh.
pub struct Material {
    pub mat_file: Option<String>,
    pub unk1: u32,
}

/// A named group of bones.
pub struct BoneGroup {
    pub name: String,
    pub bones: Vec<String>,
}

} // verus!
