//! Tile (`.tgt`) files.
use vstd::prelude::*;
use super::versioned::VersionedFile;

verus! {

/// Parser for `.tgt` files (UTF-16LE text).
pub struct TGTParser;

/// The section of a version 1 file.
pub struct V1Section {
    pub tile_mesh: String,
    pub ground_mask: Option<String>,
    pub normal_materials: Vec<V1NormalMaterial>,
}

pub struct V1NormalMaterial {
    pub mat_file: String,
    pub uint: u32,
}

/// The section of a version 3 file.
pub struct V3Section {
    pub source_scene: Option<String>,
    pub size: [u32; 2],
    pub tile_mesh_root: String,
    pub ground_mask: Option<String>,
    pub normal_materials: Vec<String>,
    pub material_slots: Option<Vec<String>>,
    pub subtile_material_indices: Option<Vec<Vec<Vec<Index>>>>,
}

pub enum Section {
    V1(V1Section),
    V3(V3Section),
}

/// A parsed `.tgt` file.
pub struct TGTFile {
    pub version: u32,
    pub section: Section,
}

pub struct Index {
    pub uint1: u32,
    pub uint2: u32,
    pub uint3: Option<u32>,
}

impl VersionedFile for TGTFile {
    fn version(&self) -> (r: Option<u32>)
        ensures
            r == Some(self.version),
    {
        Some(self.version)
    }
}

} // verus!
