use vstd::prelude::*;

verus! {

/// The table schemas of the community dat-schema project.
pub struct SchemaCollection {
    pub tables: Vec<DatTableSchema>,
}

pub struct DatTableSchema {
    /// PoE Version
    /// 1 - PoE 1
    /// 2 - PoE 2
    /// 3 - Common
    pub valid_for: u32,
    /// Table name
    pub name: String,
    pub columns: Vec<ColumnSchema>,
}

pub struct ColumnSchema {
    pub name: Option<String>,
    pub description: Option<String>,
    pub array: bool,
    pub column_type: String,
    pub unique: bool,
    pub localized: bool,
    pub references: Option<References>,
    pub until: Option<String>,
    pub file: Option<String>,
    pub files: Option<Vec<String>>,
    pub interval: bool,
}

pub struct References {
    pub table: String,
}

} // verus!
