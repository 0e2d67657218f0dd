//! Room layout (`.arm`) files: the types of a room, the grammar of its one-line records, and
//! the sections that span several lines.

pub mod lines;
pub mod map;
pub mod sections;
pub mod types;
