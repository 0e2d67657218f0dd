//! Data tables (`.datc64`): fixed-width rows plus a variable-length data section.

pub mod columns;
pub mod hex;
pub mod keys;
pub mod lookup;
pub mod parser;
pub mod raw;
pub mod readable;
pub mod refs;
pub mod schema;
pub mod schema_cache;
pub mod table_view;
pub mod tables;
