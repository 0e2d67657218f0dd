//! Art assets: the layout of minimap sprite (`.mtp`) files.

pub mod sprites;
