//! Downloading bundles from GGG's CDN, with a local cache per game patch.

pub mod cache;
pub mod downloader;
pub mod index;
pub mod loader;
pub mod patch_parts;
