//! The game's file system: CDN cache bookkeeping and addresses, and where a Steam install is.

pub mod cdn;
pub mod steam;
