//! Media players that speak MPRIS2: which one to show, what it plays, and its
//! album art.

pub mod art;
pub mod cache;
pub mod fetch;
pub mod picker;
pub mod player;
pub mod properties;
