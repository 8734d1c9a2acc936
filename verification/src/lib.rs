//! The logic of a bar that shows live workspace previews: configuration,
//! geometry, preview images, media players, settings, and the state machine
//! that ties them together.

pub mod backend;
pub mod bar;
pub mod config;
pub mod content;
pub mod float;
pub mod settings;
pub mod sort;
pub mod text;
pub mod view;
