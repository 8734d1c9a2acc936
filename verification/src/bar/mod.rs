//! The bar: its surfaces, its state, and how it takes in events.

pub mod actions;
pub mod app;
pub mod effects;
pub mod geometry;
pub mod identity;
pub mod laws;
pub mod model;
pub mod reconfig;
pub mod shell;
pub mod tables;
