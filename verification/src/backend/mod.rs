//! Workspace information and live previews from the compositor, media players,
//! and the power state of the machine.

pub mod buffers;
pub mod captures;
pub mod media;
pub mod pixels;
pub mod power;
pub mod session;
pub mod strips;
