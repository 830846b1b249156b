//! Freezes the visible contents of a screen: a captured framebuffer is
//! (optionally) composited with the pointer sprite and transmitted back to
//! the display server in row-aligned chunks, to be shown as a static
//! backdrop while a child program starts.
//!
//! This crate holds the verified core of that pipeline: the pixel-buffer
//! data model, the cursor-sprite decoder, the alpha compositor, the chunk
//! planner, and the session stage machine. The calls into the display
//! server and the process spawning live outside it.

pub mod chunk;
pub mod compositor;
pub mod cursor;
pub mod error;
pub mod pixel;
pub mod session;

pub use error::CaptureError;
