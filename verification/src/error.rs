//! The error taxonomy of the capture pipeline.

use vstd::prelude::*;

verus! {

/// One failure per pipeline stage; every stage is fail-fast.
#[derive(Clone, Copy, Debug, PartialEq, Eq, Structural)]
pub enum CaptureError {
    /// The display connection could not be opened, or the screen was absent.
    ConnectionFailed,
    /// The cursor-shape facility is absent or below the minimum version.
    UnsupportedExtension,
    /// The cursor query failed or its reply was malformed.
    CursorUnavailable,
    /// The raw framebuffer snapshot failed or its reply was malformed.
    SnapshotFailed,
    /// The transport cannot carry even one row of the buffer.
    ChunkTooSmall,
    /// The transport reported an error after a chunk was sent.
    TransmissionFailed,
    /// Creating, decorating or presenting the window failed.
    WindowSetupFailed,
    /// The child command could not be spawned.
    ChildSpawnFailed,
}

impl CaptureError {
    /// A short diagnostic text for the error stream.
    pub fn describe(&self) -> &'static str {
        match self {
            CaptureError::ConnectionFailed => "failed to connect to the display server",
            CaptureError::UnsupportedExtension => "cursor-shape extension is absent or too old",
            CaptureError::CursorUnavailable => "failed to read the cursor image",
            CaptureError::SnapshotFailed => "failed to capture the screen",
            CaptureError::ChunkTooSmall => "transport cannot carry even one row",
            CaptureError::TransmissionFailed => "found error after sending the image",
            CaptureError::WindowSetupFailed => "failed to set up the window",
            CaptureError::ChildSpawnFailed => "failed to execute the child command",
        }
    }
}

} // verus!
