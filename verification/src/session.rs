//! The capture run as a straight-line stage machine.
//!
//! A run walks the stages in a fixed order with no loop and no retry;
//! cursor sampling and compositing are entered only when the caller asked
//! for the cursor. Each stage whose outside call can fail has one error of
//! its own, and the first failure ends the run.

use vstd::prelude::*;

use crate::error::CaptureError;

verus! {

/// The stages of a capture run, in the order they are entered.
#[derive(Clone, Copy, Debug, PartialEq, Eq, Structural)]
pub enum Stage {
    /// Open the display connection.
    Connect,
    /// Read the screen geometry and allocate the backing surface.
    Geometry,
    /// Query the pointer sprite (only with the cursor requested).
    SampleCursor,
    /// Request the raw framebuffer snapshot.
    Snapshot,
    /// Blend the sprite onto the snapshot (only with the cursor requested).
    Composite,
    /// Partition the buffer into row-aligned chunks.
    Plan,
    /// Send the chunks to the backing surface, in order.
    Transmit,
    /// Create, decorate, map, raise and focus the window.
    Present,
    /// Spawn the child command and wait for it.
    Spawn,
    /// The run is over.
    Done,
}

/// What a capture run was asked to do.
#[derive(Clone, Copy, Debug, PartialEq, Eq, Structural)]
pub struct SessionConfig {
    /// Blend the pointer sprite onto the snapshot before transmission.
    pub include_cursor: bool,
}

/// The stage that follows `stage` when it succeeds.
pub open spec fn next_stage_spec(stage: Stage, include_cursor: bool) -> Stage {
    match stage {
        Stage::Connect => Stage::Geometry,
        Stage::Geometry => if include_cursor {
            Stage::SampleCursor
        } else {
            Stage::Snapshot
        },
        Stage::SampleCursor => Stage::Snapshot,
        Stage::Snapshot => if include_cursor {
            Stage::Composite
        } else {
            Stage::Plan
        },
        Stage::Composite => Stage::Plan,
        Stage::Plan => Stage::Transmit,
        Stage::Transmit => Stage::Present,
        Stage::Present => Stage::Spawn,
        Stage::Spawn => Stage::Done,
        Stage::Done => Stage::Done,
    }
}

/// The error that a failure of the stage's outside call carries. Stages
/// that cannot fail on their own, and those whose worker reports its own
/// error (the cursor sampler, the chunk planner), have none here.
pub open spec fn stage_failure_spec(stage: Stage) -> Option<CaptureError> {
    match stage {
        Stage::Connect => Some(CaptureError::ConnectionFailed),
        Stage::Geometry => Some(CaptureError::ConnectionFailed),
        Stage::SampleCursor => None,
        Stage::Snapshot => Some(CaptureError::SnapshotFailed),
        Stage::Composite => None,
        Stage::Plan => None,
        Stage::Transmit => Some(CaptureError::TransmissionFailed),
        Stage::Present => Some(CaptureError::WindowSetupFailed),
        Stage::Spawn => Some(CaptureError::ChildSpawnFailed),
        Stage::Done => None,
    }
}

/// How many stages are still ahead of `stage`.
pub open spec fn stage_rank(stage: Stage) -> nat {
    match stage {
        Stage::Connect => 9,
        Stage::Geometry => 8,
        Stage::SampleCursor => 7,
        Stage::Snapshot => 6,
        Stage::Composite => 5,
        Stage::Plan => 4,
        Stage::Transmit => 3,
        Stage::Present => 2,
        Stage::Spawn => 1,
        Stage::Done => 0,
    }
}

/// The stage a run starts in.
pub fn first_stage() -> (s: Stage)
    ensures
        s == Stage::Connect,
{
    Stage::Connect
}

/// Advances the run past a stage that succeeded.
pub fn next_stage(stage: Stage, config: SessionConfig) -> (n: Stage)
    ensures
        n == next_stage_spec(stage, config.include_cursor),
{
    match stage {
        Stage::Connect => Stage::Geometry,
        Stage::Geometry => if config.include_cursor {
            Stage::SampleCursor
        } else {
            Stage::Snapshot
        },
        Stage::SampleCursor => Stage::Snapshot,
        Stage::Snapshot => if config.include_cursor {
            Stage::Composite
        } else {
            Stage::Plan
        },
        Stage::Composite => Stage::Plan,
        Stage::Plan => Stage::Transmit,
        Stage::Transmit => Stage::Present,
        Stage::Present => Stage::Spawn,
        Stage::Spawn => Stage::Done,
        Stage::Done => Stage::Done,
    }
}

/// The error a failed outside call of `stage` surfaces.
pub fn stage_failure(stage: Stage) -> (r: Option<CaptureError>)
    ensures
        r == stage_failure_spec(stage),
{
    match stage {
        Stage::Connect => Some(CaptureError::ConnectionFailed),
        Stage::Geometry => Some(CaptureError::ConnectionFailed),
        Stage::SampleCursor => None,
        Stage::Snapshot => Some(CaptureError::SnapshotFailed),
        Stage::Composite => None,
        Stage::Plan => None,
        Stage::Transmit => Some(CaptureError::TransmissionFailed),
        Stage::Present => Some(CaptureError::WindowSetupFailed),
        Stage::Spawn => Some(CaptureError::ChildSpawnFailed),
        Stage::Done => None,
    }
}

/// The run is a straight line: every successful stage moves strictly
/// toward `Done`, whether or not the cursor was requested, so a run
/// performs each stage at most once and always terminates.
pub proof fn lemma_session_terminates(stage: Stage, include_cursor: bool)
    requires
        stage != Stage::Done,
    ensures
        stage_rank(next_stage_spec(stage, include_cursor)) < stage_rank(stage),
{
}

} // verus!
