use fullscreen_viewer::error::CaptureError;
use fullscreen_viewer::session::{first_stage, next_stage, stage_failure, SessionConfig, Stage};

fn walk(include_cursor: bool) -> Vec<Stage> {
    let config = SessionConfig { include_cursor };
    let mut stages = vec![first_stage()];
    let mut guard = 0;
    while *stages.last().unwrap() != Stage::Done {
        stages.push(next_stage(*stages.last().unwrap(), config));
        guard += 1;
        assert!(guard <= 10, "the session must reach Done without looping");
    }
    stages
}

#[test]
fn session_without_cursor_skips_sampling_and_compositing() {
    assert_eq!(
        walk(false),
        vec![
            Stage::Connect,
            Stage::Geometry,
            Stage::Snapshot,
            Stage::Plan,
            Stage::Transmit,
            Stage::Present,
            Stage::Spawn,
            Stage::Done,
        ]
    );
}

#[test]
fn session_with_cursor_samples_then_composites() {
    assert_eq!(
        walk(true),
        vec![
            Stage::Connect,
            Stage::Geometry,
            Stage::SampleCursor,
            Stage::Snapshot,
            Stage::Composite,
            Stage::Plan,
            Stage::Transmit,
            Stage::Present,
            Stage::Spawn,
            Stage::Done,
        ]
    );
}

#[test]
fn each_outside_stage_has_its_own_error() {
    assert_eq!(stage_failure(Stage::Connect), Some(CaptureError::ConnectionFailed));
    assert_eq!(stage_failure(Stage::Geometry), Some(CaptureError::ConnectionFailed));
    assert_eq!(stage_failure(Stage::Snapshot), Some(CaptureError::SnapshotFailed));
    assert_eq!(stage_failure(Stage::Transmit), Some(CaptureError::TransmissionFailed));
    assert_eq!(stage_failure(Stage::Present), Some(CaptureError::WindowSetupFailed));
    assert_eq!(stage_failure(Stage::Spawn), Some(CaptureError::ChildSpawnFailed));
}

#[test]
fn worker_stages_report_their_own_errors() {
    assert_eq!(stage_failure(Stage::SampleCursor), None);
    assert_eq!(stage_failure(Stage::Composite), None);
    assert_eq!(stage_failure(Stage::Plan), None);
    assert_eq!(stage_failure(Stage::Done), None);
}

#[test]
fn every_error_describes_itself() {
    let errors = [
        CaptureError::ConnectionFailed,
        CaptureError::UnsupportedExtension,
        CaptureError::CursorUnavailable,
        CaptureError::SnapshotFailed,
        CaptureError::ChunkTooSmall,
        CaptureError::TransmissionFailed,
        CaptureError::WindowSetupFailed,
        CaptureError::ChildSpawnFailed,
    ];
    for e in errors {
        assert!(!e.describe().is_empty());
    }
}
