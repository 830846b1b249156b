use fullscreen_viewer::cursor::{sample, CPixel, CursorSprite, RawCursorReply, MIN_CURSOR_MAJOR};
use fullscreen_viewer::error::CaptureError;
use fullscreen_viewer::pixel::PixelBuffer;

fn reply_2x2() -> RawCursorReply {
    RawCursorReply {
        x: 5,
        y: -3,
        xhot: 1,
        yhot: 2,
        width: 2,
        height: 2,
        pixels: vec![CPixel { r: 1, g: 2, b: 3, a: 4 }; 4],
    }
}

#[test]
fn sample_decodes_a_well_formed_reply() {
    let sprite = sample(MIN_CURSOR_MAJOR, Some(reply_2x2())).unwrap();
    assert_eq!(sprite.pos_x, 5);
    assert_eq!(sprite.pos_y, -3);
    assert_eq!(sprite.hotspot_x, 1);
    assert_eq!(sprite.hotspot_y, 2);
    assert_eq!(sprite.width, 2);
    assert_eq!(sprite.height, 2);
    assert_eq!(sprite.pixels.len(), 4);
    assert_eq!(sprite.pixels[0], CPixel { r: 1, g: 2, b: 3, a: 4 });
}

#[test]
fn unsupported_extension_fails_before_composite_runs() {
    // a service reporting a version below the minimum: sampling fails with
    // UnsupportedExtension, so no sprite exists and the compositor is
    // never invoked — the captured frame stays as it was
    let mut frame = PixelBuffer::new(1, 1, 4, vec![1, 2, 3, 4]).unwrap();
    let before = frame.bytes.clone();
    let r: Result<CursorSprite, CaptureError> = sample(1, Some(reply_2x2()));
    match r {
        Ok(sprite) => {
            fullscreen_viewer::compositor::composite(&mut frame, &sprite);
            panic!("a version-1 service must not yield a sprite");
        }
        Err(e) => assert_eq!(e, CaptureError::UnsupportedExtension),
    }
    assert_eq!(frame.bytes, before);
}

#[test]
fn version_zero_is_unsupported() {
    let r = sample(0, None);
    assert_eq!(r.unwrap_err(), CaptureError::UnsupportedExtension);
}

#[test]
fn missing_reply_means_cursor_unavailable() {
    let r = sample(MIN_CURSOR_MAJOR, None);
    assert_eq!(r.unwrap_err(), CaptureError::CursorUnavailable);
}

#[test]
fn malformed_reply_means_cursor_unavailable() {
    let mut reply = reply_2x2();
    reply.pixels.pop();
    let r = sample(MIN_CURSOR_MAJOR, Some(reply));
    assert_eq!(r.unwrap_err(), CaptureError::CursorUnavailable);
}

#[test]
fn newer_versions_are_accepted() {
    assert!(sample(MIN_CURSOR_MAJOR + 4, Some(reply_2x2())).is_ok());
}
