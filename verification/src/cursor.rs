//! The pointer sprite and the decoder for the cursor-shape query reply.

use vstd::prelude::*;

use crate::error::CaptureError;

verus! {

/// The least major version of the cursor-shape facility that carries the
/// cursor-image query.
pub const MIN_CURSOR_MAJOR: u32 = 2;

/// One sprite texel, eight bits per channel.
#[derive(Clone, Copy, Debug, PartialEq, Eq, Structural)]
pub struct CPixel {
    pub r: u8,
    pub g: u8,
    pub b: u8,
    pub a: u8,
}

/// The plain fields of a cursor-shape query reply, before validation.
#[derive(Debug)]
pub struct RawCursorReply {
    pub x: i16,
    pub y: i16,
    pub xhot: u16,
    pub yhot: u16,
    pub width: u16,
    pub height: u16,
    pub pixels: Vec<CPixel>,
}

impl RawCursorReply {
    /// A reply is well formed when it carries one texel per sprite pixel.
    pub open spec fn wf(self) -> bool {
        self.pixels@.len() == self.width as int * self.height as int
    }
}

/// A validated pointer sprite. `pos_x`/`pos_y` anchor the sprite's top-left
/// corner on screen: the service reports the position already adjusted by
/// the hotspot, so no caller subtracts the hotspot again.
#[derive(Debug)]
pub struct CursorSprite {
    pub pos_x: i16,
    pub pos_y: i16,
    pub hotspot_x: u16,
    pub hotspot_y: u16,
    pub width: u16,
    pub height: u16,
    pub pixels: Vec<CPixel>,
}

impl CursorSprite {
    /// The data-model invariant: one texel per sprite pixel.
    pub open spec fn wf(self) -> bool {
        self.pixels@.len() == self.width as int * self.height as int
    }
}

/// Decodes one cursor-shape query into a sprite.
///
/// `version_major` is the facility version the service reported; below
/// `MIN_CURSOR_MAJOR` the query is unsupported. `reply` is `None` when the
/// service did not answer; an answer whose texel count disagrees with its
/// geometry is malformed. Either way the cursor is unavailable.
pub fn sample(version_major: u32, reply: Option<RawCursorReply>) -> (r: Result<
    CursorSprite,
    CaptureError,
>)
    ensures
        version_major < MIN_CURSOR_MAJOR ==> (r matches Err(e) && e
            == CaptureError::UnsupportedExtension),
        version_major >= MIN_CURSOR_MAJOR ==> match reply {
            None => r matches Err(e) && e == CaptureError::CursorUnavailable,
            Some(raw) => if raw.wf() {
                r matches Ok(s) && s.pos_x == raw.x && s.pos_y == raw.y && s.hotspot_x == raw.xhot
                    && s.hotspot_y == raw.yhot && s.width == raw.width && s.height == raw.height
                    && s.pixels@ == raw.pixels@ && s.wf()
            } else {
                r matches Err(e) && e == CaptureError::CursorUnavailable
            },
        },
{
    if version_major < MIN_CURSOR_MAJOR {
        return Err(CaptureError::UnsupportedExtension);
    }
    match reply {
        None => Err(CaptureError::CursorUnavailable),
        Some(raw) => {
            assert(raw.width as int * raw.height as int <= 0xffff * 0xffff) by (nonlinear_arith)
                requires
                    raw.width <= 0xffff,
                    raw.height <= 0xffff,
            ;
            if raw.pixels.len() != (raw.width as usize) * (raw.height as usize) {
                return Err(CaptureError::CursorUnavailable);
            }
            Ok(
                CursorSprite {
                    pos_x: raw.x,
                    pos_y: raw.y,
                    hotspot_x: raw.xhot,
                    hotspot_y: raw.yhot,
                    width: raw.width,
                    height: raw.height,
                    pixels: raw.pixels,
                },
            )
        },
    }
}

} // verus!
