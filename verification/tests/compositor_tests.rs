use fullscreen_viewer::compositor::composite;
use fullscreen_viewer::cursor::{CPixel, CursorSprite};
use fullscreen_viewer::pixel::PixelBuffer;

/// The blend formula: `dst*(1 - a/255) + src*(a/255)` truncated toward
/// zero, computed exactly over integers.
fn blend(dst: u8, src: u8, alpha: u8) -> u8 {
    ((dst as u32 * (255 - alpha as u32) + src as u32 * alpha as u32) / 255) as u8
}

fn frame_with(width: u32, height: u32, stride: u32) -> PixelBuffer {
    let len = (stride as usize) * (height as usize);
    let bytes: Vec<u8> = (0..len).map(|i| (7 + i * 13 % 241) as u8).collect();
    PixelBuffer::new(width, height, stride, bytes).unwrap()
}

fn sprite_at(pos_x: i16, pos_y: i16, width: u16, height: u16, texel: CPixel) -> CursorSprite {
    CursorSprite {
        pos_x,
        pos_y,
        hotspot_x: 0,
        hotspot_y: 0,
        width,
        height,
        pixels: vec![texel; (width as usize) * (height as usize)],
    }
}

/// What `composite` must produce, pixel by pixel, per the contract.
fn expected_after(frame: &PixelBuffer, cursor: &CursorSprite) -> Vec<u8> {
    let mut out = frame.bytes.clone();
    for y in 0..frame.height as i64 {
        for x in 0..frame.width as i64 {
            let cx = x - cursor.pos_x as i64;
            let cy = y - cursor.pos_y as i64;
            if cx >= 0 && cx < cursor.width as i64 && cy >= 0 && cy < cursor.height as i64 {
                let t = &cursor.pixels[(cy * cursor.width as i64 + cx) as usize];
                let base = (y as usize) * (frame.stride as usize) + 4 * (x as usize);
                out[base] = blend(frame.bytes[base], t.b, t.a);
                out[base + 1] = blend(frame.bytes[base + 1], t.g, t.a);
                out[base + 2] = blend(frame.bytes[base + 2], t.r, t.a);
            }
        }
    }
    out
}

#[test]
fn empty_overlap_is_a_no_op() {
    let positions: [(i16, i16); 6] =
        [(100, 100), (-10, -10), (4, 0), (0, 4), (-2, 1), (1, -2)];
    for (px, py) in positions {
        let mut frame = frame_with(4, 4, 16);
        let before = frame.bytes.clone();
        let cursor = sprite_at(px, py, 2, 2, CPixel { r: 1, g: 2, b: 3, a: 200 });
        composite(&mut frame, &cursor);
        assert_eq!(frame.bytes, before, "sprite at ({px}, {py})");
    }
}

#[test]
fn opaque_texel_replaces_bgr() {
    let mut frame = frame_with(2, 2, 8);
    let before = frame.bytes.clone();
    let cursor = sprite_at(0, 0, 1, 1, CPixel { r: 10, g: 20, b: 30, a: 255 });
    composite(&mut frame, &cursor);
    assert_eq!(frame.bytes[0], 30);
    assert_eq!(frame.bytes[1], 20);
    assert_eq!(frame.bytes[2], 10);
    // the alpha/padding byte and every other pixel stay untouched
    assert_eq!(frame.bytes[3], before[3]);
    assert_eq!(&frame.bytes[4..], &before[4..]);
}

#[test]
fn transparent_texel_changes_nothing() {
    let mut frame = frame_with(3, 3, 12);
    let before = frame.bytes.clone();
    let cursor = sprite_at(0, 0, 3, 3, CPixel { r: 10, g: 20, b: 30, a: 0 });
    composite(&mut frame, &cursor);
    assert_eq!(frame.bytes, before);
}

#[test]
fn half_alpha_blends_exactly() {
    let mut frame = PixelBuffer::new(1, 1, 4, vec![100, 100, 100, 9]).unwrap();
    let cursor = sprite_at(0, 0, 1, 1, CPixel { r: 200, g: 200, b: 200, a: 128 });
    composite(&mut frame, &cursor);
    // (100*127 + 200*128) / 255 == 150, truncated
    assert_eq!(frame.bytes, vec![150, 150, 150, 9]);
}

#[test]
fn clipping_at_edges_and_corners() {
    // a 2x2 sprite straddling each corner and edge of a 3x3 frame,
    // including positions that begin left of or above the origin
    let positions: [(i16, i16); 8] = [
        (-1, -1),
        (2, -1),
        (-1, 2),
        (2, 2),
        (-1, 1),
        (2, 1),
        (1, -1),
        (1, 2),
    ];
    for (px, py) in positions {
        let mut frame = frame_with(3, 3, 12);
        let untouched = frame_with(3, 3, 12);
        let mut pixels = Vec::new();
        for i in 0..4u8 {
            pixels.push(CPixel { r: 40 + i, g: 80 + i, b: 120 + i, a: 60 + 40 * i });
        }
        let cursor = CursorSprite {
            pos_x: px,
            pos_y: py,
            hotspot_x: 0,
            hotspot_y: 0,
            width: 2,
            height: 2,
            pixels,
        };
        composite(&mut frame, &cursor);
        assert_eq!(frame.bytes, expected_after(&untouched, &cursor), "sprite at ({px}, {py})");
    }
}

#[test]
fn sprite_wider_than_frame_is_clipped() {
    let mut frame = frame_with(2, 2, 8);
    let untouched = frame_with(2, 2, 8);
    let cursor = sprite_at(-3, -3, 8, 8, CPixel { r: 5, g: 6, b: 7, a: 130 });
    composite(&mut frame, &cursor);
    assert_eq!(frame.bytes, expected_after(&untouched, &cursor));
}

#[test]
fn row_padding_is_untouched() {
    // stride 12 leaves 4 bytes of padding per row beyond the 2 pixels
    let mut frame = frame_with(2, 2, 12);
    let before = frame.bytes.clone();
    let cursor = sprite_at(0, 0, 2, 2, CPixel { r: 1, g: 2, b: 3, a: 255 });
    composite(&mut frame, &cursor);
    for y in 0..2 {
        for i in 8..12 {
            assert_eq!(frame.bytes[y * 12 + i], before[y * 12 + i]);
        }
    }
}

#[test]
fn position_is_used_as_reported_despite_hotspot() {
    // the anchor is already hotspot-adjusted: a nonzero hotspot must not
    // shift where the sprite lands
    let texel = CPixel { r: 9, g: 8, b: 7, a: 255 };
    let mut with_hotspot = frame_with(4, 4, 16);
    let mut without_hotspot = frame_with(4, 4, 16);
    let mut cursor = sprite_at(1, 1, 2, 2, texel);
    cursor.hotspot_x = 5;
    cursor.hotspot_y = 7;
    composite(&mut with_hotspot, &cursor);
    let plain = sprite_at(1, 1, 2, 2, texel);
    composite(&mut without_hotspot, &plain);
    assert_eq!(with_hotspot.bytes, without_hotspot.bytes);
}
