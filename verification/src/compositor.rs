//! In-place alpha compositing of the pointer sprite onto a frame.
//!
//! The sprite's on-screen rectangle is clipped to the frame; inside the
//! clipped rectangle every pixel's B, G and R bytes become the "over"
//! blend of frame and sprite, and everything else — the fourth byte of
//! touched pixels included — stays as it was.

use vstd::arithmetic::div_mod::lemma_div_is_ordered;
use vstd::arithmetic::div_mod::lemma_div_multiples_vanish;
use vstd::arithmetic::div_mod::lemma_fundamental_div_mod;
use vstd::arithmetic::div_mod::lemma_fundamental_div_mod_converse;
use vstd::arithmetic::div_mod::lemma_div_pos_is_pos;
use vstd::arithmetic::div_mod::lemma_mod_bound;
use vstd::arithmetic::mul::lemma_mul_by_zero_is_zero;
use vstd::arithmetic::mul::lemma_mul_is_commutative;
use vstd::prelude::*;

use crate::cursor::CPixel;
use crate::cursor::CursorSprite;
use crate::pixel::PixelBuffer;

verus! {

/// One channel of the "over" blend: the exact value of
/// `dst*(1 - alpha/255) + src*(alpha/255)`, truncated toward zero.
pub open spec fn blend_channel(dst: u8, src: u8, alpha: u8) -> u8 {
    ((dst * (255 - alpha) + src * alpha) / 255) as u8
}

/// The first on-screen column of the sprite rectangle.
pub open spec fn clip_x0(c: CursorSprite) -> int {
    if c.pos_x < 0 {
        0
    } else {
        c.pos_x as int
    }
}

/// The first on-screen row of the sprite rectangle.
pub open spec fn clip_y0(c: CursorSprite) -> int {
    if c.pos_y < 0 {
        0
    } else {
        c.pos_y as int
    }
}

/// One past the last on-screen column of the sprite rectangle.
pub open spec fn clip_x1(c: CursorSprite, frame_width: int) -> int {
    let e = c.pos_x + c.width;
    if e < 0 {
        0
    } else if e > frame_width {
        frame_width
    } else {
        e
    }
}

/// One past the last on-screen row of the sprite rectangle.
pub open spec fn clip_y1(c: CursorSprite, frame_height: int) -> int {
    let e = c.pos_y + c.height;
    if e < 0 {
        0
    } else if e > frame_height {
        frame_height
    } else {
        e
    }
}

/// Whether frame pixel `(x, y)` lies under the sprite and inside the frame.
pub open spec fn in_clip(c: CursorSprite, fw: int, fh: int, x: int, y: int) -> bool {
    clip_x0(c) <= x < clip_x1(c, fw) && clip_y0(c) <= y < clip_y1(c, fh)
}

/// The sprite rectangle lies entirely outside the frame.
pub open spec fn rect_outside(c: CursorSprite, fw: int, fh: int) -> bool {
    c.pos_x as int >= fw || c.pos_x + c.width <= 0 || c.pos_y as int >= fh || c.pos_y + c.height
        <= 0
}

/// The sprite texel over frame pixel `(x, y)`.
pub open spec fn texel_at(c: CursorSprite, x: int, y: int) -> CPixel {
    c.pixels@[(y - c.pos_y) * c.width as int + (x - c.pos_x)]
}

/// The sprite channel blended into byte `ch` of a destination pixel, in
/// the destination's B, G, R order.
pub open spec fn source_channel(t: CPixel, ch: int) -> u8 {
    if ch == 0 {
        t.b
    } else if ch == 1 {
        t.g
    } else {
        t.r
    }
}

/// The row holding byte `i` of the frame.
pub open spec fn byte_y(frame: PixelBuffer, i: int) -> int {
    i / (frame.stride as int)
}

/// The column of the pixel holding byte `i` of the frame.
pub open spec fn byte_x(frame: PixelBuffer, i: int) -> int {
    (i % (frame.stride as int)) / 4
}

/// Which of a pixel's four bytes `i` is: 0 for B, 1 for G, 2 for R, 3 for
/// the untouched alpha/padding byte. Row padding past `4 * width` decodes
/// to columns at or beyond `width`, which no clip rectangle reaches.
pub open spec fn byte_ch(frame: PixelBuffer, i: int) -> int {
    (i % (frame.stride as int)) % 4
}

/// Whether compositing touches byte `i`: a B, G or R byte of a pixel under
/// the clipped sprite rectangle.
pub open spec fn byte_blended(frame: PixelBuffer, c: CursorSprite, i: int) -> bool {
    byte_ch(frame, i) < 3 && in_clip(
        c,
        frame.width as int,
        frame.height as int,
        byte_x(frame, i),
        byte_y(frame, i),
    )
}

/// Byte `i` of the frame after compositing.
pub open spec fn composited_byte(frame: PixelBuffer, c: CursorSprite, i: int) -> u8 {
    if byte_blended(frame, c, i) {
        let t = texel_at(c, byte_x(frame, i), byte_y(frame, i));
        blend_channel(frame.bytes@[i], source_channel(t, byte_ch(frame, i)), t.a)
    } else {
        frame.bytes@[i]
    }
}

/// Pixel `(x, y)` comes before position `(yy, xx)` in row-major order.
spec fn pixel_before(x: int, y: int, yy: int, xx: int) -> bool {
    y < yy || (y == yy && x < xx)
}

/// Byte `i` once every clipped pixel before `(yy, xx)` in row-major order
/// has been blended and no other pixel has been touched.
spec fn partial_byte(frame: PixelBuffer, c: CursorSprite, yy: int, xx: int, i: int) -> u8 {
    if byte_blended(frame, c, i) && pixel_before(byte_x(frame, i), byte_y(frame, i), yy, xx) {
        composited_byte(frame, c, i)
    } else {
        frame.bytes@[i]
    }
}

/// The byte at `y * stride + 4 * x + ch` decodes to row `y`, column `x`
/// and channel `ch`.
proof fn lemma_byte_decode(frame: PixelBuffer, x: int, y: int, ch: int)
    requires
        frame.stride >= 1,
        0 <= y,
        0 <= x,
        0 <= ch < 4,
        4 * x + ch < frame.stride,
    ensures
        byte_y(frame, y * (frame.stride as int) + 4 * x + ch) == y,
        byte_x(frame, y * (frame.stride as int) + 4 * x + ch) == x,
        byte_ch(frame, y * (frame.stride as int) + 4 * x + ch) == ch,
{
    let s = frame.stride as int;
    let i = y * s + 4 * x + ch;
    lemma_fundamental_div_mod_converse(i, s, y, 4 * x + ch);
    lemma_fundamental_div_mod_converse(4 * x + ch, 4, x, ch);
}

/// Every byte index recomposes from its row, column and channel.
proof fn lemma_byte_recompose(frame: PixelBuffer, i: int)
    requires
        frame.stride >= 1,
        0 <= i,
    ensures
        i == byte_y(frame, i) * (frame.stride as int) + 4 * byte_x(frame, i) + byte_ch(frame, i),
        0 <= byte_y(frame, i),
        0 <= byte_x(frame, i),
        0 <= byte_ch(frame, i) < 4,
        4 * byte_x(frame, i) + byte_ch(frame, i) < frame.stride,
{
    let s = frame.stride as int;
    lemma_fundamental_div_mod(i, s);
    lemma_mod_bound(i, s);
    lemma_div_pos_is_pos(i, s);
    let r = i % s;
    lemma_fundamental_div_mod(r, 4);
    lemma_mod_bound(r, 4);
    lemma_div_pos_is_pos(r, 4);
    lemma_mul_is_commutative(s, i / s);
}

/// A sprite texel with alpha 255 fully replaces the destination channel.
pub proof fn lemma_blend_opaque(dst: u8, src: u8)
    ensures
        blend_channel(dst, src, 255) == src,
{
    lemma_mul_by_zero_is_zero(dst as int);
    lemma_mul_is_commutative(src as int, 255);
    lemma_div_multiples_vanish(src as int, 255);
}

/// A sprite texel with alpha 0 leaves the destination channel unchanged.
pub proof fn lemma_blend_transparent(dst: u8, src: u8)
    ensures
        blend_channel(dst, src, 0) == dst,
{
    lemma_mul_by_zero_is_zero(src as int);
    lemma_mul_is_commutative(dst as int, 255);
    lemma_div_multiples_vanish(dst as int, 255);
}

/// Blends the sprite over the frame in place.
///
/// Afterwards every byte of the frame is `composited_byte` of its old
/// self: the B, G and R bytes of pixels under the clipped sprite rectangle
/// are blended, everything else is untouched. A sprite rectangle entirely
/// outside the frame leaves the buffer byte for byte unchanged.
#[verifier::loop_isolation(false)]
pub fn composite(frame: &mut PixelBuffer, cursor: &CursorSprite)
    requires
        old(frame).wf(),
        cursor.wf(),
    ensures
        final(frame).width == old(frame).width,
        final(frame).height == old(frame).height,
        final(frame).stride == old(frame).stride,
        final(frame).wf(),
        final(frame).bytes@.len() == old(frame).bytes@.len(),
        forall|i: int|
            0 <= i < old(frame).bytes@.len() ==> final(frame).bytes@[i] == composited_byte(
                *old(frame),
                *cursor,
                i,
            ),
        rect_outside(*cursor, old(frame).width as int, old(frame).height as int)
            ==> final(frame).bytes@ == old(frame).bytes@,
{
    let ghost frame0 = *frame;
    let fw = frame.width;
    let fh = frame.height;
    let stride = frame.stride as usize;
    // binds the buffer length to a machine word, which bounds every byte
    // index computed below
    let total = frame.bytes.len();
    proof {
        assert(total == frame0.bytes@.len());
    }

    let x0: u32 = if cursor.pos_x < 0 {
        0
    } else {
        cursor.pos_x as u32
    };
    let xe: i32 = cursor.pos_x as i32 + cursor.width as i32;
    let x1: u32 = if xe < 0 {
        0
    } else if xe as u32 > fw {
        fw
    } else {
        xe as u32
    };
    let y0: u32 = if cursor.pos_y < 0 {
        0
    } else {
        cursor.pos_y as u32
    };
    let ye: i32 = cursor.pos_y as i32 + cursor.height as i32;
    let y1: u32 = if ye < 0 {
        0
    } else if ye as u32 > fh {
        fh
    } else {
        ye as u32
    };
    proof {
        assert(x0 == clip_x0(*cursor));
        assert(x1 == clip_x1(*cursor, fw as int));
        assert(y0 == clip_y0(*cursor));
        assert(y1 == clip_y1(*cursor, fh as int));
    }

    if x0 < x1 && y0 < y1 {
        let mut y: u32 = y0;
        while y < y1
            invariant
                y0 <= y <= y1,
                frame.width == frame0.width,
                frame.height == frame0.height,
                frame.stride == frame0.stride,
                frame.bytes@.len() == frame0.bytes@.len(),
                forall|i: int|
                    0 <= i < frame0.bytes@.len() ==> frame.bytes@[i] == partial_byte(
                        frame0,
                        *cursor,
                        y as int,
                        x0 as int,
                        i,
                    ),
            decreases y1 - y,
        {
            let mut x: u32 = x0;
            while x < x1
                invariant
                    x0 <= x <= x1,
                    y0 <= y < y1,
                    frame.width == frame0.width,
                    frame.height == frame0.height,
                    frame.stride == frame0.stride,
                    frame.bytes@.len() == frame0.bytes@.len(),
                    forall|i: int|
                        0 <= i < frame0.bytes@.len() ==> frame.bytes@[i] == partial_byte(
                            frame0,
                            *cursor,
                            y as int,
                            x as int,
                            i,
                        ),
                decreases x1 - x,
            {
                proof {
                    assert(in_clip(*cursor, fw as int, fh as int, x as int, y as int));
                    assert(y as int * (stride as int) + (stride as int) <= fh as int * (
                    stride as int)) by (nonlinear_arith)
                        requires
                            y as int + 1 <= fh as int,
                            stride as int >= 0,
                    ;
                    lemma_mul_is_commutative(fh as int, stride as int);
                    assert(4 * (x as int) + 4 <= 4 * (fw as int));
                    lemma_byte_decode(frame0, x as int, y as int, 0);
                    lemma_byte_decode(frame0, x as int, y as int, 1);
                    lemma_byte_decode(frame0, x as int, y as int, 2);
                }
                let base: usize = (y as usize) * stride + 4 * (x as usize);
                let cx: usize = ((x as i64) - (cursor.pos_x as i64)) as usize;
                let cy: usize = ((y as i64) - (cursor.pos_y as i64)) as usize;
                let plen = cursor.pixels.len();
                proof {
                    assert((cy as int) * (cursor.width as int) + (cx as int) < (
                    cursor.width as int) * (cursor.height as int)) by (nonlinear_arith)
                        requires
                            0 <= (cy as int),
                            (cy as int) < (cursor.height as int),
                            0 <= (cx as int),
                            (cx as int) < (cursor.width as int),
                    ;
                    assert((cy as int) * (cursor.width as int) + (cx as int) < plen as int);
                }
                let ti: usize = cy * (cursor.width as usize) + cx;
                let t = cursor.pixels[ti];
                let a: u32 = t.a as u32;
                let na: u32 = 255 - a;
                let db: u32 = frame.bytes[base] as u32;
                let dg: u32 = frame.bytes[base + 1] as u32;
                let dr: u32 = frame.bytes[base + 2] as u32;
                proof {
                    assert(db as int * na as int + t.b as int * a as int <= 65025)
                        by (nonlinear_arith)
                        requires
                            0 <= db <= 255,
                            0 <= t.b <= 255,
                            0 <= na,
                            0 <= a,
                            na as int + a as int == 255,
                    ;
                    assert(dg as int * na as int + t.g as int * a as int <= 65025)
                        by (nonlinear_arith)
                        requires
                            0 <= dg <= 255,
                            0 <= t.g <= 255,
                            0 <= na,
                            0 <= a,
                            na as int + a as int == 255,
                    ;
                    assert(dr as int * na as int + t.r as int * a as int <= 65025)
                        by (nonlinear_arith)
                        requires
                            0 <= dr <= 255,
                            0 <= t.r <= 255,
                            0 <= na,
                            0 <= a,
                            na as int + a as int == 255,
                    ;
                }
                let nb: u32 = (db * na + (t.b as u32) * a) / 255;
                let ng: u32 = (dg * na + (t.g as u32) * a) / 255;
                let nr: u32 = (dr * na + (t.r as u32) * a) / 255;
                proof {
                    lemma_div_is_ordered(db as int * na as int + t.b as int * a as int, 65025, 255);
                    lemma_div_is_ordered(dg as int * na as int + t.g as int * a as int, 65025, 255);
                    lemma_div_is_ordered(dr as int * na as int + t.r as int * a as int, 65025, 255);
                }
                frame.bytes.set(base, nb as u8);
                frame.bytes.set(base + 1, ng as u8);
                frame.bytes.set(base + 2, nr as u8);
                proof {
                    let c = *cursor;
                    let s = stride as int;
                    let bx = x as int;
                    let by = y as int;
                    let base_i = by * s + 4 * bx;
                    assert(base == base_i);
                    assert(texel_at(c, bx, by) == t);
                    assert forall|i: int|
                        0 <= i < frame0.bytes@.len() implies frame.bytes@[i] == partial_byte(
                        frame0,
                        c,
                        by,
                        bx + 1,
                        i,
                    ) by {
                        if i == base_i {
                            assert(byte_blended(frame0, c, i));
                            assert(frame.bytes@[i] == nb as u8);
                        } else if i == base_i + 1 {
                            assert(byte_blended(frame0, c, i));
                            assert(frame.bytes@[i] == ng as u8);
                        } else if i == base_i + 2 {
                            assert(byte_blended(frame0, c, i));
                            assert(frame.bytes@[i] == nr as u8);
                        } else {
                            lemma_byte_recompose(frame0, i);
                            if byte_blended(frame0, c, i) && byte_y(frame0, i) == by && byte_x(
                                frame0,
                                i,
                            ) == bx {
                                assert(i == by * s + 4 * bx + byte_ch(frame0, i));
                                assert(false);
                            }
                        }
                    }
                }
                x = x + 1;
            }
            proof {
                let c = *cursor;
                assert forall|i: int|
                    0 <= i < frame0.bytes@.len() implies partial_byte(
                    frame0,
                    c,
                    y as int,
                    x1 as int,
                    i,
                ) == partial_byte(frame0, c, y as int + 1, x0 as int, i) by {
                    if byte_blended(frame0, c, i) {
                        assert(clip_x0(c) <= byte_x(frame0, i) < clip_x1(c, fw as int));
                    }
                }
            }
            y = y + 1;
        }
        proof {
            let c = *cursor;
            assert forall|i: int|
                0 <= i < frame0.bytes@.len() implies frame.bytes@[i] == composited_byte(
                frame0,
                c,
                i,
            ) by {
                if byte_blended(frame0, c, i) {
                    assert(byte_y(frame0, i) < clip_y1(c, fh as int));
                }
            }
        }
    } else {
        proof {
            let c = *cursor;
            assert forall|i: int|
                0 <= i < frame0.bytes@.len() implies frame.bytes@[i] == composited_byte(
                frame0,
                c,
                i,
            ) by {
                assert(!byte_blended(frame0, c, i));
            }
        }
    }
    proof {
        if rect_outside(*cursor, frame0.width as int, frame0.height as int) {
            assert forall|i: int|
                0 <= i < frame0.bytes@.len() implies frame.bytes@[i] == frame0.bytes@[i] by {
                assert(!byte_blended(frame0, *cursor, i));
            }
            assert(frame.bytes@ =~= frame0.bytes@);
        }
    }
}

} // verus!
