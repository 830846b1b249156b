//! The packed-pixel image that a capture run owns.

use vstd::arithmetic::div_mod::lemma_fundamental_div_mod;
use vstd::arithmetic::mul::lemma_mul_is_commutative;
use vstd::prelude::*;

use crate::error::CaptureError;

verus! {

/// A packed-pixel image: geometry plus the raw bytes. Row `y` occupies
/// `bytes[y * stride .. y * stride + stride]`; each pixel is four bytes in
/// the order B, G, R and an unused alpha/padding byte.
#[derive(Debug)]
pub struct PixelBuffer {
    pub width: u32,
    pub height: u32,
    /// Bytes per row, at least `4 * width`.
    pub stride: u32,
    pub bytes: Vec<u8>,
}

impl PixelBuffer {
    /// The data-model invariant: four bytes per pixel fit in every row, and
    /// the byte buffer holds exactly `height` rows of `stride` bytes.
    pub open spec fn wf(self) -> bool {
        &&& self.stride as int >= 4 * self.width as int
        &&& self.bytes@.len() == self.stride as int * self.height as int
    }

    /// Builds a buffer from explicit geometry, rejecting bytes that do not
    /// match it. A snapshot reply whose payload disagrees with the screen
    /// geometry is malformed, hence `SnapshotFailed`.
    pub fn new(width: u32, height: u32, stride: u32, bytes: Vec<u8>) -> (r: Result<
        PixelBuffer,
        CaptureError,
    >)
        ensures
            r is Ok <==> (stride as int >= 4 * width as int && bytes@.len() == stride as int
                * height as int),
            r matches Ok(pb) ==> pb.width == width && pb.height == height && pb.stride == stride
                && pb.bytes@ == bytes@ && pb.wf(),
            r matches Err(e) ==> e == CaptureError::SnapshotFailed,
    {
        if (stride as u64) < 4 * (width as u64) {
            return Err(CaptureError::SnapshotFailed);
        }
        assert(stride as int * height as int <= 0xffff_ffff * 0xffff_ffff) by (nonlinear_arith)
            requires
                stride <= 0xffff_ffff,
                height <= 0xffff_ffff,
        ;
        if bytes.len() as u64 != (stride as u64) * (height as u64) {
            return Err(CaptureError::SnapshotFailed);
        }
        Ok(PixelBuffer { width, height, stride, bytes })
    }

    /// Builds a buffer from a raw snapshot reply, deriving the stride as
    /// the payload length divided by the row count.
    pub fn from_snapshot(width: u32, height: u32, bytes: Vec<u8>) -> (r: Result<
        PixelBuffer,
        CaptureError,
    >)
        ensures
            r is Ok <==> (height > 0 && bytes@.len() as int % (height as int) == 0
                && bytes@.len() as int / (height as int) <= u32::MAX && bytes@.len() as int / (
            height as int) >= 4 * width as int),
            r matches Ok(pb) ==> pb.width == width && pb.height == height && pb.stride as int
                == bytes@.len() as int / (height as int) && pb.bytes@ == bytes@ && pb.wf(),
            r matches Err(e) ==> e == CaptureError::SnapshotFailed,
    {
        if height == 0 {
            return Err(CaptureError::SnapshotFailed);
        }
        let len = bytes.len();
        if len % (height as usize) != 0 {
            return Err(CaptureError::SnapshotFailed);
        }
        let stride_wide = len / (height as usize);
        if stride_wide > u32::MAX as usize {
            return Err(CaptureError::SnapshotFailed);
        }
        let stride = stride_wide as u32;
        if (stride as u64) < 4 * (width as u64) {
            return Err(CaptureError::SnapshotFailed);
        }
        proof {
            lemma_fundamental_div_mod(len as int, height as int);
            assert(len as int == height as int * (len as int / height as int));
            lemma_mul_is_commutative(height as int, len as int / height as int);
        }
        Ok(PixelBuffer { width, height, stride, bytes })
    }
}

} // verus!
