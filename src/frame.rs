//! Turning a raw camera frame (10-bit RGGB Bayer samples, one little-endian
//! 16-bit word per pixel) into an 8-bit RGB image.
use std::io::Cursor;
use bayer::{run_demosaic, BayerDepth, BayerError, Demosaic, RasterDepth, RasterMut, CFA};
use vstd::prelude::*;

verus! {

#[verifier::external_type_specification]
#[verifier::external_body]
pub struct ExBayerError(BayerError);

/// The RGB image that linear demosaicing of an 8-bit RGGB mosaic gives.
pub uninterp spec fn demosaic_of(mosaic: Seq<u8>, width: usize, height: usize) -> Seq<u8>;

/// Relies on bayer::run_demosaic (linear interpolation, RGGB pattern, 8-bit
/// samples) writing into a `width` x `height` 8-bit raster: on success the
/// raster holds three bytes per pixel; rasters narrower or lower than two
/// pixels are refused, and from two by two up a mosaic of at least one byte
/// per pixel is always taken. `bayer::RasterMut::new` panics on an empty raster,
/// hence the bounds.
#[verifier::external_body]
fn demosaic_rggb(mosaic: Vec<u8>, width: usize, height: usize) -> (r: Result<Vec<u8>, BayerError>)
    requires
        width >= 1,
        height >= 1,
        3 * width * height <= usize::MAX,
    ensures
        width < 2 || height < 2 ==> r is Err,
        width >= 2 && height >= 2 && mosaic@.len() >= width * height ==> r is Ok,
        r matches Ok(rgb) ==> rgb@ == demosaic_of(mosaic@, width, height)
            && rgb@.len() == 3 * width * height,
{
    let mut buf = vec![0u8; 3 * width * height];
    let mut dst = RasterMut::new(width, height, RasterDepth::Depth8, &mut buf);
    run_demosaic(&mut Cursor::new(mosaic), BayerDepth::Depth8, CFA::RGGB, Demosaic::Linear, &mut dst)?;
    Ok(buf)
}

#[derive(Clone, Copy, Debug, PartialEq, Eq, Structural)]
pub enum FrameError {
    /// The buffer does not hold two bytes for each pixel.
    SizeMismatch,
    /// The RGB image would not fit in memory.
    TooLarge,
    /// The demosaicing step refused the frame.
    Demosaic,
}

/// The 8-bit value of the pixel whose 10-bit sample is the little-endian word
/// `lo`, `hi`: its top eight bits.
pub open spec fn sample_8bit(lo: u8, hi: u8) -> u8 {
    (((lo as int + 256 * hi as int) / 4) % 256) as u8
}

/// The 8-bit mosaic of a buffer of 16-bit words.
pub open spec fn reduce_to_8bit(raw: Seq<u8>) -> Seq<u8> {
    Seq::new(raw.len() / 2, |i: int| sample_8bit(raw[2 * i], raw[2 * i + 1]))
}

/// The 8-bit mosaic of a buffer of 16-bit words.
pub fn reduce_samples(raw: &[u8]) -> (r: Vec<u8>)
    ensures
        r@ == reduce_to_8bit(raw@),
{
    let len: usize = raw.len();
    let n = len / 2;
    let mut out: Vec<u8> = Vec::with_capacity(n);
    let mut i: usize = 0;
    while i < n
        invariant
            len == raw@.len(),
            n == len / 2,
            i <= n,
            out@.len() == i,
            forall|k: int| 0 <= k < i ==> out@[k] == sample_8bit(raw@[2 * k], raw@[2 * k + 1]),
        decreases n - i,
    {
        assert(2 * i + 1 < len);
        let lo = raw[2 * i];
        let hi = raw[2 * i + 1];
        let word: u32 = lo as u32 + 256 * (hi as u32);
        out.push(((word / 4) % 256) as u8);
        i += 1;
    }
    assert(out@ =~= reduce_to_8bit(raw@));
    out
}

/// Converts a raw frame of `width` x `height` pixels to RGB, three bytes per
/// pixel, row by row.
pub fn raw_to_rgb(raw: &[u8], width: usize, height: usize) -> (r: Result<Vec<u8>, FrameError>)
    ensures
        raw@.len() != 2 * width * height ==> r == Err::<Vec<u8>, FrameError>(FrameError::SizeMismatch),
        raw@.len() == 2 * width * height && 3 * width * height > usize::MAX
            ==> r == Err::<Vec<u8>, FrameError>(FrameError::TooLarge),
        raw@.len() == 2 * width * height && 3 * width * height <= usize::MAX && (width < 2 || height < 2)
            ==> r == Err::<Vec<u8>, FrameError>(FrameError::Demosaic),
        raw@.len() == 2 * width * height && 3 * width * height <= usize::MAX && width >= 2 && height >= 2
            ==> r is Ok,
        r matches Ok(rgb) ==> raw@.len() == 2 * width * height
            && rgb@ == demosaic_of(reduce_to_8bit(raw@), width, height)
            && rgb@.len() == 3 * width * height,
        r is Err ==> r == Err::<Vec<u8>, FrameError>(FrameError::SizeMismatch)
            || r == Err::<Vec<u8>, FrameError>(FrameError::TooLarge)
            || r == Err::<Vec<u8>, FrameError>(FrameError::Demosaic),
{
    let len: usize = raw.len();
    let pixels = match width.checked_mul(height) {
        Some(p) => p,
        None => {
            proof {
                assert(width * height > usize::MAX);
                assert(2 * width * height > usize::MAX) by (nonlinear_arith)
                    requires width * height > usize::MAX;
                assert(raw@.len() == len);
            }
            return Err(FrameError::SizeMismatch);
        },
    };
    proof {
        assert(2 * width * height == 2 * pixels) by (nonlinear_arith)
            requires pixels == width * height;
        assert(3 * width * height == 3 * pixels) by (nonlinear_arith)
            requires pixels == width * height;
    }
    if pixels > usize::MAX / 2 || len != 2 * pixels {
        assert(raw@.len() == len);
        return Err(FrameError::SizeMismatch);
    }
    if pixels > usize::MAX / 3 {
        return Err(FrameError::TooLarge);
    }
    if width == 0 || height == 0 {
        proof {
            assert(pixels == 0) by (nonlinear_arith)
                requires pixels == width * height, width == 0 || height == 0;
        }
        return Err(FrameError::Demosaic);
    }
    let mosaic = reduce_samples(raw);
    assert(mosaic@.len() == width * height);
    match demosaic_rggb(mosaic, width, height) {
        Ok(rgb) => Ok(rgb),
        Err(_) => Err(FrameError::Demosaic),
    }
}

} // verus!
