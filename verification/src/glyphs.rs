//! The glyph sample table: one raw rasterizer output per code point in the
//! sampled range `[33, 255]`. The table owns every pixel byte it holds; the
//! rasterizer reuses its internal buffer between characters, so each sample
//! is copied out before the next character is requested.

use vstd::prelude::*;

verus! {

/// Number of sampled code points: the range `[33, 255]` inclusive.
pub const SAMPLED_CODE_POINTS: usize = 223;

/// A bitmapped representation of a single font glyph: the raw coverage
/// bytes, one byte per pixel, row-major with the row stride of the sampler.
#[derive(Clone)]
pub struct GlyphImage {
    /// The coverage bytes, owned by this image.
    pub data: Vec<u8>,
}

impl GlyphImage {
    pub fn new(data: Vec<u8>) -> (image: GlyphImage)
        ensures
            image.data == data,
    {
        GlyphImage { data }
    }
}

/// The raw rasterizer output for one code point: the bitmap dimensions, the
/// baseline offset, and the coverage bytes.
#[derive(Clone)]
pub struct GlyphSample {
    /// The code point this sample was rasterized for.
    pub code_point: usize,
    /// The width of the bitmap, in pixels.
    pub width_px: usize,
    /// The height of the bitmap, in rows.
    pub rows_px: usize,
    /// The number of bytes per bitmap row; at least `width_px`.
    pub stride_bytes: usize,
    /// The lowest extent of the glyph relative to the baseline, in pixels;
    /// negative for descenders.
    pub baseline_min_y: i64,
    /// The coverage bitmap, `rows_px * stride_bytes` bytes.
    pub image: GlyphImage,
}

impl GlyphSample {
    /// The coverage byte at pixel `(x, y)` of this sample's bitmap.
    pub open spec fn spec_coverage(self, x: int, y: int) -> u8 {
        self.image.data@[y * self.width_px + x]
    }

    /// Dimension consistency: every pixel `(x, y)` with `x < width_px` and
    /// `y < rows_px` has its coverage byte inside the owned data, and every
    /// reported dimension is small enough that placement arithmetic on it
    /// cannot overflow.
    pub open spec fn wf(self) -> bool {
        &&& self.width_px <= self.stride_bytes
        &&& self.width_px < 0x8000_0000
        &&& self.rows_px < 0x8000_0000
        &&& self.stride_bytes < 0x8000_0000
        &&& -0x8000_0000 <= self.baseline_min_y < 0x8000_0000
        &&& self.image.data@.len() == self.rows_px * self.stride_bytes
    }

    /// Build a sample from what the rasterizer handed back, validating the
    /// dimensions it reported against the bytes it produced. Inconsistent
    /// output (a negative dimension, a stride narrower than the width, or a
    /// buffer of the wrong size) is rejected rather than trusted.
    pub fn from_raster(
        code_point: usize,
        width: i32,
        rows: i32,
        pitch: i32,
        baseline_min_y: i64,
        image: GlyphImage,
    ) -> (sample: Option<GlyphSample>)
        ensures
            sample matches Some(s) ==> {
                &&& s.wf()
                &&& s.code_point == code_point
                &&& s.width_px == width
                &&& s.rows_px == rows
                &&& s.stride_bytes == pitch
                &&& s.baseline_min_y == baseline_min_y
                &&& s.image == image
            },
            (width >= 0 && rows >= 0 && pitch >= width && -0x8000_0000 <= baseline_min_y
                < 0x8000_0000 && image.data@.len() == rows * pitch) ==> sample is Some,
    {
        if width < 0 || rows < 0 || pitch < width {
            return None;
        }
        if baseline_min_y < -0x8000_0000i64 || baseline_min_y >= 0x8000_0000i64 {
            return None;
        }
        let width_px = width as usize;
        let rows_px = rows as usize;
        let stride_bytes = pitch as usize;
        proof {
            assert(rows_px * stride_bytes < 0x4000_0000_0000_0000) by (nonlinear_arith)
                requires
                    rows_px < 0x8000_0000,
                    stride_bytes < 0x8000_0000,
            ;
        }
        if (image.data.len() as u64) != (rows_px as u64) * (stride_bytes as u64) {
            return None;
        }
        Some(GlyphSample { code_point, width_px, rows_px, stride_bytes, baseline_min_y, image })
    }
}

/// The in-memory collection of per-code-point rasterizer output for the whole
/// sampled range, keyed by position: the sample at index `k` is for code
/// point `33 + k`. Read-only once built.
pub struct GlyphSampleTable {
    /// The samples, one per code point of `[33, 255]`, in code point order.
    pub samples: Vec<GlyphSample>,
}

impl GlyphSampleTable {
    /// Table invariant: exactly one well-formed sample per code point of the
    /// sampled range, stored in code point order.
    pub open spec fn wf(self) -> bool {
        &&& self.samples@.len() == SAMPLED_CODE_POINTS
        &&& forall|k: int|
            0 <= k < self.samples@.len() ==> {
                &&& (#[trigger] self.samples@[k]).wf()
                &&& self.samples@[k].code_point == 33 + k
            }
    }

    /// The sample for `code_point`, which must lie in `[33, 255]`.
    pub open spec fn spec_sample(self, code_point: int) -> GlyphSample {
        self.samples@[code_point - 33]
    }

    pub fn sample_at(&self, code_point: usize) -> (sample: &GlyphSample)
        requires
            self.wf(),
            33 <= code_point < 256,
        ensures
            *sample == self.spec_sample(code_point as int),
            sample.wf(),
            sample.code_point == code_point,
    {
        &self.samples[code_point - 33]
    }
}

} // verus!
