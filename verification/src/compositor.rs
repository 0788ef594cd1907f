//! The buffer compositor: packs the sampled glyph bitmaps into the single
//! RGBA atlas image. Every destination pixel is computed through the shared
//! grid layout, so the pixels land exactly where the metadata says they do.

use crate::config::AtlasSpec;
use crate::glyphs::GlyphSampleTable;
use crate::layout::{glyph_index_of, spec_glyph_index, spec_has_glyph};
use vstd::arithmetic::div_mod::{
    lemma_fundamental_div_mod_converse, lemma_multiply_divide_lt,
};
use vstd::prelude::*;

verus! {

/// The coverage value composed at atlas pixel `(x, y)`: zero where no
/// sampled glyph owns the slot, zero in the padding and the unused remainder
/// of a slot, and the sample's own coverage byte inside the glyph's ink.
pub open spec fn spec_atlas_coverage(
    tab: GlyphSampleTable,
    spec: AtlasSpec,
    x: int,
    y: int,
) -> u8 {
    let code_point = spec_glyph_index(x, y, spec.slot_glyph_size as int, spec.columns as int);
    if spec_has_glyph(code_point) {
        let sample = tab.spec_sample(code_point);
        let x_loc = x % (spec.slot_glyph_size as int) - (spec.padding as int) / 2;
        let y_loc = y % (spec.slot_glyph_size as int) - (spec.padding as int) / 2;
        if x_loc < 0 || y_loc < 0 || x_loc >= sample.width_px || y_loc >= sample.rows_px {
            0u8
        } else {
            sample.spec_coverage(x_loc, y_loc)
        }
    } else {
        0u8
    }
}

/// True when atlas pixel `(x, y)` lies inside the ink bounds of the glyph
/// that owns its slot: a sampled code point's slot, within both the width
/// and the rows of that sample's bitmap.
pub open spec fn spec_pixel_in_ink(tab: GlyphSampleTable, spec: AtlasSpec, x: int, y: int) -> bool {
    let code_point = spec_glyph_index(x, y, spec.slot_glyph_size as int, spec.columns as int);
    let x_loc = x % (spec.slot_glyph_size as int) - (spec.padding as int) / 2;
    let y_loc = y % (spec.slot_glyph_size as int) - (spec.padding as int) / 2;
    &&& spec_has_glyph(code_point)
    &&& 0 <= x_loc < tab.spec_sample(code_point).width_px
    &&& 0 <= y_loc < tab.spec_sample(code_point).rows_px
}

/// Flat buffer offset of channel `c` of the pixel `(x, y)` in a row-major
/// RGBA image that is `dims` pixels wide.
pub open spec fn spec_pixel_byte_index(dims: int, x: int, y: int, c: int) -> int {
    (y * dims + x) * 4 + c
}

/// The byte written at flat buffer offset `i`: the coverage value of the
/// pixel the offset belongs to, replicated over all four channels.
pub open spec fn spec_atlas_byte(tab: GlyphSampleTable, spec: AtlasSpec, i: int) -> u8 {
    let pixel = i / 4;
    spec_atlas_coverage(tab, spec, pixel % (spec.dimensions as int), pixel / (
    spec.dimensions as int))
}

/// Append one RGBA pixel: the coverage value replicated into all four
/// channels, so the glyph renders as white on transparent.
fn push_pixel(buffer: &mut Vec<u8>, value: u8)
    requires
        old(buffer)@.len() + 4 <= usize::MAX,
    ensures
        final(buffer)@ == old(buffer)@ + seq![value, value, value, value],
{
    buffer.push(value);
    buffer.push(value);
    buffer.push(value);
    buffer.push(value);
    assert(buffer@ =~= old(buffer)@ + seq![value, value, value, value]);
}

/// Pack the sampled glyph bitmaps into a single RGBA image buffer, scanning
/// the destination row-major: each byte of the result is pinned to the
/// coverage value that the shared layout assigns to its pixel.
#[verifier::loop_isolation(false)]
pub fn create_bitmap_buffer(glyph_tab: &GlyphSampleTable, spec: AtlasSpec) -> (buffer: Vec<u8>)
    requires
        glyph_tab.wf(),
        spec.wf(),
        spec.dimensions * spec.dimensions * 4 <= usize::MAX,
    ensures
        buffer@.len() == spec.dimensions * spec.dimensions * 4,
        forall|x: int, y: int, c: int|
            0 <= x < spec.dimensions && 0 <= y < spec.dimensions && 0 <= c < 4
                ==> buffer@[#[trigger] spec_pixel_byte_index(spec.dimensions as int, x, y, c)]
                == spec_atlas_coverage(*glyph_tab, spec, x, y),
{
    let dims = spec.dimensions;
    let ghost tab = *glyph_tab;
    let mut atlas_buffer: Vec<u8> = Vec::new();
    let mut y: usize = 0;
    while y < dims
        invariant
            y <= dims,
            atlas_buffer@.len() == y * dims * 4,
            forall|i: int|
                0 <= i < atlas_buffer@.len() ==> atlas_buffer@[i] == spec_atlas_byte(tab, spec, i),
        decreases dims - y,
    {
        let mut x: usize = 0;
        while x < dims
            invariant
                x <= dims,
                atlas_buffer@.len() == (y * dims + x) * 4,
                forall|i: int|
                    0 <= i < atlas_buffer@.len() ==> atlas_buffer@[i] == spec_atlas_byte(
                        tab,
                        spec,
                        i,
                    ),
            decreases dims - x,
        {
            proof {
                lemma_multiply_divide_lt(x as int, spec.slot_glyph_size as int, spec.columns as int);
                lemma_multiply_divide_lt(y as int, spec.slot_glyph_size as int, spec.columns as int);
                let q = (y as int) / (spec.slot_glyph_size as int);
                let r = (x as int) / (spec.slot_glyph_size as int);
                assert(q * spec.columns + r + 32 <= usize::MAX) by (nonlinear_arith)
                    requires
                        0 <= q < spec.columns,
                        0 <= r < spec.columns,
                        spec.columns >= 1,
                        spec.slot_glyph_size >= 1,
                        spec.dimensions == spec.slot_glyph_size * spec.columns,
                        spec.dimensions * spec.dimensions * 4 <= usize::MAX,
                ;
            }
            let code_point = glyph_index_of(x, y, spec.slot_glyph_size, spec.columns);
            let coverage: u8 = if code_point > 32 && code_point < 256 {
                let sample = glyph_tab.sample_at(code_point);
                let x_in_slot = x % spec.slot_glyph_size;
                let y_in_slot = y % spec.slot_glyph_size;
                let half_padding = spec.padding / 2;
                if x_in_slot < half_padding || y_in_slot < half_padding {
                    0
                } else {
                    let x_loc = x_in_slot - half_padding;
                    let y_loc = y_in_slot - half_padding;
                    if x_loc >= sample.width_px || y_loc >= sample.rows_px {
                        0
                    } else {
                        let data_len = sample.image.data.len();
                        proof {
                            assert(y_loc * sample.width_px + x_loc < sample.rows_px
                                * sample.stride_bytes) by (nonlinear_arith)
                                requires
                                    y_loc < sample.rows_px,
                                    x_loc < sample.width_px,
                                    sample.width_px <= sample.stride_bytes,
                                    0 <= y_loc,
                                    0 <= x_loc,
                            ;
                            assert(y_loc * sample.width_px + x_loc < data_len);
                        }
                        sample.image.data[y_loc * sample.width_px + x_loc]
                    }
                }
            } else {
                0
            };
            proof {
                assert(y * dims + x + 1 <= dims * dims) by (nonlinear_arith)
                    requires
                        0 <= x < dims,
                        0 <= y < dims,
                ;
            }
            push_pixel(&mut atlas_buffer, coverage);
            proof {
                let base = y * dims + x;
                lemma_fundamental_div_mod_converse(base, dims as int, y as int, x as int);
                assert forall|i: int| base * 4 <= i < base * 4 + 4 implies #[trigger] spec_atlas_byte(
                    tab,
                    spec,
                    i,
                ) == coverage by {
                    lemma_fundamental_div_mod_converse(i, 4, base, i - base * 4);
                }
                assert(forall|i: int|
                    0 <= i < atlas_buffer@.len() ==> atlas_buffer@[i] == spec_atlas_byte(
                        tab,
                        spec,
                        i,
                    ));
            }
            x = x + 1;
        }
        proof {
            assert((y + 1) * dims == y * dims + dims) by (nonlinear_arith);
        }
        y = y + 1;
    }
    proof {
        assert forall|x: int, y: int, c: int|
            0 <= x < dims && 0 <= y < dims && 0 <= c < 4 implies atlas_buffer@[#[trigger] spec_pixel_byte_index(
            dims as int,
            x,
            y,
            c,
        )] == spec_atlas_coverage(tab, spec, x, y) by {
            let base = y * dims + x;
            assert(base + 1 <= dims * dims) by (nonlinear_arith)
                requires
                    0 <= x < dims,
                    0 <= y < dims,
                    base == y * dims + x,
            ;
            lemma_fundamental_div_mod_converse(base, dims as int, y, x);
            lemma_fundamental_div_mod_converse(base * 4 + c, 4, base, c);
        }
    }
    atlas_buffer
}

/// Every pixel of the composed buffer outside any glyph's slot rectangle, or
/// inside a slot but outside the owning sample's ink bounds, is exactly the
/// transparent pixel `(0, 0, 0, 0)`.
pub proof fn lemma_uncovered_pixels_transparent(
    tab: GlyphSampleTable,
    spec: AtlasSpec,
    buffer: Seq<u8>,
    x: int,
    y: int,
)
    requires
        tab.wf(),
        spec.wf(),
        0 <= x < spec.dimensions,
        0 <= y < spec.dimensions,
        buffer.len() == spec.dimensions * spec.dimensions * 4,
        forall|xx: int, yy: int, c: int|
            0 <= xx < spec.dimensions && 0 <= yy < spec.dimensions && 0 <= c < 4
                ==> buffer[#[trigger] spec_pixel_byte_index(spec.dimensions as int, xx, yy, c)]
                == spec_atlas_coverage(tab, spec, xx, yy),
        !spec_pixel_in_ink(tab, spec, x, y),
    ensures
        forall|c: int|
            0 <= c < 4 ==> buffer[#[trigger] spec_pixel_byte_index(
                spec.dimensions as int,
                x,
                y,
                c,
            )] == 0u8,
{
    assert(spec_atlas_coverage(tab, spec, x, y) == 0u8);
}

} // verus!
