//! The assembled bitmap font atlas: the metadata document and the packed
//! RGBA image, built from one pass over the typeface and persisted together.

use crate::compositor::{create_bitmap_buffer, spec_atlas_coverage, spec_pixel_byte_index};
use crate::config::AtlasSpec;
use crate::glyphs::GlyphSampleTable;
use crate::metadata::{
    create_bitmap_metadata, spec_glyph_metadata, spec_space_metadata, BitmapFontAtlasMetadata,
    GlyphMetadata,
};
use crate::rasterizer::{sample_typeface, FontFace, SampleTypefaceError};
use vstd::arithmetic::div_mod::{
    lemma_div_pos_is_pos, lemma_fundamental_div_mod, lemma_mod_division_less_than_divisor,
    lemma_multiply_divide_lt,
};
use vstd::prelude::*;

verus! {

/// A bitmapped font sheet: the glyph placement metadata and the packed
/// bitmap image it indexes into.
pub struct BitmapFontAtlas {
    /// The metadata document: configuration and per-glyph placement.
    pub metadata: BitmapFontAtlasMetadata,
    /// The packed RGBA image, row-major, four bytes per pixel.
    pub buffer: Vec<u8>,
}

impl BitmapFontAtlas {
    pub fn new(metadata: BitmapFontAtlasMetadata, buffer: Vec<u8>) -> (atlas: BitmapFontAtlas)
        ensures
            atlas.metadata == metadata,
            atlas.buffer == buffer,
    {
        BitmapFontAtlas { metadata, buffer }
    }
}

/// The atlas was computed from this sample table under this configuration:
/// the metadata map holds the synthetic space entry and the computed entry
/// of every sampled glyph, and every byte of the image is the coverage value
/// the shared layout assigns to its pixel.
pub open spec fn spec_atlas_of(
    atlas: BitmapFontAtlas,
    tab: GlyphSampleTable,
    spec: AtlasSpec,
) -> bool {
    &&& tab.wf()
    &&& forall|c: usize| atlas.metadata.glyph_metadata@.contains_key(c) <==> (32 <= c < 256)
    &&& atlas.metadata.glyph_metadata@[32] == spec_space_metadata()
    &&& forall|c: usize|
        33 <= c < 256 ==> #[trigger] atlas.metadata.glyph_metadata@[c] == spec_glyph_metadata(
            tab.spec_sample(c as int),
            spec,
        )
    &&& atlas.buffer@.len() == spec.dimensions * spec.dimensions * 4
    &&& forall|x: int, y: int, c: int|
        0 <= x < spec.dimensions && 0 <= y < spec.dimensions && 0 <= c < 4
            ==> atlas.buffer@[#[trigger] spec_pixel_byte_index(spec.dimensions as int, x, y, c)]
            == spec_atlas_coverage(tab, spec, x, y)
}

/// Create a bitmapped atlas from a vector typeface: sample every supported
/// code point, then derive the placement metadata and the packed image from
/// the one sample table, so the two cannot disagree. Fails atomically with
/// the first sampling error.
pub fn create_bitmap_atlas(face: &FontFace, spec: AtlasSpec) -> (result: Result<
    BitmapFontAtlas,
    SampleTypefaceError,
>)
    requires
        spec.wf(),
        spec.glyph_size <= u32::MAX,
        spec.dimensions * spec.dimensions * 4 <= usize::MAX,
    ensures
        result matches Ok(atlas) ==> {
            &&& atlas.metadata.wf()
            &&& atlas.metadata.dimensions == spec.dimensions
            &&& atlas.metadata.columns == spec.columns
            &&& atlas.metadata.rows == spec.columns
            &&& atlas.metadata.padding == spec.padding
            &&& atlas.metadata.slot_glyph_size == spec.slot_glyph_size
            &&& atlas.metadata.glyph_size == spec.glyph_size
            &&& exists|tab: GlyphSampleTable| spec_atlas_of(atlas, tab, spec)
        },
{
    let glyph_tab = match sample_typeface(face, spec) {
        Ok(table) => table,
        Err(e) => {
            return Err(e);
        },
    };
    let glyph_metadata = create_bitmap_metadata(&glyph_tab, spec);
    let atlas_image = create_bitmap_buffer(&glyph_tab, spec);
    let metadata = BitmapFontAtlasMetadata {
        dimensions: spec.dimensions,
        columns: spec.columns,
        rows: spec.columns,
        padding: spec.padding,
        slot_glyph_size: spec.slot_glyph_size,
        glyph_size: spec.glyph_size,
        glyph_metadata,
    };
    let atlas = BitmapFontAtlas::new(metadata, atlas_image);
    proof {
        assert forall|c: usize|
            32 <= c < 256 implies (#[trigger] atlas.metadata.glyph_metadata@[c]).code_point
            == c by {
            if c >= 33 {
                assert(atlas.metadata.glyph_metadata@[c] == spec_glyph_metadata(
                    glyph_tab.spec_sample(c as int),
                    spec,
                ));
            }
        }
        assert(spec_atlas_of(atlas, glyph_tab, spec));
    }
    Ok(atlas)
}

/// The pixel composition is deterministic: any two buffers that satisfy the
/// compositor's contract for the same sample table and configuration are
/// byte-identical. Re-running the pipeline on the same inputs reproduces the
/// image exactly.
pub proof fn lemma_compositor_deterministic(
    tab: GlyphSampleTable,
    spec: AtlasSpec,
    buffer1: Seq<u8>,
    buffer2: Seq<u8>,
)
    requires
        spec.wf(),
        buffer1.len() == spec.dimensions * spec.dimensions * 4,
        buffer2.len() == spec.dimensions * spec.dimensions * 4,
        forall|x: int, y: int, c: int|
            0 <= x < spec.dimensions && 0 <= y < spec.dimensions && 0 <= c < 4
                ==> buffer1[#[trigger] spec_pixel_byte_index(spec.dimensions as int, x, y, c)]
                == spec_atlas_coverage(tab, spec, x, y),
        forall|x: int, y: int, c: int|
            0 <= x < spec.dimensions && 0 <= y < spec.dimensions && 0 <= c < 4
                ==> buffer2[#[trigger] spec_pixel_byte_index(spec.dimensions as int, x, y, c)]
                == spec_atlas_coverage(tab, spec, x, y),
    ensures
        buffer1 == buffer2,
{
    let dims = spec.dimensions as int;
    assert(dims > 0) by (nonlinear_arith)
        requires
            dims == spec.slot_glyph_size * spec.columns,
            spec.slot_glyph_size >= 1,
            spec.columns >= 1,
    ;
    assert forall|i: int| 0 <= i < buffer1.len() implies buffer1[i] == buffer2[i] by {
        let pixel = i / 4;
        let c = i % 4;
        let x = pixel % dims;
        let y = pixel / dims;
        lemma_fundamental_div_mod(i, 4);
        lemma_fundamental_div_mod(pixel, dims);
        lemma_div_pos_is_pos(i, 4);
        assert(i < 4 * (dims * dims));
        lemma_multiply_divide_lt(i, 4, dims * dims);
        lemma_multiply_divide_lt(pixel, dims, dims);
        lemma_mod_division_less_than_divisor(pixel, dims);
        lemma_div_pos_is_pos(pixel, dims);
        assert(i == spec_pixel_byte_index(dims, x, y, c));
    }
    assert(buffer1 =~= buffer2);
}

/// The metadata calculation is deterministic: any two maps that satisfy the
/// calculator's contract for the same sample table and configuration are
/// identical. Re-running the pipeline on the same inputs reproduces the
/// metadata exactly.
pub proof fn lemma_metadata_deterministic(
    tab: GlyphSampleTable,
    spec: AtlasSpec,
    map1: Map<usize, GlyphMetadata>,
    map2: Map<usize, GlyphMetadata>,
)
    requires
        forall|c: usize| map1.contains_key(c) <==> (32 <= c < 256),
        forall|c: usize| map2.contains_key(c) <==> (32 <= c < 256),
        map1[32] == spec_space_metadata(),
        map2[32] == spec_space_metadata(),
        forall|c: usize|
            33 <= c < 256 ==> #[trigger] map1[c] == spec_glyph_metadata(
                tab.spec_sample(c as int),
                spec,
            ),
        forall|c: usize|
            33 <= c < 256 ==> #[trigger] map2[c] == spec_glyph_metadata(
                tab.spec_sample(c as int),
                spec,
            ),
    ensures
        map1 == map2,
{
    assert(map1 =~= map2);
}

} // verus!
