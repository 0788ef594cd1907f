//! The per-glyph placement metadata and the calculator that derives it from
//! a sample table and a configuration. Placement values are exact fractions
//! of pixel quantities, so the persisted document reproduces them without
//! rounding: `x_min` and `y_min` are normalized by the image dimensions,
//! `width`, `height` and `y_offset` by the slot size.

use crate::config::AtlasSpec;
use crate::glyphs::{GlyphSample, GlyphSampleTable};
use crate::layout::{cell_of, pixel_rect_of, spec_cell_col, spec_cell_row};
use std::collections::HashMap;
use vstd::arithmetic::div_mod::lemma_fundamental_div_mod;
use vstd::prelude::*;

verus! {

broadcast use vstd::std_specs::hash::group_hash_axioms;

/// An exact fraction `numer / denom`. Placement metadata stores these instead
/// of rounded quotients so that persisting and reloading an atlas reproduces
/// the metadata bit for bit.
#[derive(Copy, Clone, Debug, PartialEq, Eq, Structural)]
pub struct Rational {
    /// The numerator, signed: baseline corrections reach below zero.
    pub numer: i64,
    /// The denominator: the normalizing pixel quantity, never zero in any
    /// value this library produces.
    pub denom: usize,
}

/// The parameters necessary to place one glyph of a bitmap font atlas:
/// where its slot lies in the image, how large its footprint is within the
/// slot, and how to correct it relative to the text baseline.
#[derive(Copy, Clone, Debug, PartialEq, Eq, Structural)]
pub struct GlyphMetadata {
    /// The code point this entry places.
    pub code_point: usize,
    /// Left edge of the slot, as a fraction of the image dimensions.
    pub x_min: Rational,
    /// Glyph footprint width, as a fraction of the slot size.
    pub width: Rational,
    /// Glyph footprint height, as a fraction of the slot size.
    pub height: Rational,
    /// Top edge of the slot, as a fraction of the image dimensions.
    pub y_min: Rational,
    /// Baseline correction, as a fraction of the slot size.
    pub y_offset: Rational,
}

impl GlyphMetadata {
    pub fn new(
        code_point: usize,
        width: Rational,
        height: Rational,
        x_min: Rational,
        y_min: Rational,
        y_offset: Rational,
    ) -> (metadata: GlyphMetadata)
        ensures
            metadata.code_point == code_point,
            metadata.width == width,
            metadata.height == height,
            metadata.x_min == x_min,
            metadata.y_min == y_min,
            metadata.y_offset == y_offset,
    {
        GlyphMetadata { code_point, width, height, x_min, y_min, y_offset }
    }
}

/// The fixed entry synthesized for the space character, which has no pixel
/// content: a footprint of zero width and half a slot of height, placed at
/// the left edge one full image below the top.
pub open spec fn spec_space_metadata() -> GlyphMetadata {
    GlyphMetadata {
        code_point: 32,
        width: Rational { numer: 0, denom: 1 },
        height: Rational { numer: 1, denom: 2 },
        x_min: Rational { numer: 0, denom: 1 },
        y_min: Rational { numer: 1, denom: 1 },
        y_offset: Rational { numer: 0, denom: 1 },
    }
}

/// The metadata entry for one sampled glyph: slot origin from the shared
/// grid layout normalized by the image dimensions, footprint and baseline
/// correction normalized by the slot size.
pub open spec fn spec_glyph_metadata(sample: GlyphSample, spec: AtlasSpec) -> GlyphMetadata {
    let col = spec_cell_col(sample.code_point as int, spec.columns as int);
    let row = spec_cell_row(sample.code_point as int, spec.columns as int);
    GlyphMetadata {
        code_point: sample.code_point,
        x_min: Rational {
            numer: (col * spec.slot_glyph_size) as i64,
            denom: spec.dimensions,
        },
        width: Rational {
            numer: (sample.width_px + spec.padding) as i64,
            denom: spec.slot_glyph_size,
        },
        height: Rational {
            numer: (sample.rows_px + spec.padding) as i64,
            denom: spec.slot_glyph_size,
        },
        y_min: Rational {
            numer: (row * spec.slot_glyph_size) as i64,
            denom: spec.dimensions,
        },
        y_offset: Rational {
            numer: (sample.baseline_min_y - spec.padding) as i64,
            denom: spec.slot_glyph_size,
        },
    }
}

/// The fixed space entry, as a value.
pub fn space_glyph_metadata() -> (metadata: GlyphMetadata)
    ensures
        metadata == spec_space_metadata(),
{
    GlyphMetadata {
        code_point: 32,
        width: Rational { numer: 0, denom: 1 },
        height: Rational { numer: 1, denom: 2 },
        x_min: Rational { numer: 0, denom: 1 },
        y_min: Rational { numer: 1, denom: 1 },
        y_offset: Rational { numer: 0, denom: 1 },
    }
}

/// The whole metadata document of an atlas: the configuration it was built
/// with and the placement entry for every supported code point.
#[derive(Clone, Debug, PartialEq)]
pub struct BitmapFontAtlasMetadata {
    /// The side length of the square atlas image, in pixels.
    pub dimensions: usize,
    /// The number of glyph slots per row.
    pub columns: usize,
    /// The number of glyph slot rows; the grid is square, so this equals
    /// `columns`.
    pub rows: usize,
    /// The padding reserved inside each slot, in pixels.
    pub padding: usize,
    /// The pixel size of one glyph slot, padding included.
    pub slot_glyph_size: usize,
    /// The pixel size of a glyph inside its slot.
    pub glyph_size: usize,
    /// One placement entry per code point of `[32, 255]`.
    pub glyph_metadata: HashMap<usize, GlyphMetadata>,
}

impl BitmapFontAtlasMetadata {
    /// Document invariant: exactly the supported code points are present,
    /// and every entry records the code point it is filed under.
    pub open spec fn wf(self) -> bool {
        &&& forall|c: usize| self.glyph_metadata@.contains_key(c) <==> (32 <= c < 256)
        &&& forall|c: usize|
            32 <= c < 256 ==> (#[trigger] self.glyph_metadata@[c]).code_point == c
    }

    /// Decide the document invariant at run time: exactly 224 entries, one
    /// per supported code point, each filed under its own code point. An
    /// unverified caller can use this to establish what the codec's
    /// contracts assume of a map it assembled itself.
    pub fn check_well_formed(&self) -> (r: bool)
        ensures
            r == self.wf(),
    {
        let mut cp: usize = 32;
        while cp < 256
            invariant
                32 <= cp <= 256,
                forall|c: usize| 32 <= c < cp ==> self.glyph_metadata@.contains_key(c),
                forall|c: usize|
                    32 <= c < cp ==> (#[trigger] self.glyph_metadata@[c]).code_point == c,
            decreases 256 - cp,
        {
            match self.glyph_metadata.get(&cp) {
                Some(entry) => {
                    if entry.code_point != cp {
                        return false;
                    }
                },
                None => {
                    return false;
                },
            }
            cp = cp + 1;
        }
        let ghost supported = Set::new(|c: usize| 32 <= c < 256);
        proof {
            lemma_usize_range_card(32, 256);
            assert(supported.subset_of(self.glyph_metadata@.dom()));
            assert(self.glyph_metadata@.dom().finite());
        }
        if self.glyph_metadata.len() != 224 {
            proof {
                if self.wf() {
                    assert(self.glyph_metadata@.dom() =~= supported);
                }
            }
            return false;
        }
        proof {
            assert forall|c: usize|
                self.glyph_metadata@.contains_key(c) implies 32 <= c < 256 by {
                if !(32 <= c < 256) {
                    assert(!supported.contains(c));
                    assert(supported.insert(c).subset_of(self.glyph_metadata@.dom()));
                    vstd::set_lib::lemma_len_subset(
                        supported.insert(c),
                        self.glyph_metadata@.dom(),
                    );
                    assert(supported.insert(c).len() == 225);
                }
            }
        }
        true
    }

    /// Two documents carry the same data: equal configuration fields and an
    /// identical metadata map (the same key/value pairs).
    pub open spec fn equivalent(self, other: BitmapFontAtlasMetadata) -> bool {
        &&& self.dimensions == other.dimensions
        &&& self.columns == other.columns
        &&& self.rows == other.rows
        &&& self.padding == other.padding
        &&& self.slot_glyph_size == other.slot_glyph_size
        &&& self.glyph_size == other.glyph_size
        &&& self.glyph_metadata@ == other.glyph_metadata@
    }
}

/// The set of code points in `[lo, hi)` has exactly `hi - lo` elements.
proof fn lemma_usize_range_card(lo: usize, hi: usize)
    requires
        lo <= hi,
    ensures
        Set::new(|c: usize| lo <= c < hi).finite(),
        Set::new(|c: usize| lo <= c < hi).len() == hi - lo,
    decreases hi - lo,
{
    if lo == hi {
        assert(Set::new(|c: usize| lo <= c < hi) =~= Set::<usize>::empty());
    } else {
        let prev = (hi - 1) as usize;
        lemma_usize_range_card(lo, prev);
        assert(Set::new(|c: usize| lo <= c < hi) =~= Set::new(|c: usize| lo <= c < prev).insert(
            prev,
        ));
    }
}

/// Calculate the placement metadata for every entry of the atlas: the fixed
/// space entry, plus one computed entry per sampled code point. The result
/// holds exactly one entry per code point of `[32, 255]` — 224 in all — and
/// is a pure function of the sample table and the configuration.
#[verifier::loop_isolation(false)]
pub fn create_bitmap_metadata(glyph_tab: &GlyphSampleTable, spec: AtlasSpec) -> (metadata: HashMap<
    usize,
    GlyphMetadata,
>)
    requires
        glyph_tab.wf(),
        spec.wf(),
        spec.dimensions * spec.dimensions * 4 <= usize::MAX,
    ensures
        forall|c: usize| metadata@.contains_key(c) <==> (32 <= c < 256),
        metadata@.dom().len() == 224,
        metadata@[32] == spec_space_metadata(),
        forall|c: usize|
            33 <= c < 256 ==> #[trigger] metadata@[c] == spec_glyph_metadata(
                glyph_tab.spec_sample(c as int),
                spec,
            ),
{
    proof {
        assert(spec.dimensions < 0x8000_0000 && spec.slot_glyph_size <= spec.dimensions
            && spec.columns <= spec.dimensions) by (nonlinear_arith)
            requires
                spec.dimensions * spec.dimensions * 4 <= 0xFFFF_FFFF_FFFF_FFFFu64,
                spec.dimensions == spec.slot_glyph_size * spec.columns,
                spec.columns >= 1,
                spec.slot_glyph_size >= 1,
        ;
    }
    let mut metadata: HashMap<usize, GlyphMetadata> = HashMap::new();
    metadata.insert(32, space_glyph_metadata());
    let mut i: usize = 33;
    while i < 256
        invariant
            33 <= i <= 256,
            forall|c: usize| metadata@.contains_key(c) <==> (32 <= c < i),
            metadata@.dom().len() == i - 32,
            metadata@[32] == spec_space_metadata(),
            forall|c: usize|
                33 <= c < i ==> #[trigger] metadata@[c] == spec_glyph_metadata(
                    glyph_tab.spec_sample(c as int),
                    spec,
                ),
        decreases 256 - i,
    {
        let sample = glyph_tab.sample_at(i);
        let (col, row) = cell_of(i, spec.columns);
        proof {
            lemma_fundamental_div_mod(i - 32, spec.columns as int);
            assert(usize::MAX >= 0xFFFF_FFFF);
            assert(col * spec.slot_glyph_size < spec.dimensions && row * spec.slot_glyph_size
                <= 223 * spec.dimensions && 223 * spec.dimensions <= usize::MAX)
                by (nonlinear_arith)
                requires
                    0 <= col < spec.columns,
                    i as int - 32 == spec.columns * row + col,
                    1 <= i - 32 <= 223,
                    spec.columns >= 1,
                    spec.slot_glyph_size >= 1,
                    spec.slot_glyph_size <= spec.dimensions,
                    spec.dimensions == spec.slot_glyph_size * spec.columns,
                    spec.dimensions * spec.dimensions * 4 <= usize::MAX,
                    usize::MAX >= 0xFFFF_FFFF,
                    row >= 0,
            ;
        }
        let (x_min_px, y_min_px, _, _) = pixel_rect_of(col, row, spec.slot_glyph_size);
        let entry = GlyphMetadata {
            code_point: i,
            x_min: Rational { numer: x_min_px as i64, denom: spec.dimensions },
            width: Rational {
                numer: (sample.width_px as i64) + (spec.padding as i64),
                denom: spec.slot_glyph_size,
            },
            height: Rational {
                numer: (sample.rows_px as i64) + (spec.padding as i64),
                denom: spec.slot_glyph_size,
            },
            y_min: Rational { numer: y_min_px as i64, denom: spec.dimensions },
            y_offset: Rational {
                numer: sample.baseline_min_y - (spec.padding as i64),
                denom: spec.slot_glyph_size,
            },
        };
        metadata.insert(i, entry);
        i = i + 1;
    }
    metadata
}

} // verus!
