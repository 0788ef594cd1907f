use bmfa::compositor::create_bitmap_buffer;
use bmfa::config::AtlasSpec;
use bmfa::glyphs::{GlyphImage, GlyphSample, GlyphSampleTable};
use bmfa::metadata::{create_bitmap_metadata, BitmapFontAtlasMetadata};

/// A table whose every sample is a 2 by 2 bitmap filled with one coverage
/// value derived from the code point, sitting one pixel below the baseline.
fn uniform_sample_table() -> GlyphSampleTable {
    let mut samples: Vec<GlyphSample> = Vec::new();
    for code_point in 33..256 {
        let value = (code_point % 251) as u8;
        let image = GlyphImage::new(vec![value; 4]);
        let sample = GlyphSample::from_raster(code_point, 2, 2, 2, -1, image)
            .expect("consistent dimensions must be accepted");
        samples.push(sample);
    }
    GlyphSampleTable { samples }
}

#[test]
fn from_raster_rejects_inconsistent_dimensions() {
    // Three bytes cannot be a 2 by 2 bitmap with a stride of 2.
    assert!(GlyphSample::from_raster(65, 2, 2, 2, 0, GlyphImage::new(vec![0; 3])).is_none());
    // A stride narrower than the width leaves pixels outside the data.
    assert!(GlyphSample::from_raster(65, 4, 1, 2, 0, GlyphImage::new(vec![0; 2])).is_none());
    // Negative dimensions are not a bitmap.
    assert!(GlyphSample::from_raster(65, -1, 2, 2, 0, GlyphImage::new(vec![])).is_none());
}

#[test]
fn metadata_has_224_entries_with_unique_code_points() {
    let table = uniform_sample_table();
    let spec = AtlasSpec::from_options(64, 6);
    let metadata = create_bitmap_metadata(&table, spec);
    assert_eq!(metadata.len(), 224);
    for code_point in 32..256 {
        let entry = metadata
            .get(&code_point)
            .expect("every supported code point has an entry");
        assert_eq!(entry.code_point, code_point);
    }
    assert!(metadata.get(&31).is_none());
    assert!(metadata.get(&256).is_none());
}

#[test]
fn metadata_space_entry_is_synthesized_with_fixed_values() {
    let table = uniform_sample_table();
    let spec = AtlasSpec::from_options(64, 6);
    let metadata = create_bitmap_metadata(&table, spec);
    let space = metadata.get(&32).expect("space entry");
    assert_eq!(space.code_point, 32);
    assert_eq!((space.x_min.numer, space.x_min.denom), (0, 1));
    assert_eq!((space.y_min.numer, space.y_min.denom), (1, 1));
    assert_eq!((space.width.numer, space.width.denom), (0, 1));
    assert_eq!((space.height.numer, space.height.denom), (1, 2));
    assert_eq!((space.y_offset.numer, space.y_offset.denom), (0, 1));
}

#[test]
fn metadata_entry_follows_the_placement_formulas() {
    let table = uniform_sample_table();
    let spec = AtlasSpec::from_options(64, 6);
    let metadata = create_bitmap_metadata(&table, spec);
    // Code point 65: order 33, column 1, row 2 under 16 columns.
    let entry = metadata.get(&65).expect("entry for letter A");
    assert_eq!((entry.x_min.numer, entry.x_min.denom), (64, 1024));
    assert_eq!((entry.y_min.numer, entry.y_min.denom), (128, 1024));
    // Footprint: raster dimension 2 plus padding 6, over the slot size.
    assert_eq!((entry.width.numer, entry.width.denom), (8, 64));
    assert_eq!((entry.height.numer, entry.height.denom), (8, 64));
    // Baseline correction: baseline_min_y -1 minus padding 6, over the slot.
    assert_eq!((entry.y_offset.numer, entry.y_offset.denom), (-7, 64));
}

#[test]
fn buffer_has_four_bytes_per_pixel_of_the_square_image() {
    let table = uniform_sample_table();
    let spec = AtlasSpec::new(64, 16, 0, 4, 4);
    let buffer = create_bitmap_buffer(&table, spec);
    assert_eq!(buffer.len(), 64 * 64 * 4);
}

fn pixel_of(buffer: &[u8], dims: usize, x: usize, y: usize) -> [u8; 4] {
    let base = (y * dims + x) * 4;
    [buffer[base], buffer[base + 1], buffer[base + 2], buffer[base + 3]]
}

#[test]
fn buffer_replicates_coverage_into_all_four_channels() {
    let table = uniform_sample_table();
    // Slot size 4, no padding: each glyph's 2 by 2 bitmap sits at its
    // slot's origin.
    let spec = AtlasSpec::new(64, 16, 0, 4, 4);
    let buffer = create_bitmap_buffer(&table, spec);
    // Code point 33 owns the slot at column 1, row 0.
    let value = (33 % 251) as u8;
    assert_eq!(pixel_of(&buffer, 64, 4, 0), [value; 4]);
    assert_eq!(pixel_of(&buffer, 64, 5, 1), [value; 4]);
}

#[test]
fn pixels_outside_ink_and_outside_slots_are_transparent() {
    let table = uniform_sample_table();
    let spec = AtlasSpec::new(64, 16, 0, 4, 4);
    let buffer = create_bitmap_buffer(&table, spec);
    // The first slot belongs to the space character: no pixel content.
    assert_eq!(pixel_of(&buffer, 64, 0, 0), [0; 4]);
    assert_eq!(pixel_of(&buffer, 64, 3, 3), [0; 4]);
    // Inside the slot of code point 33 but outside its 2 by 2 ink bounds.
    assert_eq!(pixel_of(&buffer, 64, 6, 2), [0; 4]);
    // Below the last populated grid row.
    assert_eq!(pixel_of(&buffer, 64, 0, 60), [0; 4]);
}

#[test]
fn padding_shifts_the_ink_into_the_slot() {
    let table = uniform_sample_table();
    // Slot size 8, padding 2: ink starts one pixel (half the padding) into
    // the slot.
    let spec = AtlasSpec::new(128, 16, 2, 8, 6);
    let buffer = create_bitmap_buffer(&table, spec);
    let value = (33 % 251) as u8;
    // Slot of code point 33 starts at x = 8; its ink covers 9..11 by 1..3.
    assert_eq!(pixel_of(&buffer, 128, 8, 1), [0; 4]);
    assert_eq!(pixel_of(&buffer, 128, 9, 1), [value; 4]);
    assert_eq!(pixel_of(&buffer, 128, 10, 2), [value; 4]);
    assert_eq!(pixel_of(&buffer, 128, 11, 1), [0; 4]);
}

#[test]
fn rerunning_the_pipeline_reproduces_identical_output() {
    let table = uniform_sample_table();
    let spec = AtlasSpec::from_options(8, 2);
    let metadata_first = create_bitmap_metadata(&table, spec);
    let metadata_second = create_bitmap_metadata(&table, spec);
    assert_eq!(metadata_first, metadata_second);
    let buffer_first = create_bitmap_buffer(&table, spec);
    let buffer_second = create_bitmap_buffer(&table, spec);
    assert_eq!(buffer_first, buffer_second);
}

#[test]
fn well_formed_check_accepts_the_calculator_output() {
    let table = uniform_sample_table();
    let spec = AtlasSpec::from_options(8, 2);
    let metadata = BitmapFontAtlasMetadata {
        dimensions: spec.dimensions,
        columns: spec.columns,
        rows: spec.columns,
        padding: spec.padding,
        slot_glyph_size: spec.slot_glyph_size,
        glyph_size: spec.glyph_size,
        glyph_metadata: create_bitmap_metadata(&table, spec),
    };
    assert!(metadata.check_well_formed());
}

#[test]
fn well_formed_check_rejects_a_missing_or_mislabeled_entry() {
    let table = uniform_sample_table();
    let spec = AtlasSpec::from_options(8, 2);
    let mut metadata = BitmapFontAtlasMetadata {
        dimensions: spec.dimensions,
        columns: spec.columns,
        rows: spec.columns,
        padding: spec.padding,
        slot_glyph_size: spec.slot_glyph_size,
        glyph_size: spec.glyph_size,
        glyph_metadata: create_bitmap_metadata(&table, spec),
    };
    let mut entry = *metadata.glyph_metadata.get(&65).unwrap();
    metadata.glyph_metadata.remove(&65);
    assert!(!metadata.check_well_formed());
    entry.code_point = 66;
    metadata.glyph_metadata.insert(65, entry);
    assert!(!metadata.check_well_formed());
}
