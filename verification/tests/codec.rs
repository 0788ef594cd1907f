use bmfa::codec::{decode_metadata, encode_metadata, Error, DOCUMENT_BYTES};
use bmfa::config::AtlasSpec;
use bmfa::glyphs::{GlyphImage, GlyphSample, GlyphSampleTable};
use bmfa::metadata::{create_bitmap_metadata, BitmapFontAtlasMetadata};

fn sample_table() -> GlyphSampleTable {
    let mut samples: Vec<GlyphSample> = Vec::new();
    for code_point in 33..256 {
        let value = (code_point % 199) as u8;
        let image = GlyphImage::new(vec![value; 6]);
        let sample = GlyphSample::from_raster(code_point, 2, 3, 2, -4, image)
            .expect("consistent dimensions must be accepted");
        samples.push(sample);
    }
    GlyphSampleTable { samples }
}

fn atlas_metadata() -> BitmapFontAtlasMetadata {
    let spec = AtlasSpec::from_options(64, 6);
    BitmapFontAtlasMetadata {
        dimensions: spec.dimensions,
        columns: spec.columns,
        rows: spec.columns,
        padding: spec.padding,
        slot_glyph_size: spec.slot_glyph_size,
        glyph_size: spec.glyph_size,
        glyph_metadata: create_bitmap_metadata(&sample_table(), spec),
    }
}

#[test]
fn metadata_round_trips_through_the_document() {
    let metadata = atlas_metadata();
    let document = encode_metadata(&metadata);
    let decoded = decode_metadata(&document, String::from("FontMono.bmfa"))
        .expect("a document written by the encoder parses");
    assert_eq!(decoded, metadata);
}

#[test]
fn encoding_is_deterministic() {
    let metadata = atlas_metadata();
    assert_eq!(encode_metadata(&metadata), encode_metadata(&metadata));
}

#[test]
fn document_is_line_structured_text() {
    let metadata = atlas_metadata();
    let document = encode_metadata(&metadata);
    assert_eq!(document.len(), DOCUMENT_BYTES);
    // 22 bytes per line: a sign, twenty decimal digits, a newline.
    assert_eq!(document.len() % 22, 0);
    for line in document.chunks(22) {
        assert!(line[0] == b'+' || line[0] == b'-');
        assert!(line[1..21].iter().all(|b| b.is_ascii_digit()));
        assert_eq!(line[21], b'\n');
    }
    // The first line carries the atlas dimensions.
    assert_eq!(&document[0..22], b"+00000000000000001024\n");
}

#[test]
fn decode_rejects_the_empty_document() {
    match decode_metadata(&Vec::new(), String::from("FontMono.bmfa")) {
        Err(Error::CouldNotParseFontFile(path)) => assert_eq!(path, "FontMono.bmfa"),
        _ => panic!("expected the malformed-document error"),
    }
}

#[test]
fn decode_rejects_a_truncated_document() {
    let metadata = atlas_metadata();
    let mut document = encode_metadata(&metadata);
    document.truncate(document.len() - 1);
    assert!(decode_metadata(&document, String::from("FontMono.bmfa")).is_err());
}

#[test]
fn decode_rejects_a_corrupted_digit() {
    let metadata = atlas_metadata();
    let mut document = encode_metadata(&metadata);
    document[5] = b'x';
    assert!(decode_metadata(&document, String::from("FontMono.bmfa")).is_err());
}

#[test]
fn decode_rejects_reordered_records() {
    let metadata = atlas_metadata();
    let mut document = encode_metadata(&metadata);
    // Swap the code point lines of the first two glyph records: the decoder
    // insists on the canonical code point order.
    let first = 132;
    let second = 132 + 242;
    for offset in 0..22 {
        document.swap(first + offset, second + offset);
    }
    assert!(decode_metadata(&document, String::from("FontMono.bmfa")).is_err());
}

#[test]
fn decoded_negative_offsets_keep_their_sign() {
    let metadata = atlas_metadata();
    let document = encode_metadata(&metadata);
    let decoded = decode_metadata(&document, String::from("FontMono.bmfa")).unwrap();
    let entry = decoded.glyph_metadata.get(&65).unwrap();
    // baseline_min_y -4 minus padding 6, over the slot size.
    assert_eq!((entry.y_offset.numer, entry.y_offset.denom), (-10, 64));
}
