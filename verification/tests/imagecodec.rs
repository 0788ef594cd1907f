use bmfa::compositor::create_bitmap_buffer;
use bmfa::config::AtlasSpec;
use bmfa::glyphs::{GlyphImage, GlyphSample, GlyphSampleTable};
use image::codecs::png::PngEncoder;
use image::ImageEncoder;

fn sample_table() -> GlyphSampleTable {
    let mut samples: Vec<GlyphSample> = Vec::new();
    for code_point in 33..256 {
        let value = (code_point % 241) as u8;
        let image = GlyphImage::new(vec![value; 4]);
        let sample = GlyphSample::from_raster(code_point, 2, 2, 2, -1, image)
            .expect("consistent dimensions must be accepted");
        samples.push(sample);
    }
    GlyphSampleTable { samples }
}

#[test]
fn atlas_buffer_survives_the_image_codec_pixel_for_pixel() {
    let table = sample_table();
    let spec = AtlasSpec::new(64, 16, 0, 4, 4);
    let buffer = create_bitmap_buffer(&table, spec);

    // Encode the raw RGBA buffer to PNG in memory, as the writer does.
    let mut encoded: Vec<u8> = Vec::new();
    PngEncoder::new(&mut encoded)
        .write_image(
            &buffer,
            spec.dimensions as u32,
            spec.dimensions as u32,
            image::ExtendedColorType::Rgba8,
        )
        .expect("PNG encoding of a raw RGBA buffer succeeds");

    // Decode it back with the reader's codec, forcing four channels.
    match stb_image::image::load_from_memory_with_depth(&encoded, 4, false) {
        stb_image::image::LoadResult::ImageU8(decoded) => {
            assert_eq!(decoded.width, spec.dimensions);
            assert_eq!(decoded.height, spec.dimensions);
            assert_eq!(decoded.depth, 4);
            assert_eq!(decoded.data, buffer);
        },
        _ => panic!("the image codec must hand back 8-bit pixels"),
    }
}
