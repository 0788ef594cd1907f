//! The typeface rasterizer boundary. The rasterizer is an outside
//! collaborator (FreeType); everything it hands back is either opaque or
//! validated before the library builds on it. FreeType reuses one internal
//! glyph buffer between characters, so each sample's bytes are copied out
//! immediately after rendering, before the next character is requested.

use crate::config::AtlasSpec;
use crate::glyphs::{GlyphImage, GlyphSample, GlyphSampleTable};
use vstd::prelude::*;

verus! {

#[verifier::external_type_specification]
#[verifier::external_body]
#[verifier::reject_recursive_types(BYTES)]
pub struct ExFace<BYTES>(freetype::face::Face<BYTES>);

#[verifier::external_type_specification]
#[verifier::external_body]
pub struct ExGlyphSlot(freetype::glyph_slot::GlyphSlot);

#[verifier::external_type_specification]
#[verifier::external_body]
pub struct ExBitmap(freetype::bitmap::Bitmap);

#[verifier::external_type_specification]
#[verifier::external_body]
pub struct ExGlyph(freetype::glyph::Glyph);

/// A typeface loaded by the front end, ready to rasterize.
pub type FontFace = freetype::face::Face<std::rc::Rc<Vec<u8>>>;

/// Relies on FreeType's `Face::set_pixel_sizes`: asks the rasterizer for
/// this pixel size on later loads; `Ok` exactly when FreeType accepted it.
/// A failure is handed back as the raw FreeType error code.
#[verifier::external_body]
fn ft_set_pixel_sizes(face: &FontFace, width: u32, height: u32) -> (r: Result<(), i32>) {
    match face.set_pixel_sizes(width, height) {
        Ok(unit) => Ok(unit),
        Err(e) => Err(e as i32),
    }
}

/// Relies on FreeType's `Face::load_char` with the render flag: loads the
/// glyph of one code point into the face's single glyph slot and renders
/// it. A failure is handed back as the raw FreeType error code.
#[verifier::external_body]
fn ft_load_char_render(face: &FontFace, code_point: usize) -> (r: Result<(), i32>) {
    match face.load_char(code_point, freetype::face::LoadFlag::RENDER) {
        Ok(unit) => Ok(unit),
        Err(e) => Err(e as i32),
    }
}

/// Relies on FreeType's `Face::glyph`: the face's single glyph slot, which
/// holds whatever character was loaded last.
#[verifier::external_body]
fn ft_glyph_slot<'a>(face: &'a FontFace) -> (r: &'a freetype::glyph_slot::GlyphSlot) {
    face.glyph()
}

/// Relies on FreeType's `GlyphSlot::render_glyph` in normal anti-aliased
/// mode: turns the loaded glyph into an 8-bit coverage bitmap. A failure is
/// handed back as the raw FreeType error code.
#[verifier::external_body]
fn ft_render_glyph_normal(slot: &freetype::glyph_slot::GlyphSlot) -> (r: Result<(), i32>) {
    match slot.render_glyph(freetype::RenderMode::Normal) {
        Ok(unit) => Ok(unit),
        Err(e) => Err(e as i32),
    }
}

/// Relies on FreeType's `GlyphSlot::bitmap`: a handle to the rendered
/// bitmap of the glyph slot.
#[verifier::external_body]
fn ft_bitmap(slot: &freetype::glyph_slot::GlyphSlot) -> (r: freetype::bitmap::Bitmap) {
    slot.bitmap()
}

/// Relies on FreeType's `Bitmap::rows`: the height of the bitmap in rows.
#[verifier::external_body]
fn ft_bitmap_rows(bitmap: &freetype::bitmap::Bitmap) -> (r: i32) {
    bitmap.rows()
}

/// Relies on FreeType's `Bitmap::width`: the pixels per bitmap row.
#[verifier::external_body]
fn ft_bitmap_width(bitmap: &freetype::bitmap::Bitmap) -> (r: i32) {
    bitmap.width()
}

/// Relies on FreeType's `Bitmap::pitch`: the bytes per bitmap row.
#[verifier::external_body]
fn ft_bitmap_pitch(bitmap: &freetype::bitmap::Bitmap) -> (r: i32) {
    bitmap.pitch()
}

/// Relies on FreeType's `Bitmap::buffer`: copies the transient coverage
/// bytes out of the rasterizer's internal buffer.
#[verifier::external_body]
fn ft_bitmap_data(bitmap: &freetype::bitmap::Bitmap) -> (r: Vec<u8>) {
    bitmap.buffer().to_vec()
}

/// Relies on FreeType's `GlyphSlot::get_glyph`: a glyph object detached
/// from the slot, used to read the bounding box. A failure is handed back
/// as the raw FreeType error code.
#[verifier::external_body]
fn ft_get_glyph(slot: &freetype::glyph_slot::GlyphSlot) -> (r: Result<
    freetype::glyph::Glyph,
    i32,
>) {
    match slot.get_glyph() {
        Ok(glyph) => Ok(glyph),
        Err(e) => Err(e as i32),
    }
}

/// Relies on FreeType's `Glyph::get_cbox` in truncated (pixel) mode: the
/// lowest extent of the glyph relative to the baseline, in pixels.
#[verifier::external_body]
fn ft_glyph_cbox_truncated_min_y(glyph: &freetype::glyph::Glyph) -> (r: i64) {
    glyph.get_cbox(freetype::ffi::FT_GLYPH_BBOX_TRUNCATE).yMin as i64
}

/// A failure while sampling the typeface: which step failed, on which code
/// point, with the rasterizer's raw error code where there is one.
#[derive(Clone, Copy, Debug, PartialEq, Eq, Structural)]
pub enum SampleTypefaceError {
    SetPixelSize(i32, usize, usize),
    LoadCharacter(i32, usize),
    RenderCharacter(i32, usize),
    GetGlyphImage(i32, usize),
    InvalidGlyphBitmap(usize),
}

/// Sample one coverage bitmap per code point of `[33, 255]` from the
/// typeface. Sampling is strictly sequential and copies every bitmap out of
/// the rasterizer before the next request. The build fails atomically: any
/// failure aborts the whole table with the offending code point and step,
/// and a success is a well-formed table — every sample validated, in code
/// point order.
pub fn sample_typeface(face: &FontFace, spec: AtlasSpec) -> (result: Result<
    GlyphSampleTable,
    SampleTypefaceError,
>)
    requires
        spec.wf(),
        spec.glyph_size <= u32::MAX,
    ensures
        result matches Ok(table) ==> table.wf(),
        result matches Err(SampleTypefaceError::SetPixelSize(_, cp, px)) ==> cp == 0 && px
            == spec.glyph_size,
        result matches Err(SampleTypefaceError::LoadCharacter(_, cp)) ==> 33 <= cp < 256,
        result matches Err(SampleTypefaceError::RenderCharacter(_, cp)) ==> 33 <= cp < 256,
        result matches Err(SampleTypefaceError::GetGlyphImage(_, cp)) ==> 33 <= cp < 256,
        result matches Err(SampleTypefaceError::InvalidGlyphBitmap(cp)) ==> 33 <= cp < 256,
{
    if let Err(e) = ft_set_pixel_sizes(face, 0, spec.glyph_size as u32) {
        return Err(SampleTypefaceError::SetPixelSize(e, 0, spec.glyph_size));
    }
    let mut samples: Vec<GlyphSample> = Vec::new();
    let mut i: usize = 33;
    while i < 256
        invariant
            33 <= i <= 256,
            samples@.len() == i - 33,
            forall|k: int|
                0 <= k < samples@.len() ==> (#[trigger] samples@[k]).wf() && samples@[k].code_point
                    == 33 + k,
        decreases 256 - i,
    {
        if let Err(e) = ft_load_char_render(face, i) {
            return Err(SampleTypefaceError::LoadCharacter(e, i));
        }
        let slot = ft_glyph_slot(face);
        if let Err(e) = ft_render_glyph_normal(slot) {
            return Err(SampleTypefaceError::RenderCharacter(e, i));
        }
        let bitmap = ft_bitmap(slot);
        let rows = ft_bitmap_rows(&bitmap);
        let width = ft_bitmap_width(&bitmap);
        let pitch = ft_bitmap_pitch(&bitmap);
        let data = ft_bitmap_data(&bitmap);
        let glyph = match ft_get_glyph(slot) {
            Ok(glyph) => glyph,
            Err(e) => {
                return Err(SampleTypefaceError::GetGlyphImage(e, i));
            },
        };
        let baseline_min_y = ft_glyph_cbox_truncated_min_y(&glyph);
        let image = GlyphImage::new(data);
        let sample = match GlyphSample::from_raster(i, width, rows, pitch, baseline_min_y, image) {
            Some(sample) => sample,
            None => {
                return Err(SampleTypefaceError::InvalidGlyphBitmap(i));
            },
        };
        samples.push(sample);
        i = i + 1;
    }
    Ok(GlyphSampleTable { samples })
}

} // verus!
