//! The atlas configuration and the validation of user input. An `AtlasSpec`
//! describes the dimensions of the atlas and of each glyph slot; its
//! invariant ties the image size to an exact square tiling of slots.

use vstd::prelude::*;

verus! {

/// The atlas specification: a description of the dimensions of the atlas and
/// the dimensions of each glyph slot in the atlas. Immutable once built.
#[derive(Copy, Clone)]
pub struct AtlasSpec {
    /// The side length of the square atlas image, in pixels.
    pub dimensions: usize,
    /// The number of glyph slots per row in the atlas.
    pub columns: usize,
    /// The total padding reserved inside a slot for outlines, in pixels.
    pub padding: usize,
    /// The pixel size of one glyph slot, padding included.
    pub slot_glyph_size: usize,
    /// The pixel size of a glyph inside the slot, leaving room for padding.
    pub glyph_size: usize,
}

impl AtlasSpec {
    /// The configuration invariant: the square grid tiles the image exactly,
    /// the padding fits inside a slot, and the glyph size is what remains of
    /// a slot after padding.
    pub open spec fn wf(self) -> bool {
        &&& self.columns > 0
        &&& self.slot_glyph_size > 0
        &&& self.padding <= self.slot_glyph_size
        &&& self.glyph_size == self.slot_glyph_size - self.padding
        &&& self.dimensions == self.slot_glyph_size * self.columns
    }

    pub fn new(
        dimensions: usize,
        columns: usize,
        padding: usize,
        slot_glyph_size: usize,
        glyph_size: usize,
    ) -> (spec: AtlasSpec)
        requires
            columns > 0,
            slot_glyph_size > 0,
            padding <= slot_glyph_size,
            glyph_size == slot_glyph_size - padding,
            dimensions == slot_glyph_size * columns,
        ensures
            spec.wf(),
            spec.dimensions == dimensions,
            spec.columns == columns,
            spec.padding == padding,
            spec.slot_glyph_size == slot_glyph_size,
            spec.glyph_size == glyph_size,
    {
        AtlasSpec { dimensions, columns, padding, slot_glyph_size, glyph_size }
    }

    /// Derive the full specification from the two user-facing knobs, with the
    /// fixed column count of the atlas grid.
    pub fn from_options(slot_glyph_size: usize, padding: usize) -> (spec: AtlasSpec)
        requires
            slot_glyph_size > 0,
            padding <= slot_glyph_size,
            slot_glyph_size * 16 <= usize::MAX,
        ensures
            spec.wf(),
            spec.columns == 16,
            spec.padding == padding,
            spec.slot_glyph_size == slot_glyph_size,
            spec.glyph_size == slot_glyph_size - padding,
            spec.dimensions == slot_glyph_size * 16,
    {
        AtlasSpec::new(
            slot_glyph_size * 16,
            16,
            padding,
            slot_glyph_size,
            slot_glyph_size - padding,
        )
    }
}

/// The shell input options, reduced to plain values: the front end resolves
/// the paths and reports what it found on disk, and the validation below
/// decides from those facts alone.
pub struct Opt {
    /// The path to the input font file, as the user gave it.
    pub input_path: String,
    /// Whether the input path exists on disk.
    pub input_exists: bool,
    /// Whether the input path is a regular file.
    pub input_is_file: bool,
    /// The path to the output file, as the user gave it.
    pub output_path: String,
    /// Whether the output path already exists on disk.
    pub output_exists: bool,
    /// The pixel size of a glyph slot in the atlas.
    pub slot_glyph_size: usize,
    /// The glyph slot padding size, in pixels.
    pub padding: usize,
}

/// A rejected configuration, with the offending input.
#[derive(Clone, Debug)]
pub enum OptError {
    InputFileDoesNotExist(String),
    InputFileIsNotAFile(String),
    OutputFileExists(String),
    SlotGlyphSizeCannotBeZero(usize),
    PaddingLargerThanSlotGlyphSize(usize, usize),
}

/// Validate the input options before any work begins. Every rejection names
/// the first check that failed, in the fixed order below; in particular a
/// padding larger than the slot size is rejected before any rasterization
/// could be attempted.
pub fn verify_opt(opt: &Opt) -> (result: Result<(), OptError>)
    ensures
        result is Ok <==> (opt.input_exists && opt.input_is_file && !opt.output_exists
            && opt.slot_glyph_size > 0 && opt.padding <= opt.slot_glyph_size),
        !opt.input_exists ==> result == Result::<(), OptError>::Err(
            OptError::InputFileDoesNotExist(opt.input_path),
        ),
        opt.input_exists && !opt.input_is_file ==> result == Result::<(), OptError>::Err(
            OptError::InputFileIsNotAFile(opt.input_path),
        ),
        opt.input_exists && opt.input_is_file && opt.output_exists ==> result == Result::<
            (),
            OptError,
        >::Err(OptError::OutputFileExists(opt.output_path)),
        opt.input_exists && opt.input_is_file && !opt.output_exists && opt.slot_glyph_size == 0
            ==> result == Result::<(), OptError>::Err(
            OptError::SlotGlyphSizeCannotBeZero(opt.slot_glyph_size),
        ),
        opt.input_exists && opt.input_is_file && !opt.output_exists && opt.slot_glyph_size > 0
            && opt.padding > opt.slot_glyph_size ==> result == Result::<(), OptError>::Err(
            OptError::PaddingLargerThanSlotGlyphSize(opt.padding, opt.slot_glyph_size),
        ),
{
    if !opt.input_exists {
        return Err(OptError::InputFileDoesNotExist(opt.input_path.clone()));
    }
    if !opt.input_is_file {
        return Err(OptError::InputFileIsNotAFile(opt.input_path.clone()));
    }
    if opt.output_exists {
        return Err(OptError::OutputFileExists(opt.output_path.clone()));
    }
    if !(opt.slot_glyph_size > 0) {
        return Err(OptError::SlotGlyphSizeCannotBeZero(opt.slot_glyph_size));
    }
    if opt.padding > opt.slot_glyph_size {
        return Err(OptError::PaddingLargerThanSlotGlyphSize(opt.padding, opt.slot_glyph_size));
    }
    Ok(())
}

} // verus!
