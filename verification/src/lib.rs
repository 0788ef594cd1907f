//! A bitmap font atlas generator: packs per-glyph coverage bitmaps sampled
//! from a vector typeface into one RGBA image laid out on a fixed grid, and
//! computes the placement metadata a renderer needs to draw text from it.
//!
//! The grid arithmetic, the metadata calculation, the pixel composition and
//! the metadata document codec are verified; the typeface rasterizer and the
//! image file codec are outside collaborators reached through small trusted
//! boundaries.

pub mod atlas;
pub mod codec;
pub mod compositor;
pub mod config;
pub mod glyphs;
pub mod layout;
pub mod metadata;
pub mod rasterizer;

pub use atlas::{create_bitmap_atlas, BitmapFontAtlas};
pub use codec::{decode_metadata, encode_metadata, Error};
pub use compositor::create_bitmap_buffer;
pub use config::{verify_opt, AtlasSpec, Opt, OptError};
pub use glyphs::{GlyphImage, GlyphSample, GlyphSampleTable};
pub use metadata::{create_bitmap_metadata, BitmapFontAtlasMetadata, GlyphMetadata, Rational};
pub use rasterizer::{sample_typeface, FontFace, SampleTypefaceError};
