//! Rendering of raster images as text: block shading, braille dot matrices
//! and true-colour cells, with the sampling and quantisation rules stated as
//! contracts.
//!
//! An image is sampled on a grid of cells. Each cell becomes one glyph: a
//! shading glyph chosen by the luma of its pixel, a braille character whose
//! dots are the dark pixels of the cell, or a solid block in the pixel's own
//! colour. The rows of glyphs make up a frame, which is handed out as text
//! or as rows of coloured cells.

pub mod block_art;
pub mod braille;
pub mod braille_art;
pub mod color;
pub mod error;
pub mod frame;
pub mod intensity;
pub mod paths;
pub mod playback;
pub mod raster;
pub mod sampling;
pub mod strategy;
pub mod strings;

pub use block_art::img_to_asciistring;
pub use block_art::img_to_asciistring_xy;
pub use braille::bin_to_braille;
pub use braille_art::encode_cell;
pub use braille_art::img_to_braillestring;
pub use color::img_to_cblock;
pub use color::img_to_chtml;
pub use error::RenderError;
pub use frame::html_page;
pub use intensity::get_ascii_char;
pub use paths::get_destination;
pub use playback::playback_wait;
pub use sampling::fit_compression;
pub use sampling::sample_origins;
pub use sampling::SampleSpec;
pub use strategy::render;
pub use strategy::select;
pub use strategy::sequence_settings;
pub use strategy::settings_for;
