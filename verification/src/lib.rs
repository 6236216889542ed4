//! Pixel-art quantisation: derive a small palette from an image's spatial
//! structure, re-render the image in coarse blocks of palette colours with
//! ordered dithering, and scale the result back up without interpolation.
//!
//! The stages, leaf first:
//!
//! - [`distance`]: the family of colour distances, over the measures of
//!   [`pixel_operations`];
//! - [`factor`]: snapping a block size to a divisor of a dimension;
//! - [`palette`]: drawing a palette from the blocks of an image, with the
//!   colour count of [`tally`];
//! - [`dither`]: rendering an image in blocks of palette colours, matched by
//!   [`matching`] and painted by [`mosaic`], and scaling the result up;
//! - [`session`] and [`worker`]: the course of an editing session and the
//!   jobs it hands out.
//!
//! Images are those of the `image` crate, held in [`raster::Image`]. A job
//! reports its progress to a [`signals::ProgressSink`] and looks at a shared
//! flag before each block to learn whether it is to stop.

pub mod distance;
pub mod dither;
pub mod factor;
pub mod matching;
pub mod mosaic;
pub mod palette;
pub mod pixel;
pub mod pixel_operations;
pub mod raster;
pub mod session;
pub mod settings;
pub mod signals;
pub mod tally;
pub mod worker;

pub use distance::{DistanceAlgorithm, ALL_ALGOS};
pub use dither::{dither_original_with_palette, pixel_perfect_scale};
pub use factor::get_closest_factor;
pub use palette::get_palette;
pub use pixel::Pixel;
pub use raster::Image;
pub use settings::{OutputSettings, PaletteSettings};
pub use signals::ProgressSink;
