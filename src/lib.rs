//! Turns an RGBA raster into a grid of coloured-square emoji, one glyph per
//! pixel of the image after it has been scaled to fit an optional bounding box.
pub mod color;
pub mod emoji;
pub mod raster;

pub use color::{pixel_to_emoji, Rgba, OPACITY_THRESHOLD, PALETTE_LEN, TRANSPARENT_GLYPH};
pub use emoji::{emoji_grid, image_to_emoji};
pub use raster::Image;
