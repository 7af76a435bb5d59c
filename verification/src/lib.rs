//! Batch image cropping library: geometry for fitting a fixed aspect ratio
//! inside a source image, and a bounds-safe centered blit from a source
//! pixel buffer into a freshly allocated destination buffer.

pub mod asset;
pub mod buffer;
pub mod error;
pub mod files;
pub mod geometry;

pub use asset::ImageFile;
pub use asset::resize_image;
pub use buffer::PixelBuffer;
pub use error::FileError;
pub use files::allowed_filetype;
pub use geometry::AspectRatio;
pub use geometry::Dimension;
pub use geometry::Point;
pub use geometry::get_center_offset;
