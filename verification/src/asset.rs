//! Image assets and the per-asset pipeline step: compute the crop window
//! for the configured ratio, center it, and extract it from the source
//! buffer into a freshly derived asset under the same filename.

use vstd::prelude::*;

use crate::buffer::{PixelBuffer, extract, is_extraction};
use crate::error::FileError;
use crate::geometry::{AspectRatio, Dimension, Point, center_spec, get_center_offset};
use crate::geometry::lemma_u32_mul_fits_u64;

verus! {

/// One unit of work: a single image's pixel data plus the filename that
/// identifies it from the input directory through to the output.
#[derive(Debug)]
pub struct ImageFile {
    pub image: PixelBuffer,
    pub filename: String,
}

impl ImageFile {
    /// Wraps an already decoded pixel buffer under its filename.
    pub fn new(image: PixelBuffer, filename: String) -> (r: ImageFile)
        ensures
            r.image == image,
            r.filename == filename,
    {
        ImageFile { image, filename }
    }

    /// The natural dimension of the asset's pixel buffer.
    pub fn dimensions(&self) -> (r: Dimension)
        ensures
            r == self.image.dim(),
    {
        Dimension { width: self.image.width, height: self.image.height }
    }

    /// Derives a new asset of exactly `dimensions` by a centered blit
    /// from this asset's buffer at `offset`, keeping the filename. The
    /// source asset is left untouched; padding pixels stay transparent.
    pub fn create_resized(&self, dimensions: &Dimension, offset: &Point) -> (r: ImageFile)
        requires
            self.image.well_formed(),
            dimensions.width * dimensions.height * 4 <= usize::MAX,
        ensures
            is_extraction(r.image, self.image, *dimensions, *offset),
            r.filename@ == self.filename@,
    {
        ImageFile {
            image: extract(&self.image, dimensions, offset),
            filename: self.filename.clone(),
        }
    }
}

/// Products of pairwise dominated non-negative factors are ordered.
proof fn lemma_mul_le(a: int, b: int, c: int, d: int)
    by (nonlinear_arith)
    requires
        0 <= a <= c,
        0 <= b <= d,
    ensures
        a * b <= c * d,
{
}

/// The whole pipeline step for one asset: the largest window of ratio
/// `ratio` that fits the source, centered, extracted into a new asset
/// under the same filename. Fails, recoverably, exactly on an unusable
/// asset or ratio: a zero-sized axis, a zero ratio part, or a byte store
/// whose length does not match the asset's dimension.
pub fn resize_image(image: &ImageFile, ratio: &AspectRatio) -> (r: Result<ImageFile, FileError>)
    ensures
        r is Ok <==> image.image.well_formed() && image.image.dim().valid() && ratio.valid(),
        r is Ok ==> r->Ok_0.filename@ == image.filename@,
        r is Ok ==> is_extraction(
            r->Ok_0.image,
            image.image,
            image.image.dim().scale_spec(*ratio),
            center_spec(image.image.dim(), image.image.dim().scale_spec(*ratio)),
        ),
        r is Err ==> r->Err_0 == FileError::Unsupported,
{
    if ratio.num == 0 || ratio.den == 0 {
        return Err(FileError::Unsupported);
    }
    let dims: Dimension = image.dimensions();
    if dims.width == 0 || dims.height == 0 {
        return Err(FileError::Unsupported);
    }
    proof {
        lemma_u32_mul_fits_u64(dims.width as int, dims.height as int);
    }
    let pixels: u64 = dims.width as u64 * dims.height as u64;
    let wanted: u128 = pixels as u128 * 4;
    let stored: usize = image.image.data.len();
    if stored as u128 != wanted {
        return Err(FileError::Unsupported);
    }
    let target: Dimension = dims.to_aspect_ratio(ratio);
    let offset: Point = get_center_offset(&dims, &target);
    proof {
        lemma_mul_le(
            target.width as int,
            target.height as int,
            dims.width as int,
            dims.height as int,
        );
    }
    Ok(image.create_resized(&target, &offset))
}

} // verus!
