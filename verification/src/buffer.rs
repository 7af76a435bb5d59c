//! Buffer extractor: a bounds-safe centered blit from a source pixel
//! buffer into a freshly allocated destination buffer of a target
//! dimension. Destination pixels whose shifted coordinate falls outside
//! the source keep the transparent all-zero default.

use vstd::arithmetic::div_mod::{
    lemma_div_pos_is_pos, lemma_fundamental_div_mod, lemma_mod_bound, lemma_multiply_divide_lt,
};
use vstd::prelude::*;

use crate::error::FileError;
use crate::geometry::{Dimension, Point};

verus! {

/// A rectangular grid of RGBA pixels, four 8-bit channels per pixel,
/// stored row-major in a flat byte store.
#[derive(Debug)]
pub struct PixelBuffer {
    pub width: u32,
    pub height: u32,
    pub data: Vec<u8>,
}

/// Flat position of channel `c` of the pixel at `(x, y)` in a row-major
/// grid of width `w`.
pub open spec fn byte_index(w: int, x: int, y: int, c: int) -> int {
    (y * w + x) * 4 + c
}

impl PixelBuffer {
    /// The byte store holds exactly four bytes per pixel of the grid.
    pub open spec fn well_formed(self) -> bool {
        self.data@.len() == self.width * self.height * 4
    }

    /// The grid's size as a dimension value.
    pub open spec fn dim(self) -> Dimension {
        Dimension { width: self.width, height: self.height }
    }

    /// Channel `c` of the pixel at `(x, y)`.
    pub open spec fn byte_at(self, x: int, y: int, c: int) -> u8 {
        self.data@[byte_index(self.width as int, x, y, c)]
    }

    /// Builds a buffer from a dimension and a flat byte store, rejecting
    /// a zero-sized axis and a store whose length does not match.
    pub fn new(width: u32, height: u32, data: Vec<u8>) -> (r: Result<PixelBuffer, FileError>)
        ensures
            r is Ok <==> width > 0 && height > 0 && data@.len() == width * height * 4,
            r is Ok ==> r->Ok_0 == (PixelBuffer { width, height, data }),
            r is Err ==> r->Err_0 == FileError::Unsupported,
    {
        if width == 0 || height == 0 {
            return Err(FileError::Unsupported);
        }
        proof {
            crate::geometry::lemma_u32_mul_fits_u64(width as int, height as int);
        }
        let pixels: u64 = width as u64 * height as u64;
        let wanted: u128 = pixels as u128 * 4;
        if data.len() as u128 != wanted {
            return Err(FileError::Unsupported);
        }
        Ok(PixelBuffer { width, height, data })
    }

    /// The size of the grid, in pixels.
    pub fn dimensions(&self) -> (r: Dimension)
        ensures
            r == self.dim(),
    {
        Dimension { width: self.width, height: self.height }
    }
}

/// The channel the extraction writes at destination pixel `(x, y)`: the
/// matching source channel where the shifted coordinate lands inside the
/// source, and the transparent default everywhere else.
pub open spec fn extracted_byte(source: PixelBuffer, offset: Point, x: int, y: int, c: int) -> u8 {
    if x + offset.x < source.width && y + offset.y < source.height {
        source.byte_at(x + offset.x, y + offset.y, c)
    } else {
        0u8
    }
}

/// `r` is exactly the extraction of a `target` window from `source` at
/// `offset`: it has the target dimension, and every channel of every
/// pixel is pinned to the matching source channel or to the default.
pub open spec fn is_extraction(
    r: PixelBuffer,
    source: PixelBuffer,
    target: Dimension,
    offset: Point,
) -> bool {
    &&& r.width == target.width
    &&& r.height == target.height
    &&& r.well_formed()
    &&& forall|x: int, y: int, c: int|
        0 <= x < target.width && 0 <= y < target.height && 0 <= c < 4
            ==> #[trigger] r.byte_at(x, y, c) == extracted_byte(source, offset, x, y, c)
}

/// The pixels at rows before `y`, and those before column `x` on row `y`
/// itself, in row-major filling order.
spec fn filled_before(x: int, y: int, px: int, py: int) -> bool {
    py < y || (py == y && px < x)
}

/// Every channel position of a pixel inside a `w` by `h` grid lies
/// within the grid's byte store.
proof fn lemma_index_in_grid(w: int, h: int, x: int, y: int, c: int)
    by (nonlinear_arith)
    requires
        0 <= x < w,
        0 <= y < h,
        0 <= c < 4,
    ensures
        0 <= y * w + x,
        y * w + x < w * h,
        0 <= (y * w + x) * 4 + c,
        (y * w + x) * 4 + c < w * h * 4,
{
}

/// Byte positions respect the row-major filling order: every channel of
/// an earlier pixel lies strictly before the first channel of a later one.
proof fn lemma_index_lex_lt(w: int, x1: int, y1: int, x2: int, y2: int, c1: int)
    by (nonlinear_arith)
    requires
        0 <= x1 < w,
        0 <= c1 < 4,
        0 <= x2,
        0 <= y1,
        y1 < y2 || (y1 == y2 && x1 < x2),
    ensures
        (y1 * w + x1) * 4 + c1 < (y2 * w + x2) * 4,
{
}

/// Law: the extraction contract pins its result completely. Any two
/// buffers that are extractions of the same source, target and offset
/// agree on the dimension and hold identical bytes, because every flat
/// position of the store is the position of some channel of some pixel.
pub proof fn lemma_extraction_unique(
    a: PixelBuffer,
    b: PixelBuffer,
    source: PixelBuffer,
    target: Dimension,
    offset: Point,
)
    requires
        is_extraction(a, source, target, offset),
        is_extraction(b, source, target, offset),
    ensures
        a.width == b.width,
        a.height == b.height,
        a.data@ == b.data@,
{
    let tw = target.width as int;
    let th = target.height as int;
    assert forall|i: int| 0 <= i < a.data@.len() implies a.data@[i] == b.data@[i] by {
        assert(tw > 0 && th > 0) by (nonlinear_arith)
            requires
                tw >= 0,
                th >= 0,
                tw * th * 4 > 0,
        ;
        let c = i % 4;
        let p = i / 4;
        lemma_mod_bound(i, 4);
        lemma_fundamental_div_mod(i, 4);
        lemma_div_pos_is_pos(i, 4);
        let x = p % tw;
        let y = p / tw;
        lemma_mod_bound(p, tw);
        lemma_fundamental_div_mod(p, tw);
        lemma_div_pos_is_pos(p, tw);
        assert(p < tw * th);
        lemma_multiply_divide_lt(p, tw, th);
        assert(tw * y == y * tw) by (nonlinear_arith);
        assert(byte_index(tw, x, y, c) == i);
        assert(a.byte_at(x, y, c) == extracted_byte(source, offset, x, y, c));
        assert(b.byte_at(x, y, c) == extracted_byte(source, offset, x, y, c));
    }
    assert(a.data@ =~= b.data@);
}

/// Allocates a buffer of exactly `target`'s dimension and copies into it
/// the region of `source` that the window shifted by `offset` overlaps;
/// destination pixels outside the overlap keep the all-zero default. A
/// pure centered-crop/pad: no resampling, and a window that misses the
/// source entirely still yields a full buffer of default pixels.
pub fn extract(source: &PixelBuffer, target: &Dimension, offset: &Point) -> (r: PixelBuffer)
    requires
        source.well_formed(),
        target.width * target.height * 4 <= usize::MAX,
    ensures
        is_extraction(r, *source, *target, *offset),
{
    let mut data: Vec<u8> = Vec::new();
    let mut y: u32 = 0;
    while y < target.height
        invariant
            source.well_formed(),
            y <= target.height,
            data@.len() == y * target.width * 4,
            forall|px: int, py: int, pc: int|
                0 <= px < target.width && 0 <= py && 0 <= pc < 4 && filled_before(
                    0,
                    y as int,
                    px,
                    py,
                ) ==> data@[#[trigger] byte_index(target.width as int, px, py, pc)]
                    == extracted_byte(*source, *offset, px, py, pc),
        decreases target.height - y,
    {
        let mut x: u32 = 0;
        while x < target.width
            invariant
                source.well_formed(),
                x <= target.width,
                y < target.height,
                data@.len() == (y * target.width + x) * 4,
                forall|px: int, py: int, pc: int|
                    0 <= px < target.width && 0 <= py && 0 <= pc < 4 && filled_before(
                        x as int,
                        y as int,
                        px,
                        py,
                    ) ==> data@[#[trigger] byte_index(target.width as int, px, py, pc)]
                        == extracted_byte(*source, *offset, px, py, pc),
            decreases target.width - x,
        {
            let ghost pre = data@;
            let ghost l0: int = data@.len() as int;
            let sx: u64 = x as u64 + offset.x as u64;
            let sy: u64 = y as u64 + offset.y as u64;
            if sx < source.width as u64 && sy < source.height as u64 {
                let src_len: usize = source.data.len();
                proof {
                    lemma_index_in_grid(
                        source.width as int,
                        source.height as int,
                        sx as int,
                        sy as int,
                        3,
                    );
                    assert(src_len as int == source.data@.len());
                    assert((sy as int * source.width as int + sx as int) * 4 + 3 < src_len as int);
                }
                let row: usize = (sy as usize) * (source.width as usize);
                let base: usize = (row + sx as usize) * 4;
                let b0: u8 = source.data[base];
                let b1: u8 = source.data[base + 1];
                let b2: u8 = source.data[base + 2];
                let b3: u8 = source.data[base + 3];
                data.push(b0);
                data.push(b1);
                data.push(b2);
                data.push(b3);
                proof {
                    assert(base as int == byte_index(
                        source.width as int,
                        x as int + offset.x as int,
                        y as int + offset.y as int,
                        0,
                    ));
                    assert(data@[l0 + 0] == extracted_byte(*source, *offset, x as int, y as int, 0));
                    assert(data@[l0 + 1] == extracted_byte(*source, *offset, x as int, y as int, 1));
                    assert(data@[l0 + 2] == extracted_byte(*source, *offset, x as int, y as int, 2));
                    assert(data@[l0 + 3] == extracted_byte(*source, *offset, x as int, y as int, 3));
                }
            } else {
                data.push(0u8);
                data.push(0u8);
                data.push(0u8);
                data.push(0u8);
                proof {
                    assert(data@[l0 + 0] == extracted_byte(*source, *offset, x as int, y as int, 0));
                    assert(data@[l0 + 1] == extracted_byte(*source, *offset, x as int, y as int, 1));
                    assert(data@[l0 + 2] == extracted_byte(*source, *offset, x as int, y as int, 2));
                    assert(data@[l0 + 3] == extracted_byte(*source, *offset, x as int, y as int, 3));
                }
            }
            proof {
                assert forall|px: int, py: int, pc: int|
                    0 <= px < target.width && 0 <= py && 0 <= pc < 4 && filled_before(
                        x as int + 1,
                        y as int,
                        px,
                        py,
                    ) implies data@[#[trigger] byte_index(target.width as int, px, py, pc)]
                    == extracted_byte(*source, *offset, px, py, pc) by {
                    if filled_before(x as int, y as int, px, py) {
                        lemma_index_lex_lt(target.width as int, px, py, x as int, y as int, pc);
                        assert(byte_index(target.width as int, px, py, pc) < l0);
                        assert(data@[byte_index(target.width as int, px, py, pc)] == pre[byte_index(
                            target.width as int,
                            px,
                            py,
                            pc,
                        )]);
                    } else {
                        assert(px == x as int && py == y as int);
                        assert(byte_index(target.width as int, px, py, pc) == l0 + pc);
                    }
                }
            }
            x = x + 1;
        }
        proof {
            assert((y as int + 1) * (target.width as int) == y as int * (target.width as int)
                + (target.width as int)) by (nonlinear_arith);
            assert forall|px: int, py: int, pc: int|
                0 <= px < target.width && 0 <= py && 0 <= pc < 4 && filled_before(
                    0,
                    y as int + 1,
                    px,
                    py,
                ) implies data@[#[trigger] byte_index(target.width as int, px, py, pc)]
                == extracted_byte(*source, *offset, px, py, pc) by {
                assert(filled_before(target.width as int, y as int, px, py));
            }
        }
        y = y + 1;
    }
    let r = PixelBuffer { width: target.width, height: target.height, data };
    proof {
        assert(target.height as int * target.width as int == target.width as int
            * target.height as int) by (nonlinear_arith);
        assert forall|px: int, py: int, pc: int|
            0 <= px < target.width && 0 <= py < target.height && 0 <= pc < 4 implies #[trigger] r
            .byte_at(px, py, pc) == extracted_byte(*source, *offset, px, py, pc) by {
            assert(filled_before(0, target.height as int, px, py));
            assert(r.byte_at(px, py, pc) == r.data@[byte_index(target.width as int, px, py, pc)]);
        }
    }
    r
}

} // verus!
