//! An RGBA pixel buffer laid out row by row.
use crate::grid::{in_grid, lemma_raster_index_bounds, raster_index};
use vstd::prelude::*;

verus! {

/// One pixel: red, green, blue and alpha channels of eight bits each.
#[derive(Clone, Copy, Debug, PartialEq, Eq, Structural)]
pub struct Rgba {
    pub r: u8,
    pub g: u8,
    pub b: u8,
    pub a: u8,
}

/// Why a buffer or a permutation was refused.
#[derive(Clone, Copy, Debug, PartialEq, Eq, Structural)]
pub enum ScrambleError {
    /// The number of pixels or of coordinates is not `width * height`, or a
    /// permutation misses a coordinate of the grid.
    DimensionMismatch,
}

/// A `width` x `height` image; the pixel at `(x, y)` is `pixels[y * width + x]`.
#[derive(Debug, PartialEq, Eq)]
pub struct PixelBuffer {
    pub width: u32,
    pub height: u32,
    pub pixels: Vec<Rgba>,
}

/// The pixel with all channels zero: transparent black.
pub open spec fn blank_pixel() -> Rgba {
    Rgba { r: 0, g: 0, b: 0, a: 0 }
}

impl PixelBuffer {
    /// The buffer holds exactly one pixel per coordinate of the grid.
    pub open spec fn wf(&self) -> bool {
        &&& self.pixels@.len() == self.width * self.height
        &&& self.width * self.height <= usize::MAX
    }

    /// The pixel at coordinate `c`.
    pub open spec fn pixel_at(&self, c: (u32, u32)) -> Rgba {
        self.pixels@[raster_index(c, self.width as nat)]
    }

    /// A buffer of the given size over `pixels`, which lists the rows from top
    /// to bottom; refused unless there is one pixel per coordinate.
    pub fn new(width: u32, height: u32, pixels: Vec<Rgba>) -> (r: Result<PixelBuffer, ScrambleError>)
        ensures
            pixels@.len() == width * height <==> r is Ok,
            r is Ok ==> r->Ok_0.wf(),
            r is Ok ==> r->Ok_0.width == width && r->Ok_0.height == height && r->Ok_0.pixels@
                == pixels@,
            r is Err ==> r->Err_0 == ScrambleError::DimensionMismatch,
    {
        proof {
            assert(width * height <= u32::MAX * u32::MAX) by (nonlinear_arith)
                requires
                    width <= u32::MAX,
                    height <= u32::MAX,
            ;
        }
        let area: u64 = width as u64 * height as u64;
        if pixels.len() as u64 == area {
            Ok(PixelBuffer { width, height, pixels })
        } else {
            Err(ScrambleError::DimensionMismatch)
        }
    }

    /// A buffer of the given size with every pixel transparent black.
    pub fn blank(width: u32, height: u32) -> (r: PixelBuffer)
        requires
            width * height <= usize::MAX,
        ensures
            r.wf(),
            r.width == width,
            r.height == height,
            forall|i: int| 0 <= i < r.pixels@.len() ==> #[trigger] r.pixels@[i] == blank_pixel(),
    {
        let area: usize = (width as u64 * height as u64) as usize;
        let mut pixels: Vec<Rgba> = Vec::new();
        let mut i: usize = 0;
        while i < area
            invariant
                i <= area,
                pixels@.len() == i,
                forall|k: int| 0 <= k < i ==> #[trigger] pixels@[k] == blank_pixel(),
            decreases area - i,
        {
            pixels.push(Rgba { r: 0, g: 0, b: 0, a: 0 });
            i = i + 1;
        }
        PixelBuffer { width, height, pixels }
    }

    /// Whether the buffer holds exactly one pixel per coordinate of its grid.
    pub fn has_valid_size(&self) -> (r: bool)
        ensures
            r == self.wf(),
    {
        proof {
            assert(self.width * self.height <= u32::MAX * u32::MAX) by (nonlinear_arith)
                requires
                    self.width <= u32::MAX,
                    self.height <= u32::MAX,
            ;
        }
        let area: u64 = self.width as u64 * self.height as u64;
        self.pixels.len() as u64 == area
    }

    /// The width in pixels.
    pub fn width(&self) -> (r: u32)
        ensures
            r == self.width,
    {
        self.width
    }

    /// The height in pixels.
    pub fn height(&self) -> (r: u32)
        ensures
            r == self.height,
    {
        self.height
    }

    /// The pixels, row by row.
    pub fn pixels(&self) -> (r: &Vec<Rgba>)
        ensures
            r@ == self.pixels@,
    {
        &self.pixels
    }

    /// The pixel at `(x, y)`.
    pub fn get_pixel(&self, x: u32, y: u32) -> (r: Rgba)
        requires
            self.wf(),
            in_grid((x, y), self.width as nat, self.height as nat),
        ensures
            r == self.pixel_at((x, y)),
    {
        let n: usize = self.pixels.len();
        proof {
            lemma_raster_index_bounds((x, y), self.width as nat, self.height as nat);
        }
        let i: usize = y as usize * self.width as usize + x as usize;
        self.pixels[i]
    }
}

} // verus!
