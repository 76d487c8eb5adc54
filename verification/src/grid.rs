//! Dense, owned, row-major grids: one for depth scalars, one for color
//! triples. A grid knows its dimensions and its cell count always equals
//! `width * height`.

use vstd::prelude::*;

use crate::error::DepthError;

verus! {

/// A dense height x width grid of depth scalars (bit patterns of 64-bit
/// IEEE 754 numbers), stored in raster order: row 0 first, each row left to
/// right.
pub struct DepthGrid {
    width: usize,
    height: usize,
    data: Vec<u64>,
}

impl DepthGrid {
    /// The grid's cells, in raster order.
    pub closed spec fn cells(self) -> Seq<u64> {
        self.data@
    }

    pub closed spec fn spec_width(self) -> usize {
        self.width
    }

    pub closed spec fn spec_height(self) -> usize {
        self.height
    }

    /// A grid is well formed when it holds exactly one cell per pixel.
    pub open spec fn wf(self) -> bool {
        self.cells().len() == self.spec_width() * self.spec_height()
    }

    /// The cell at column `x`, row `y`.
    pub open spec fn spec_at(self, x: int, y: int) -> u64 {
        self.cells()[y * self.spec_width() + x]
    }

    /// Builds a grid from its raster-order cells; fails when the cell count
    /// does not match the dimensions.
    pub fn new(width: usize, height: usize, data: Vec<u64>) -> (r: Result<DepthGrid, DepthError>)
        ensures
            data@.len() == width * height ==> (r matches Ok(g) && g.spec_width() == width
                && g.spec_height() == height && g.cells() == data@ && g.wf()),
            data@.len() != width * height ==> r == Err::<DepthGrid, DepthError>(
                DepthError::DimensionMismatch,
            ),
    {
        let len = data.len();
        match width.checked_mul(height) {
            Some(n) if n == len => Ok(DepthGrid { width, height, data }),
            _ => Err(DepthError::DimensionMismatch),
        }
    }

    /// How many cells the grid holds.
    pub fn len(&self) -> (r: usize)
        ensures
            r == self.cells().len(),
    {
        self.data.len()
    }

    /// The cell at raster index `i`.
    pub fn cell(&self, i: usize) -> (r: u64)
        requires
            i < self.cells().len(),
        ensures
            r == self.cells()[i as int],
    {
        self.data[i]
    }

    /// Builds a grid from raster-order cells already known to fill the
    /// dimensions exactly.
    pub(crate) fn from_parts(width: usize, height: usize, data: Vec<u64>) -> (r: DepthGrid)
        requires
            data@.len() == width * height,
        ensures
            r.spec_width() == width,
            r.spec_height() == height,
            r.cells() == data@,
            r.wf(),
    {
        DepthGrid { width, height, data }
    }

    pub fn width(&self) -> (r: usize)
        ensures
            r == self.spec_width(),
    {
        self.width
    }

    pub fn height(&self) -> (r: usize)
        ensures
            r == self.spec_height(),
    {
        self.height
    }

    /// The cell at column `x`, row `y`; fails when the pixel lies outside
    /// the grid.
    pub fn at(&self, x: usize, y: usize) -> (r: Result<u64, DepthError>)
        requires
            self.wf(),
        ensures
            x < self.spec_width() && y < self.spec_height() ==> r == Ok::<u64, DepthError>(
                self.spec_at(x as int, y as int),
            ),
            !(x < self.spec_width() && y < self.spec_height()) ==> r == Err::<u64, DepthError>(
                DepthError::BoundsError,
            ),
    {
        if x < self.width && y < self.height {
            proof {
                assert(self.data.len() == self.data@.len());
                lemma_raster_index_in_range(x as int, y as int, self.width as int, self.height as int);
            }
            Ok(self.data[y * self.width + x])
        } else {
            Err(DepthError::BoundsError)
        }
    }
}

/// A dense height x width grid of RGB byte triples, stored in raster order.
pub struct ColorGrid {
    width: usize,
    height: usize,
    data: Vec<[u8; 3]>,
}

impl ColorGrid {
    /// The grid's cells, in raster order.
    pub closed spec fn cells(self) -> Seq<[u8; 3]> {
        self.data@
    }

    pub closed spec fn spec_width(self) -> usize {
        self.width
    }

    pub closed spec fn spec_height(self) -> usize {
        self.height
    }

    /// A grid is well formed when it holds exactly one cell per pixel.
    pub open spec fn wf(self) -> bool {
        self.cells().len() == self.spec_width() * self.spec_height()
    }

    /// The cell at column `x`, row `y`.
    pub open spec fn spec_at(self, x: int, y: int) -> [u8; 3] {
        self.cells()[y * self.spec_width() + x]
    }

    /// Builds a grid from its raster-order cells; fails when the cell count
    /// does not match the dimensions.
    pub fn new(width: usize, height: usize, data: Vec<[u8; 3]>) -> (r: Result<
        ColorGrid,
        DepthError,
    >)
        ensures
            data@.len() == width * height ==> (r matches Ok(g) && g.spec_width() == width
                && g.spec_height() == height && g.cells() == data@ && g.wf()),
            data@.len() != width * height ==> r == Err::<ColorGrid, DepthError>(
                DepthError::DimensionMismatch,
            ),
    {
        let len = data.len();
        match width.checked_mul(height) {
            Some(n) if n == len => Ok(ColorGrid { width, height, data }),
            _ => Err(DepthError::DimensionMismatch),
        }
    }

    /// How many cells the grid holds.
    pub fn len(&self) -> (r: usize)
        ensures
            r == self.cells().len(),
    {
        self.data.len()
    }

    /// The cell at raster index `i`.
    pub fn cell(&self, i: usize) -> (r: [u8; 3])
        requires
            i < self.cells().len(),
        ensures
            r == self.cells()[i as int],
    {
        self.data[i]
    }

    pub fn width(&self) -> (r: usize)
        ensures
            r == self.spec_width(),
    {
        self.width
    }

    pub fn height(&self) -> (r: usize)
        ensures
            r == self.spec_height(),
    {
        self.height
    }

    /// The cell at column `x`, row `y`; fails when the pixel lies outside
    /// the grid.
    pub fn at(&self, x: usize, y: usize) -> (r: Result<[u8; 3], DepthError>)
        requires
            self.wf(),
        ensures
            x < self.spec_width() && y < self.spec_height() ==> r == Ok::<[u8; 3], DepthError>(
                self.spec_at(x as int, y as int),
            ),
            !(x < self.spec_width() && y < self.spec_height()) ==> r == Err::<[u8; 3], DepthError>(
                DepthError::BoundsError,
            ),
    {
        if x < self.width && y < self.height {
            proof {
                assert(self.data.len() == self.data@.len());
                lemma_raster_index_in_range(x as int, y as int, self.width as int, self.height as int);
            }
            Ok(self.data[y * self.width + x])
        } else {
            Err(DepthError::BoundsError)
        }
    }
}

/// A pixel within the grid extent names a cell within the raster data.
pub proof fn lemma_raster_index_in_range(x: int, y: int, width: int, height: int)
    by (nonlinear_arith)
    requires
        0 <= x < width,
        0 <= y < height,
    ensures
        0 <= y * width + x < width * height,
{
}

} // verus!
