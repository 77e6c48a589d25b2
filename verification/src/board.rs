//! Grid geometry: board dimensions and the bijection between linear cell
//! indices and 2D coordinates (`index = y * width + x`).

use vstd::prelude::*;
use vstd::arithmetic::div_mod::{lemma_fundamental_div_mod, lemma_fundamental_div_mod_converse, lemma_mod_bound};

verus! {

/// A fixed-size rectangular grid. Owns the index arithmetic used by the
/// simulation; does not own cell state.
#[derive(Clone, Copy, PartialEq, Eq, Structural, Debug)]
pub struct Board {
    pub width: i32,
    pub height: i32,
}

/// A 2D cell coordinate; `x` grows to the right, `y` downwards.
#[derive(Clone, Copy, PartialEq, Eq, Structural, Debug)]
pub struct CellPosition {
    pub x: i32,
    pub y: i32,
}

impl CellPosition {
    /// Componentwise vector addition, used to apply a neighbourhood offset.
    pub fn add(self, rhs: CellPosition) -> (r: CellPosition)
        requires
            i32::MIN <= self.x + rhs.x <= i32::MAX,
            i32::MIN <= self.y + rhs.y <= i32::MAX,
        ensures
            r.x == self.x + rhs.x,
            r.y == self.y + rhs.y,
    {
        CellPosition { x: self.x + rhs.x, y: self.y + rhs.y }
    }
}

impl From<(i32, i32)> for CellPosition {
    fn from(pair: (i32, i32)) -> (r: CellPosition) {
        CellPosition { x: pair.0, y: pair.1 }
    }
}

impl vstd::std_specs::convert::FromSpecImpl<(i32, i32)> for CellPosition {
    open spec fn obeys_from_spec() -> bool {
        true
    }

    open spec fn from_spec(pair: (i32, i32)) -> CellPosition {
        CellPosition { x: pair.0, y: pair.1 }
    }
}

impl Board {
    /// The number of cells on the board.
    pub open spec fn cell_count(self) -> int {
        self.width * self.height
    }

    /// Dimensions are positive and the cell count fits in `i32`.
    pub open spec fn wf(self) -> bool {
        &&& 0 < self.width
        &&& 0 < self.height
        &&& self.width * self.height <= i32::MAX
    }

    /// Whether `(x, y)` lies on the board.
    pub open spec fn in_bounds(self, x: int, y: int) -> bool {
        &&& 0 <= x < self.width
        &&& 0 <= y < self.height
    }

    /// The linear index of coordinate `(x, y)`.
    pub open spec fn spec_index_of(self, x: int, y: int) -> int {
        y * self.width + x
    }

    /// The x coordinate of a linear index.
    pub open spec fn spec_x_of(self, index: int) -> int {
        index % (self.width as int)
    }

    /// The y coordinate of a linear index.
    pub open spec fn spec_y_of(self, index: int) -> int {
        index / (self.width as int)
    }

    /// Constructs a board; rejects non-positive dimensions, and dimensions
    /// whose product does not fit in `i32`.
    pub fn new(width: i32, height: i32) -> (r: Option<Board>)
        ensures
            r is Some <==> (0 < width && 0 < height && width * height <= i32::MAX),
            r matches Some(b) ==> b == (Board { width, height }) && b.wf(),
    {
        if width > 0 && height > 0 {
            proof {
                assert(0 < (width as int) * (height as int) <= (i32::MAX as int) * (i32::MAX as int))
                    by (nonlinear_arith)
                    requires
                        0 < width <= i32::MAX,
                        0 < height <= i32::MAX,
                ;
            }
            let product: i64 = (width as i64) * (height as i64);
            if product <= (i32::MAX as i64) {
                return Some(Board { width, height });
            }
        }
        None
    }

    /// The number of cells, `width * height`.
    pub fn length(&self) -> (r: i32)
        requires
            self.wf(),
        ensures
            r == self.cell_count(),
            0 < r,
    {
        proof {
            vstd::arithmetic::mul::lemma_mul_strictly_positive(self.width as int, self.height as int);
        }
        self.width * self.height
    }

    /// The coordinate of a linear index: `x = index mod width`,
    /// `y = index div width`.
    pub fn idx2vec(&self, index: i32) -> (r: CellPosition)
        requires
            self.wf(),
            0 <= index < self.cell_count(),
        ensures
            r.x == self.spec_x_of(index as int),
            r.y == self.spec_y_of(index as int),
            self.in_bounds(r.x as int, r.y as int),
            self.spec_index_of(r.x as int, r.y as int) == index,
    {
        proof {
            lemma_index_of_coords_of(*self, index as int);
        }
        let x = index % self.width;
        let y = index / self.width;
        CellPosition { x, y }
    }

    /// The linear index of a coordinate. Callers must bounds-check first:
    /// nothing is said about coordinates off the board.
    pub fn vec2idx(&self, vec: CellPosition) -> (r: i32)
        requires
            self.wf(),
            self.in_bounds(vec.x as int, vec.y as int),
        ensures
            r == self.spec_index_of(vec.x as int, vec.y as int),
            0 <= r < self.cell_count(),
    {
        proof {
            lemma_index_in_range(*self, vec.x as int, vec.y as int);
        }
        vec.y * self.width + vec.x
    }
}

/// A valid coordinate's linear index lies in `[0, cell_count)`.
pub proof fn lemma_index_in_range(b: Board, x: int, y: int)
    requires
        b.wf(),
        b.in_bounds(x, y),
    ensures
        0 <= b.spec_index_of(x, y) < b.cell_count(),
{
    assert(0 <= y * b.width + x < b.width * b.height) by (nonlinear_arith)
        requires
            0 <= x < b.width,
            0 <= y < b.height,
    ;
}

/// Converting valid coordinates to a linear index and back yields the same
/// coordinates.
pub proof fn lemma_coords_of_index_of(b: Board, x: int, y: int)
    requires
        b.wf(),
        b.in_bounds(x, y),
    ensures
        0 <= b.spec_index_of(x, y) < b.cell_count(),
        b.spec_x_of(b.spec_index_of(x, y)) == x,
        b.spec_y_of(b.spec_index_of(x, y)) == y,
{
    lemma_index_in_range(b, x, y);
    lemma_fundamental_div_mod_converse(y * b.width + x, b.width as int, y, x);
}

/// Converting a valid linear index to coordinates and back yields the same
/// index, and the coordinates lie on the board.
pub proof fn lemma_index_of_coords_of(b: Board, index: int)
    requires
        b.wf(),
        0 <= index < b.cell_count(),
    ensures
        b.in_bounds(b.spec_x_of(index), b.spec_y_of(index)),
        b.spec_index_of(b.spec_x_of(index), b.spec_y_of(index)) == index,
{
    let w = b.width as int;
    lemma_fundamental_div_mod(index, w);
    lemma_mod_bound(index, w);
    assert(index / w < b.height) by (nonlinear_arith)
        requires
            index == w * (index / w) + index % w,
            0 <= index % w,
            index < b.width * b.height,
            w == b.width,
            0 < b.width,
            0 < b.height,
    ;
    assert(0 <= index / w) by (nonlinear_arith)
        requires
            index == w * (index / w) + index % w,
            index % w < w,
            0 <= index,
            0 < w,
    ;
}

} // verus!
