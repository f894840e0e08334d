use vstd::prelude::*;
use crate::error::RenderError;
use crate::framebuffer::cell_index;

verus! {

/// A grid of tiles stored row-major: a digit names the wall texture of an occupied
/// cell, a blank marks an empty one.
pub struct TileMap {
    pub width: usize,
    pub height: usize,
    pub map: Vec<char>,
}

/// The character of an empty cell.
pub const EMPTY_TILE: char = ' ';

/// Whether `c` may stand in a map cell.
pub open spec fn is_tile_char(c: char) -> bool {
    c == EMPTY_TILE || ('0' <= c && c <= '9')
}

/// Whether every character of `cells` may stand in a map cell.
pub open spec fn all_tile_chars(cells: Seq<char>) -> bool {
    forall|i: int| 0 <= i < cells.len() ==> is_tile_char(#[trigger] cells[i])
}

/// The texture index that the digit `c` names.
pub open spec fn digit_value(c: char) -> int {
    c as int - '0' as int
}

impl TileMap {
    /// One character per cell, each a digit or a blank.
    pub open spec fn wf(&self) -> bool {
        &&& self.map@.len() == self.width * self.height
        &&& all_tile_chars(self.map@)
    }

    /// The character of the cell `(x, y)`.
    pub open spec fn tile(&self, x: int, y: int) -> char {
        self.map@[cell_index(self.width as int, x, y)]
    }

    /// Whether the cell `(x, y)` lies in the grid and holds a wall.
    pub open spec fn occupied(&self, x: int, y: int) -> bool {
        0 <= x < self.width && 0 <= y < self.height && self.tile(x, y) != EMPTY_TILE
    }

    /// Builds a map from its cells in row-major order.
    pub fn new(width: usize, height: usize, map: Vec<char>) -> (r: Result<TileMap, RenderError>)
        ensures
            match r {
                Ok(m) => m.width == width && m.height == height && m.map@ == map@ && m.wf(),
                Err(e) => e == if map@.len() != width * height {
                    RenderError::InvalidDimensions
                } else {
                    RenderError::InvalidTile
                },
            },
            r is Ok <==> (map@.len() == width * height && all_tile_chars(map@)),
    {
        let n: usize = map.len();
        if height != 0 && width > usize::MAX / height {
            proof {
                lemma_product_exceeds(width as int, height as int);
            }
            return Err(RenderError::InvalidDimensions);
        }
        proof {
            if height != 0 {
                assert(width * height <= usize::MAX as int) by (nonlinear_arith)
                    requires
                        height > 0,
                        width <= (usize::MAX as int) / (height as int),
                ;
            }
        }
        if n != width * height {
            return Err(RenderError::InvalidDimensions);
        }
        let mut i: usize = 0;
        while i < map.len()
            invariant
                i <= map@.len(),
                map@.len() == width * height,
                forall|k: int| 0 <= k < i ==> is_tile_char(#[trigger] map@[k]),
            decreases map@.len() - i,
        {
            let c: char = map[i];
            if !(c == EMPTY_TILE || ('0' <= c && c <= '9')) {
                return Err(RenderError::InvalidTile);
            }
            i = i + 1;
        }
        Ok(TileMap { width, height, map })
    }

    /// The texture index of the occupied cell `(x, y)`.
    pub fn get(&self, x: usize, y: usize) -> (id: usize)
        requires
            self.wf(),
            self.occupied(x as int, y as int),
        ensures
            id == digit_value(self.tile(x as int, y as int)),
            id <= 9,
    {
        proof {
            crate::framebuffer::lemma_cell_in_bounds(self.width as int, self.height as int, x as int, y as int);
        }
        let _len: usize = self.map.len();
        assert(y * self.width <= x + y * self.width);
        let c: char = self.map[x + y * self.width];
        (c as u32 - '0' as u32) as usize
    }

    /// Whether the cell `(x, y)` is empty.
    pub fn is_empty(&self, x: usize, y: usize) -> (r: bool)
        requires
            self.wf(),
            x < self.width,
            y < self.height,
        ensures
            r == !self.occupied(x as int, y as int),
    {
        proof {
            crate::framebuffer::lemma_cell_in_bounds(self.width as int, self.height as int, x as int, y as int);
        }
        let _len: usize = self.map.len();
        assert(y * self.width <= x + y * self.width);
        self.map[x + y * self.width] == EMPTY_TILE
    }
}

/// A product of two sizes one of which exceeds the largest `usize` divided by the other
/// exceeds the largest `usize`.
proof fn lemma_product_exceeds(a: int, b: int)
    requires
        b > 0,
        a > (usize::MAX as int) / b,
    ensures
        a * b > usize::MAX,
{
    assert(a * b > usize::MAX) by (nonlinear_arith)
        requires
            b > 0,
            a > (usize::MAX as int) / b,
    ;
}

} // verus!
