//! The input mapper: from a pointer position on the canvas to a cell of the
//! grid, and from there to a move.

use vstd::prelude::*;
use crate::grid::{cell, in_bounds, Grid, GRID_SIZE};

verus! {

/// The cell under the pixel `(x, y)` of a canvas `width` by `height` pixels.
///
/// A cell is a quarter of the canvas wide and high, rounded down to whole
/// pixels, and the pixel's cell is its position divided by that size. Where
/// the canvas is not a whole number of cells, its last pixels lie beyond the
/// fourth column or row and belong to no cell. A canvas too small for a cell
/// to have any size has no cells.
pub open spec fn cell_under(x: int, y: int, width: int, height: int) -> Option<(int, int)> {
    let tile_w = width / (GRID_SIZE as int);
    let tile_h = height / (GRID_SIZE as int);
    if tile_w <= 0 || tile_h <= 0 {
        None
    } else {
        let c = (x / tile_w, y / tile_h);
        if in_bounds(c) {
            Some(c)
        } else {
            None
        }
    }
}

/// A pixel at or beyond the right or bottom edge of the canvas is under no
/// cell.
pub proof fn lemma_beyond_edge(x: int, y: int, width: int, height: int)
    requires
        0 <= x,
        0 <= y,
        x >= width || y >= height,
    ensures
        cell_under(x, y, width, height) is None,
{
    let tile_w = width / (GRID_SIZE as int);
    let tile_h = height / (GRID_SIZE as int);
    if tile_w > 0 && tile_h > 0 {
        if x >= width {
            assert(x / tile_w >= 4) by (nonlinear_arith)
                requires
                    tile_w > 0,
                    x >= 4 * tile_w,
            ;
        } else {
            assert(y / tile_h >= 4) by (nonlinear_arith)
                requires
                    tile_h > 0,
                    y >= 4 * tile_h,
            ;
        }
    }
}

/// Every pixel inside the square of cell `c` is under `c`: the square starts
/// at `c` times the cell size and is one cell size wide and high.
pub proof fn lemma_cell_region(c: (int, int), x: int, y: int, width: int, height: int)
    requires
        in_bounds(c),
        width >= GRID_SIZE,
        height >= GRID_SIZE,
        c.0 * (width / (GRID_SIZE as int)) <= x < (c.0 + 1) * (width / (GRID_SIZE as int)),
        c.1 * (height / (GRID_SIZE as int)) <= y < (c.1 + 1) * (height / (GRID_SIZE as int)),
    ensures
        cell_under(x, y, width, height) == Some(c),
{
    let tile_w = width / (GRID_SIZE as int);
    let tile_h = height / (GRID_SIZE as int);
    let col = c.0;
    let row = c.1;
    assert(x / tile_w == col) by (nonlinear_arith)
        requires
            tile_w > 0,
            col * tile_w <= x < (col + 1) * tile_w,
    ;
    assert(y / tile_h == row) by (nonlinear_arith)
        requires
            tile_h > 0,
            row * tile_h <= y < (row + 1) * tile_h,
    ;
}

/// Finds the cell under a pointer position, if there is one.
pub fn pixel_to_cell(x: u32, y: u32, width: u32, height: u32) -> (hit: Option<(usize, usize)>)
    ensures
        match hit {
            Some(c) => cell_under(x as int, y as int, width as int, height as int) == Some(cell(c)),
            None => cell_under(x as int, y as int, width as int, height as int) is None,
        },
{
    let tile_w: u32 = width / (GRID_SIZE as u32);
    let tile_h: u32 = height / (GRID_SIZE as u32);
    if tile_w == 0 || tile_h == 0 {
        return None;
    }
    let cx: usize = (x / tile_w) as usize;
    let cy: usize = (y / tile_h) as usize;
    if cx >= GRID_SIZE || cy >= GRID_SIZE {
        return None;
    }
    Some((cx, cy))
}

impl Grid {
    /// Handles a click at pixel `(x, y)` of a canvas `width` by `height`
    /// pixels: the tile under the pointer moves if it lies next to the empty
    /// slot.
    ///
    /// A click under no cell, and a click on a tile that cannot move, change
    /// nothing.
    pub fn click(&mut self, x: u32, y: u32, width: u32, height: u32) -> (moved: bool)
        requires
            old(self)@.moves < u32::MAX,
        ensures
            final(self).wf(),
            moved == (cell_under(x as int, y as int, width as int, height as int) matches Some(c)
                && old(self)@.board.can_slide(c)),
            moved ==> final(self)@.board == old(self)@.board.slide(
                cell_under(x as int, y as int, width as int, height as int).unwrap(),
            ),
            moved ==> final(self)@.moves == old(self)@.moves + 1,
            !moved ==> final(self)@ == old(self)@,
    {
        proof {
            use_type_invariant(&*self);
        }
        match pixel_to_cell(x, y, width, height) {
            Some(c) => self.try_move(c),
            None => false,
        }
    }
}

} // verus!
