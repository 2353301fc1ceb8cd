//! The render pipeline's decisions: which triangles a frame draws for a grid,
//! and what to do with a frame once the surface has answered.
//!
//! Positions are exact. Normalized device space spans `[-1, 1]` on both axes
//! with `+y` up; a [`Vertex`] holds its coordinates in steps of a quarter, so
//! that a tile, which is half a unit wide, spans two steps.

use vstd::prelude::*;
use crate::grid::{cell, cell_index, lemma_wf_permutation, Grid, EMPTY_TILE, GRID_SIZE, NUM_TILES};

verus! {

/// How many steps of a [`Vertex`] coordinate make one unit of normalized
/// device space.
pub const STEPS_PER_UNIT: i32 = 4;

/// The width and height of a tile in steps. The grid spans two units, so a
/// tile is `2 / GRID_SIZE` of a unit.
pub const TILE_STEPS: i32 = 2;

/// The colour a frame is cleared to before the tiles are drawn: red, green,
/// blue and opacity in tenths. A light grey, fully opaque.
pub const BACKGROUND_TENTHS: [u8; 4] = [9, 9, 9, 10];

/// A position in normalized device space: the point
/// `(x / STEPS_PER_UNIT, y / STEPS_PER_UNIT)`.
#[derive(Clone, Copy, Debug, PartialEq, Eq, Structural)]
pub struct Vertex {
    pub x: i32,
    pub y: i32,
}

/// The vertex at `(x, y)` steps.
pub open spec fn vertex(x: int, y: int) -> Vertex {
    Vertex { x: x as i32, y: y as i32 }
}

/// The two triangles that cover cell `(col, row)`.
///
/// The grid fills the square from `(-1, 1)` at its top left to `(1, -1)` at
/// its bottom right. The top-left corner of the cell is one tile further
/// right for each column and one tile further down for each row; its
/// bottom-right corner is one tile right and one tile down from there.
/// The first triangle is top-left, top-right, bottom-right; the second is
/// top-left, bottom-right, bottom-left.
pub open spec fn tile_quad(col: int, row: int) -> Seq<Vertex> {
    let left = -STEPS_PER_UNIT + col * TILE_STEPS;
    let top = STEPS_PER_UNIT - row * TILE_STEPS;
    let right = left + TILE_STEPS;
    let bottom = top - TILE_STEPS;
    seq![
        vertex(left, top),
        vertex(right, top),
        vertex(right, bottom),
        vertex(left, top),
        vertex(right, bottom),
        vertex(left, bottom),
    ]
}

/// The triangles of the first `n` cells in row-major order: one quad for each
/// cell that holds a tile, nothing for the empty slot.
pub open spec fn geometry_prefix(tiles: Seq<u8>, n: int) -> Seq<Vertex>
    decreases n,
{
    if n <= 0 {
        Seq::empty()
    } else {
        let i = n - 1;
        geometry_prefix(tiles, i) + (if tiles[i] != EMPTY_TILE {
            tile_quad(i % (GRID_SIZE as int), i / (GRID_SIZE as int))
        } else {
            Seq::empty()
        })
    }
}

/// The vertex sequence that draws `tiles`.
pub open spec fn geometry(tiles: Seq<u8>) -> Seq<Vertex> {
    geometry_prefix(tiles, tiles.len() as int)
}

/// How many of the first `n` cells hold a tile.
pub open spec fn tiles_present(tiles: Seq<u8>, n: int) -> int
    decreases n,
{
    if n <= 0 {
        0
    } else {
        tiles_present(tiles, n - 1) + (if tiles[n - 1] != EMPTY_TILE { 1int } else { 0int })
    }
}

/// Each cell that holds a tile contributes six vertices.
pub proof fn lemma_geometry_prefix_len(tiles: Seq<u8>, n: int)
    ensures
        geometry_prefix(tiles, n).len() == 6 * tiles_present(tiles, n),
    decreases n,
{
    if n > 0 {
        lemma_geometry_prefix_len(tiles, n - 1);
    }
}

/// Whether `empty` is the one cell of `tiles` that holds no tile.
pub open spec fn one_empty_cell(tiles: Seq<u8>, empty: int) -> bool {
    &&& tiles.len() == NUM_TILES
    &&& 0 <= empty < NUM_TILES
    &&& forall|i: int| 0 <= i < NUM_TILES ==> (#[trigger] tiles[i] == EMPTY_TILE <==> i == empty)
}

/// Among the first `n` cells, all hold a tile but the empty one.
pub proof fn lemma_tiles_present(tiles: Seq<u8>, empty: int, n: int)
    requires
        one_empty_cell(tiles, empty),
        0 <= n <= NUM_TILES,
    ensures
        tiles_present(tiles, n) == if empty < n { n - 1 } else { n },
    decreases n,
{
    if n > 0 {
        lemma_tiles_present(tiles, empty, n - 1);
    }
}

/// A grid with exactly one empty cell is drawn with six vertices for each of
/// its other cells.
pub proof fn lemma_geometry_len(tiles: Seq<u8>, empty: int)
    requires
        one_empty_cell(tiles, empty),
    ensures
        geometry(tiles).len() == 6 * (NUM_TILES - 1),
{
    lemma_geometry_prefix_len(tiles, NUM_TILES as int);
    lemma_tiles_present(tiles, empty, NUM_TILES as int);
}

/// The size of a tile is the grid's two units shared among its columns.
pub proof fn lemma_tile_size()
    ensures
        TILE_STEPS * GRID_SIZE == 2 * STEPS_PER_UNIT,
{
}

/// The vertex sequence for the grid's current arrangement.
pub fn build_geometry(grid: &Grid) -> (vertices: Vec<Vertex>)
    ensures
        vertices@ == geometry(grid@.board.tiles),
        vertices@.len() == 6 * (NUM_TILES - 1),
{
    proof {
        use_type_invariant(grid);
    }
    let mut vertices: Vec<Vertex> = Vec::new();
    let mut y: usize = 0;
    while y < GRID_SIZE
        invariant
            grid.wf(),
            y <= GRID_SIZE,
            vertices@ == geometry_prefix(grid@.board.tiles, y * GRID_SIZE),
        decreases GRID_SIZE - y,
    {
        let mut x: usize = 0;
        while x < GRID_SIZE
            invariant
                grid.wf(),
                y < GRID_SIZE,
                x <= GRID_SIZE,
                vertices@ == geometry_prefix(grid@.board.tiles, y * GRID_SIZE + x),
            decreases GRID_SIZE - x,
        {
            if grid.tile_at((x, y)) != EMPTY_TILE {
                let left: i32 = -STEPS_PER_UNIT + (x as i32) * TILE_STEPS;
                let top: i32 = STEPS_PER_UNIT - (y as i32) * TILE_STEPS;
                let right: i32 = left + TILE_STEPS;
                let bottom: i32 = top - TILE_STEPS;
                vertices.push(Vertex { x: left, y: top });
                vertices.push(Vertex { x: right, y: top });
                vertices.push(Vertex { x: right, y: bottom });
                vertices.push(Vertex { x: left, y: top });
                vertices.push(Vertex { x: right, y: bottom });
                vertices.push(Vertex { x: left, y: bottom });
            }
            proof {
                let i = y * GRID_SIZE + x;
                assert(i % (GRID_SIZE as int) == x as int && i / (GRID_SIZE as int) == y as int);
                assert(cell_index(cell((x, y))) == i);
                assert(vertices@ =~= geometry_prefix(grid@.board.tiles, i + 1));
            }
            x += 1;
        }
        y += 1;
    }
    proof {
        lemma_wf_permutation(grid@.board);
        lemma_geometry_len(grid@.board.tiles, cell_index(grid@.board.empty));
    }
    vertices
}

/// What the graphics surface answered when it was asked for the next frame.
#[derive(Clone, Copy, Debug, PartialEq, Eq, Structural)]
pub enum SurfaceStatus {
    /// A frame is there to draw into.
    Acquired,
    /// No frame came in time; the next tick may well get one.
    Timeout,
    /// The surface has changed underneath and has to be configured again.
    Outdated,
    /// The surface is gone and has to be made again.
    Lost,
    /// No memory is left for another frame.
    OutOfMemory,
}

/// What becomes of this tick's frame.
#[derive(Clone, Copy, Debug, PartialEq, Eq, Structural)]
pub enum FrameAction {
    /// Clear to [`BACKGROUND_TENTHS`], draw every vertex in one pass, present.
    Draw,
    /// Leave the frame out and say nothing.
    Skip,
    /// Leave the frame out and tell the host that graphics memory ran out.
    SkipWithDiagnostic,
    /// Leave the frame out and log the surface's error.
    SkipAndLog,
}

/// One tick's work for the graphics device.
#[derive(Debug)]
pub struct Frame {
    /// Whether to draw, and what to report if not.
    pub action: FrameAction,
    /// The triangles to upload; empty unless the frame is drawn.
    pub vertices: Vec<Vertex>,
    /// The number of vertices the one draw call covers.
    pub vertex_count: u32,
}

/// The action that answers each surface status.
///
/// Only an acquired frame is drawn. A timeout is passed over in silence,
/// exhausted memory is reported, and any other failure is logged. Every
/// failure costs this one frame and nothing else.
pub open spec fn action_for(status: SurfaceStatus) -> FrameAction {
    match status {
        SurfaceStatus::Acquired => FrameAction::Draw,
        SurfaceStatus::Timeout => FrameAction::Skip,
        SurfaceStatus::OutOfMemory => FrameAction::SkipWithDiagnostic,
        SurfaceStatus::Outdated => FrameAction::SkipAndLog,
        SurfaceStatus::Lost => FrameAction::SkipAndLog,
    }
}

/// Decides what to do with a frame from the surface's answer.
#[verifier::when_used_as_spec(action_for)]
pub fn frame_action(status: SurfaceStatus) -> (action: FrameAction)
    ensures
        action == action_for(status),
{
    match status {
        SurfaceStatus::Acquired => FrameAction::Draw,
        SurfaceStatus::Timeout => FrameAction::Skip,
        SurfaceStatus::OutOfMemory => FrameAction::SkipWithDiagnostic,
        SurfaceStatus::Outdated | SurfaceStatus::Lost => FrameAction::SkipAndLog,
    }
}

/// Plans one frame for `grid`.
///
/// The geometry is generated only for a frame that will be drawn, and the
/// draw call covers exactly the vertices generated.
pub fn render(grid: &Grid, status: SurfaceStatus) -> (frame: Frame)
    ensures
        frame.action == action_for(status),
        frame.vertices@ == if status == SurfaceStatus::Acquired {
            geometry(grid@.board.tiles)
        } else {
            Seq::empty()
        },
        frame.vertex_count == frame.vertices@.len(),
        status == SurfaceStatus::Acquired ==> frame.vertex_count == 6 * (NUM_TILES - 1),
{
    let action: FrameAction = frame_action(status);
    let vertices: Vec<Vertex> = match action {
        FrameAction::Draw => build_geometry(grid),
        _ => Vec::new(),
    };
    let vertex_count: u32 = vertices.len() as u32;
    Frame { action, vertices, vertex_count }
}

} // verus!
