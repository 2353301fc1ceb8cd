//! The tile grid: a permutation of `0..16` laid out row-major, the position of
//! the empty slot, and the number of moves the player has made.

use vstd::prelude::*;
use vstd::seq_lib::seq_to_set_is_finite;
use vstd::set_lib::{lemma_int_range, lemma_subset_equality, set_int_range};

verus! {

/// Side length of the square grid.
pub const GRID_SIZE: usize = 4;

/// Number of cells in the grid.
pub const NUM_TILES: usize = 16;

/// The tile value that marks the empty slot.
pub const EMPTY_TILE: u8 = 0;

/// A cell coordinate `(col, row)` as a pair of mathematical integers.
pub open spec fn cell(c: (usize, usize)) -> (int, int) {
    (c.0 as int, c.1 as int)
}

/// The coordinates of a list of cells, in the same order.
pub open spec fn cells(v: Seq<(usize, usize)>) -> Seq<(int, int)> {
    Seq::new(v.len(), |i: int| cell(v[i]))
}

/// Whether `c` names a cell of the grid.
pub open spec fn in_bounds(c: (int, int)) -> bool {
    0 <= c.0 < GRID_SIZE && 0 <= c.1 < GRID_SIZE
}

/// Row-major index of cell `c` in the tile sequence.
pub open spec fn cell_index(c: (int, int)) -> int {
    c.1 * GRID_SIZE + c.0
}

/// Whether `a` and `b` are orthogonal neighbours: same column and rows one
/// apart, or same row and columns one apart.
pub open spec fn adjacent(a: (int, int), b: (int, int)) -> bool {
    ||| a.0 == b.0 && (a.1 - b.1 == 1 || b.1 - a.1 == 1)
    ||| a.1 == b.1 && (a.0 - b.0 == 1 || b.0 - a.0 == 1)
}

/// The cells of the grid that are orthogonal neighbours of `pos`, in the
/// order left, right, up, down.
pub open spec fn neighbors(pos: (int, int)) -> Seq<(int, int)> {
    let left = (pos.0 - 1, pos.1);
    let right = (pos.0 + 1, pos.1);
    let up = (pos.0, pos.1 - 1);
    let down = (pos.0, pos.1 + 1);
    (if in_bounds(left) { seq![left] } else { seq![] })
        + (if in_bounds(right) { seq![right] } else { seq![] })
        + (if in_bounds(up) { seq![up] } else { seq![] })
        + (if in_bounds(down) { seq![down] } else { seq![] })
}

/// How many neighbours a cell of the grid has: two at a corner, three at an
/// edge, four inside.
pub open spec fn neighbor_count(pos: (int, int)) -> int {
    2 + (if 0 < pos.0 < GRID_SIZE - 1 { 1int } else { 0int }) + (if 0 < pos.1 < GRID_SIZE - 1 {
        1int
    } else {
        0int
    })
}

/// The tile sequence of the solved puzzle: `1, 2, .., 15` and then the empty
/// slot.
pub open spec fn solved_tiles() -> Seq<u8> {
    Seq::new(NUM_TILES as nat, |i: int| if i < NUM_TILES - 1 { (i + 1) as u8 } else { EMPTY_TILE })
}

/// The arrangement of the tiles, without the move counter.
pub struct Board {
    /// Tile values in row-major order; `0` is the empty slot.
    pub tiles: Seq<u8>,
    /// Coordinate `(col, row)` of the empty slot.
    pub empty: (int, int),
}

impl Board {
    /// The solved arrangement, with the empty slot at the bottom right.
    pub open spec fn solved() -> Board {
        Board { tiles: solved_tiles(), empty: (GRID_SIZE - 1, GRID_SIZE - 1) }
    }

    /// The tiles are a permutation of `0..16`, and `empty` is where the `0` is.
    pub open spec fn wf(self) -> bool {
        &&& self.tiles.len() == NUM_TILES
        &&& forall|i: int| 0 <= i < NUM_TILES ==> #[trigger] self.tiles[i] < NUM_TILES
        &&& forall|i: int, j: int|
            0 <= i < NUM_TILES && 0 <= j < NUM_TILES && i != j ==> #[trigger] self.tiles[i]
                != #[trigger] self.tiles[j]
        &&& in_bounds(self.empty)
        &&& self.tiles[cell_index(self.empty)] == EMPTY_TILE
    }

    /// The board with the values at `a` and `b` exchanged. Where one of the
    /// two is the empty slot, the empty slot is afterwards at the other.
    pub open spec fn swap(self, a: (int, int), b: (int, int)) -> Board {
        Board {
            tiles: self.tiles.update(cell_index(a), self.tiles[cell_index(b)]).update(
                cell_index(b),
                self.tiles[cell_index(a)],
            ),
            empty: if a == self.empty {
                b
            } else if b == self.empty {
                a
            } else {
                self.empty
            },
        }
    }

    /// Whether the tile at `target` may slide into the empty slot.
    pub open spec fn can_slide(self, target: (int, int)) -> bool {
        in_bounds(target) && adjacent(target, self.empty)
    }

    /// The board after the tile at `target` has slid into the empty slot.
    pub open spec fn slide(self, target: (int, int)) -> Board {
        self.swap(self.empty, target)
    }
}

/// What [`neighbors`] lists: exactly the cells of the grid that are orthogonal
/// neighbours of `pos`, each once; and around a cell of the grid there are
/// two of them at a corner, three at an edge and four inside.
pub proof fn lemma_neighbors(pos: (int, int))
    ensures
        forall|c: (int, int)| neighbors(pos).contains(c) <==> in_bounds(c) && adjacent(c, pos),
        neighbors(pos).no_duplicates(),
        in_bounds(pos) ==> neighbors(pos).len() == neighbor_count(pos),
{
    let n = neighbors(pos);
    let left = (pos.0 - 1, pos.1);
    let right = (pos.0 + 1, pos.1);
    let up = (pos.0, pos.1 - 1);
    let down = (pos.0, pos.1 + 1);
    let l = if in_bounds(left) { seq![left] } else { seq![] };
    let r = if in_bounds(right) { seq![right] } else { seq![] };
    let u = if in_bounds(up) { seq![up] } else { seq![] };
    let d = if in_bounds(down) { seq![down] } else { seq![] };
    assert(n == l + r + u + d);
    assert forall|c: (int, int)| in_bounds(c) && adjacent(c, pos) implies n.contains(c) by {
        if c == left {
            assert(n[0] == c);
        } else if c == right {
            assert(n[l.len() as int] == c);
        } else if c == up {
            assert(n[(l.len() + r.len()) as int] == c);
        } else {
            assert(c == down);
            assert(n[(l.len() + r.len() + u.len()) as int] == c);
        }
    }
}

/// A well-formed board is a permutation with a single empty slot: every
/// value from 0 to 15 sits in some cell, no value sits in two, and the only
/// cell that holds 0 is the one that `empty` names.
pub proof fn lemma_wf_permutation(board: Board)
    requires
        board.wf(),
    ensures
        forall|v: u8| v < NUM_TILES ==> #[trigger] board.tiles.contains(v),
        forall|i: int, j: int|
            0 <= i < NUM_TILES && 0 <= j < NUM_TILES && #[trigger] board.tiles[i]
                == #[trigger] board.tiles[j] ==> i == j,
        forall|i: int|
            0 <= i < NUM_TILES ==> (#[trigger] board.tiles[i] == EMPTY_TILE <==> i == cell_index(
                board.empty,
            )),
{
    let values = Seq::new(16, |i: int| board.tiles[i] as int);
    let range = set_int_range(0, 16);
    assert(values.no_duplicates());
    values.unique_seq_to_set();
    seq_to_set_is_finite(values);
    lemma_int_range(0, 16);
    assert(values.to_set().subset_of(range)) by {
        assert forall|v: int| values.to_set().contains(v) implies range.contains(v) by {
            let i = choose|i: int| 0 <= i < values.len() && values[i] == v;
            assert(board.tiles[i] < 16);
        }
    }
    lemma_subset_equality(values.to_set(), range);
    assert forall|v: u8| v < 16 implies #[trigger] board.tiles.contains(v) by {
        assert(range.contains(v as int));
        assert(values.to_set().contains(v as int));
        let i = choose|i: int| 0 <= i < values.len() && values[i] == v as int;
        assert(board.tiles[i] == v);
    }
}

/// Exchanging two cells of a well-formed board leaves it well formed.
pub proof fn lemma_swap_wf(board: Board, a: (int, int), b: (int, int))
    requires
        board.wf(),
        in_bounds(a),
        in_bounds(b),
    ensures
        board.swap(a, b).wf(),
{
    let after = board.swap(a, b);
    let ia = cell_index(a);
    let ib = cell_index(b);
    assert forall|i: int| 0 <= i < 16 implies #[trigger] after.tiles[i] < 16 by {
        assert(board.tiles[ia] < 16 && board.tiles[ib] < 16 && board.tiles[i] < 16);
    }
    assert forall|i: int, j: int| 0 <= i < 16 && 0 <= j < 16 && i != j implies #[trigger] after.tiles[i]
        != #[trigger] after.tiles[j] by {
        let pi = if i == ia { ib } else if i == ib { ia } else { i };
        let pj = if j == ia { ib } else if j == ib { ia } else { j };
        assert(after.tiles[i] == board.tiles[pi]);
        assert(after.tiles[j] == board.tiles[pj]);
        assert(pi != pj);
    }
}

/// Whether two cells are orthogonal neighbours.
pub fn is_adjacent(a: (usize, usize), b: (usize, usize)) -> (r: bool)
    ensures
        r == adjacent(cell(a), cell(b)),
{
    let cols_apart: bool = (a.0 > b.0 && a.0 - b.0 == 1) || (b.0 > a.0 && b.0 - a.0 == 1);
    let rows_apart: bool = (a.1 > b.1 && a.1 - b.1 == 1) || (b.1 > a.1 && b.1 - a.1 == 1);
    (a.0 == b.0 && rows_apart) || (a.1 == b.1 && cols_apart)
}

/// What a `Grid` holds: the board and the count of player moves.
pub struct GridView {
    /// The arrangement of the tiles.
    pub board: Board,
    /// The number of moves made since the last reset.
    pub moves: nat,
}

/// The puzzle state: sixteen tiles, the empty slot, and the move counter.
#[derive(Debug)]
pub struct Grid {
    tiles: [u8; NUM_TILES],
    empty_pos: (usize, usize),
    moves: u32,
}

impl View for Grid {
    type V = GridView;

    closed spec fn view(&self) -> GridView {
        GridView {
            board: Board { tiles: self.tiles@, empty: cell(self.empty_pos) },
            moves: self.moves as nat,
        }
    }
}

/// The tiles of the solved puzzle.
fn solved_array() -> (tiles: [u8; NUM_TILES])
    ensures
        tiles@ == solved_tiles(),
{
    let mut tiles: [u8; NUM_TILES] = [EMPTY_TILE; NUM_TILES];
    let mut i: usize = 0;
    while i < NUM_TILES - 1
        invariant
            i <= NUM_TILES - 1,
            tiles@[NUM_TILES - 1] == EMPTY_TILE,
            forall|k: int| 0 <= k < i ==> tiles@[k] == k + 1,
        decreases NUM_TILES - 1 - i,
    {
        tiles[i] = (i + 1) as u8;
        i += 1;
    }
    assert(tiles@ =~= solved_tiles());
    tiles
}

impl Grid {
    /// The grid's invariant, which holds of every grid there is: its board
    /// is well formed.
    #[verifier::type_invariant]
    pub open spec fn wf(&self) -> bool {
        self@.board.wf()
    }

    /// A grid in the solved arrangement with no moves made.
    pub fn new() -> (g: Grid)
        ensures
            g.wf(),
            g@.board == Board::solved(),
            g@.moves == 0,
    {
        Grid { tiles: solved_array(), empty_pos: (GRID_SIZE - 1, GRID_SIZE - 1), moves: 0 }
    }

    /// Puts the grid back into the solved arrangement and clears the move
    /// counter.
    pub fn reset(&mut self)
        ensures
            final(self).wf(),
            final(self)@.board == Board::solved(),
            final(self)@.moves == 0,
    {
        *self = Grid::new();
    }

    /// The cells of the grid next to `pos`, in the order left, right, up,
    /// down: two for a corner, three for an edge, four inside.
    pub fn neighbors_of(pos: (usize, usize)) -> (out: Vec<(usize, usize)>)
        ensures
            cells(out@) == neighbors(cell(pos)),
            forall|c: (usize, usize)|
                out@.contains(c) <==> in_bounds(cell(c)) && adjacent(cell(c), cell(pos)),
            out@.no_duplicates(),
            in_bounds(cell(pos)) ==> out@.len() == neighbor_count(cell(pos)),
    {
        let (x, y) = pos;
        let mut out: Vec<(usize, usize)> = Vec::new();
        if y < GRID_SIZE {
            if 0 < x && x <= GRID_SIZE {
                out.push((x - 1, y));
            }
            if x < GRID_SIZE - 1 {
                out.push((x + 1, y));
            }
        }
        if x < GRID_SIZE {
            if 0 < y && y <= GRID_SIZE {
                out.push((x, y - 1));
            }
            if y < GRID_SIZE - 1 {
                out.push((x, y + 1));
            }
        }
        proof {
            let found = neighbors(cell(pos));
            assert(cells(out@) =~= found);
            lemma_neighbors(cell(pos));
            assert forall|c: (usize, usize)| out@.contains(c) implies found.contains(cell(c)) by {
                let k = choose|k: int| 0 <= k < out@.len() && out@[k] == c;
                assert(cells(out@)[k] == cell(c));
            }
            assert forall|c: (usize, usize)| found.contains(cell(c)) implies out@.contains(c) by {
                let k = choose|k: int| 0 <= k < found.len() && found[k] == cell(c);
                assert(cells(out@)[k] == cell(c));
                assert(out@[k] == c);
            }
            assert forall|i: int, j: int| 0 <= i < out@.len() && 0 <= j < out@.len() && i != j implies out@[i]
                != out@[j] by {
                assert(cells(out@)[i] == cell(out@[i]) && cells(out@)[j] == cell(out@[j]));
            }
        }
        out
    }

    /// Exchanges the values at `a` and `b`. Where one of the two is the
    /// empty slot, the empty slot is afterwards at the other.
    ///
    /// This is the primitive under [`Grid::try_move`]: it keeps the tiles a
    /// permutation, but it does not ask whether the two cells are
    /// neighbours, and it does not count as a move.
    pub fn swap(&mut self, a: (usize, usize), b: (usize, usize))
        requires
            in_bounds(cell(a)),
            in_bounds(cell(b)),
        ensures
            final(self).wf(),
            final(self)@.board == old(self)@.board.swap(cell(a), cell(b)),
            final(self)@.moves == old(self)@.moves,
    {
        proof {
            use_type_invariant(&*self);
        }
        let ia: usize = a.1 * GRID_SIZE + a.0;
        let ib: usize = b.1 * GRID_SIZE + b.0;
        let mut tiles: [u8; NUM_TILES] = self.tiles;
        tiles[ia] = self.tiles[ib];
        tiles[ib] = self.tiles[ia];
        let empty_pos: (usize, usize) = if a.0 == self.empty_pos.0 && a.1 == self.empty_pos.1 {
            b
        } else if b.0 == self.empty_pos.0 && b.1 == self.empty_pos.1 {
            a
        } else {
            self.empty_pos
        };
        proof {
            let before = self@.board;
            let after = before.swap(cell(a), cell(b));
            assert(tiles@ =~= after.tiles);
            lemma_swap_wf(before, cell(a), cell(b));
        }
        *self = Grid { tiles, empty_pos, moves: self.moves };
    }

    /// Slides the tile at `target` into the empty slot if the two are
    /// orthogonal neighbours, and counts the move. Any other target leaves
    /// the grid as it was.
    pub fn try_move(&mut self, target: (usize, usize)) -> (moved: bool)
        requires
            old(self)@.moves < u32::MAX,
        ensures
            final(self).wf(),
            moved == old(self)@.board.can_slide(cell(target)),
            moved ==> final(self)@.board == old(self)@.board.slide(cell(target)),
            moved ==> final(self)@.moves == old(self)@.moves + 1,
            !moved ==> final(self)@ == old(self)@,
    {
        proof {
            use_type_invariant(&*self);
        }
        if target.0 < GRID_SIZE && target.1 < GRID_SIZE && is_adjacent(target, self.empty_pos) {
            let from: (usize, usize) = self.empty_pos;
            self.swap(from, target);
            self.moves += 1;
            true
        } else {
            false
        }
    }

    /// The tile value at cell `c`; `0` for the empty slot.
    pub fn tile_at(&self, c: (usize, usize)) -> (t: u8)
        requires
            in_bounds(cell(c)),
        ensures
            t == self@.board.tiles[cell_index(cell(c))],
    {
        self.tiles[c.1 * GRID_SIZE + c.0]
    }

    /// The sixteen tile values in row-major order.
    pub fn tiles(&self) -> (t: [u8; NUM_TILES])
        ensures
            t@ == self@.board.tiles,
    {
        self.tiles
    }

    /// The coordinate `(col, row)` of the empty slot.
    pub fn empty_pos(&self) -> (c: (usize, usize))
        ensures
            cell(c) == self@.board.empty,
    {
        self.empty_pos
    }

    /// The number of moves made since the grid was last reset.
    pub fn moves(&self) -> (m: u32)
        ensures
            m == self@.moves,
    {
        self.moves
    }
}

} // verus!
