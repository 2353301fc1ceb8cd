//! Walks of the empty slot: what can be reached from a board by sliding tiles,
//! one at a time, into the empty slot.

use vstd::prelude::*;
use crate::grid::{lemma_swap_wf, Board};

verus! {

impl Board {
    /// The board after sliding, one after the other, the tiles at the cells
    /// of `path` into the empty slot.
    pub open spec fn walk(self, path: Seq<(int, int)>) -> Board
        decreases path.len(),
    {
        if path.len() == 0 {
            self
        } else {
            self.walk(path.drop_last()).slide(path.last())
        }
    }

    /// Whether every step of `path` slides a neighbour of the empty slot.
    pub open spec fn is_walk(self, path: Seq<(int, int)>) -> bool
        decreases path.len(),
    {
        path.len() == 0 || (self.is_walk(path.drop_last()) && self.walk(path.drop_last()).can_slide(
            path.last(),
        ))
    }

    /// Whether `other` can be had from this board by sliding tiles into the
    /// empty slot.
    pub open spec fn reaches(self, other: Board) -> bool {
        exists|path: Seq<(int, int)>| #[trigger] self.is_walk(path) && self.walk(path) == other
    }

    /// Whether `other` can be had from this board by exactly `steps` slides.
    pub open spec fn reaches_in(self, other: Board, steps: nat) -> bool {
        exists|path: Seq<(int, int)>|
            path.len() == steps && #[trigger] self.is_walk(path) && self.walk(path) == other
    }
}

/// A slide keeps the board well formed, and sliding the same tile back
/// restores the board.
pub proof fn lemma_slide_back(board: Board, target: (int, int))
    requires
        board.wf(),
        board.can_slide(target),
    ensures
        board.slide(target).wf(),
        board.slide(target).empty == target,
        board.slide(target).can_slide(board.empty),
        board.slide(target).slide(board.empty) == board,
{
    lemma_swap_wf(board, board.empty, target);
    assert(board.slide(target).slide(board.empty).tiles =~= board.tiles);
}

/// A walk from a well-formed board ends in a well-formed board.
pub proof fn lemma_walk_wf(board: Board, path: Seq<(int, int)>)
    requires
        board.wf(),
        board.is_walk(path),
    ensures
        board.walk(path).wf(),
    decreases path.len(),
{
    if path.len() > 0 {
        lemma_walk_wf(board, path.drop_last());
        lemma_slide_back(board.walk(path.drop_last()), path.last());
    }
}

/// A single slide is a walk of one step.
pub proof fn lemma_one_slide(board: Board, target: (int, int))
    requires
        board.can_slide(target),
    ensures
        board.is_walk(seq![target]),
        board.walk(seq![target]) == board.slide(target),
        board.reaches(board.slide(target)),
{
    let path = seq![target];
    assert(path.drop_last() =~= Seq::<(int, int)>::empty());
    assert(board.is_walk(path.drop_last()));
    assert(board.walk(path.drop_last()) == board);
    assert(path.last() == target);
    assert(board.is_walk(path) && board.walk(path) == board.slide(target));
}

/// Two walks, one after the other, are one walk.
pub proof fn lemma_walk_concat(board: Board, first: Seq<(int, int)>, second: Seq<(int, int)>)
    requires
        board.is_walk(first),
        board.walk(first).is_walk(second),
    ensures
        board.is_walk(first + second),
        board.walk(first + second) == board.walk(first).walk(second),
    decreases second.len(),
{
    if second.len() == 0 {
        assert(first + second =~= first);
    } else {
        lemma_walk_concat(board, first, second.drop_last());
        assert((first + second).drop_last() =~= first + second.drop_last());
        assert((first + second).last() == second.last());
    }
}

/// Every board reaches itself, by the empty walk.
pub proof fn lemma_reaches_reflexive(board: Board)
    ensures
        board.reaches(board),
{
    let path = Seq::<(int, int)>::empty();
    assert(board.is_walk(path) && board.walk(path) == board);
}

/// What can be reached in two stages can be reached.
pub proof fn lemma_reaches_transitive(a: Board, b: Board, c: Board)
    requires
        a.reaches(b),
        b.reaches(c),
    ensures
        a.reaches(c),
{
    let first = choose|path: Seq<(int, int)>| #[trigger] a.is_walk(path) && a.walk(path) == b;
    let second = choose|path: Seq<(int, int)>| #[trigger] b.is_walk(path) && b.walk(path) == c;
    lemma_walk_concat(a, first, second);
    assert(a.is_walk(first + second) && a.walk(first + second) == c);
}

/// A walk can be played back: its end reaches its start.
pub proof fn lemma_walk_back(board: Board, path: Seq<(int, int)>)
    requires
        board.wf(),
        board.is_walk(path),
    ensures
        board.walk(path).reaches(board),
    decreases path.len(),
{
    if path.len() == 0 {
        lemma_reaches_reflexive(board);
    } else {
        let before = board.walk(path.drop_last());
        let end = board.walk(path);
        lemma_walk_wf(board, path.drop_last());
        lemma_slide_back(before, path.last());
        lemma_one_slide(end, before.empty);
        lemma_walk_back(board, path.drop_last());
        lemma_reaches_transitive(end, before, board);
    }
}

/// Reachability runs both ways: whatever a well-formed board reaches is
/// well formed and reaches it in turn. A board shuffled from the solved one
/// can therefore be solved.
pub proof fn lemma_reaches_symmetric(a: Board, b: Board)
    requires
        a.wf(),
        a.reaches(b),
    ensures
        b.wf(),
        b.reaches(a),
{
    let path = choose|path: Seq<(int, int)>| #[trigger] a.is_walk(path) && a.walk(path) == b;
    lemma_walk_wf(a, path);
    lemma_walk_back(a, path);
}

} // verus!
