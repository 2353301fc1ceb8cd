//! Why a shuffled board can always be solved, and a board with two tiles
//! exchanged by hand never can: every slide keeps the board's parity.
//!
//! The parity of a board is the parity of the number of inversions of its
//! tile sequence plus the column and the row of the empty slot. A slide
//! exchanges two values, which changes the number of inversions by an odd
//! amount, and moves the empty slot by one cell.

use vstd::prelude::*;
use crate::grid::{cell_index, in_bounds, lemma_swap_wf, solved_tiles, Board};
use crate::walk::lemma_walk_wf;

verus! {

/// How many of the first `n` entries of `s` are greater than `v`.
pub open spec fn greater_before(s: Seq<u8>, n: int, v: u8) -> int
    decreases n,
{
    if n <= 0 {
        0
    } else {
        greater_before(s, n - 1, v) + (if s[n - 1] > v { 1int } else { 0int })
    }
}

/// The number of inversions among the first `n` entries of `s`: the pairs
/// `i < j < n` with `s[i] > s[j]`.
pub open spec fn inversions_upto(s: Seq<u8>, n: int) -> int
    decreases n,
{
    if n <= 0 {
        0
    } else {
        inversions_upto(s, n - 1) + greater_before(s, n - 1, s[n - 1])
    }
}

/// The number of inversions of `s`.
pub open spec fn inversions(s: Seq<u8>) -> int {
    inversions_upto(s, s.len() as int)
}

/// `s` with the entries at `i` and `j` exchanged.
pub open spec fn exchange(s: Seq<u8>, i: int, j: int) -> Seq<u8> {
    s.update(i, s[j]).update(j, s[i])
}

impl Board {
    /// The board's parity, `0` or `1`: that of its inversions plus the
    /// column and row of the empty slot.
    pub open spec fn parity(self) -> int {
        (inversions(self.tiles) + self.empty.0 + self.empty.1) % 2
    }
}

/// Sequences that agree on their first `n` entries have as many of them
/// greater than `v`.
proof fn lemma_greater_before_agree(s: Seq<u8>, t: Seq<u8>, n: int, v: u8)
    requires
        0 <= n <= s.len(),
        n <= t.len(),
        forall|k: int| 0 <= k < n ==> s[k] == t[k],
    ensures
        greater_before(s, n, v) == greater_before(t, n, v),
    decreases n,
{
    if n > 0 {
        lemma_greater_before_agree(s, t, n - 1, v);
    }
}

/// Sequences that agree on their first `n` entries have as many inversions
/// among them.
proof fn lemma_inversions_agree(s: Seq<u8>, t: Seq<u8>, n: int)
    requires
        0 <= n <= s.len(),
        n <= t.len(),
        forall|k: int| 0 <= k < n ==> s[k] == t[k],
    ensures
        inversions_upto(s, n) == inversions_upto(t, n),
    decreases n,
{
    if n > 0 {
        lemma_inversions_agree(s, t, n - 1);
        lemma_greater_before_agree(s, t, n - 1, s[n - 1]);
    }
}

/// Replacing one entry changes the count by what the new entry adds and the
/// old one took along.
proof fn lemma_greater_before_update(s: Seq<u8>, i: int, x: u8, n: int, v: u8)
    requires
        0 <= i < s.len(),
        0 <= n <= s.len(),
    ensures
        greater_before(s.update(i, x), n, v) == greater_before(s, n, v) + (if i < n {
            (if x > v { 1int } else { 0int }) - (if s[i] > v { 1int } else { 0int })
        } else {
            0int
        }),
    decreases n,
{
    if n > 0 {
        lemma_greater_before_update(s, i, x, n - 1, v);
    }
}

/// Exchanging two of the first `n` entries does not change how many of them
/// are greater than `v`.
proof fn lemma_greater_before_exchange(s: Seq<u8>, i: int, j: int, n: int, v: u8)
    requires
        0 <= i < n,
        0 <= j < n,
        n <= s.len(),
    ensures
        greater_before(exchange(s, i, j), n, v) == greater_before(s, n, v),
{
    let mid = s.update(i, s[j]);
    lemma_greater_before_update(s, i, s[j], n, v);
    lemma_greater_before_update(mid, j, s[i], n, v);
}

/// Exchanging two entries next to each other adds one inversion or takes
/// one away, according to which of the two was the greater.
proof fn lemma_adjacent_exchange(s: Seq<u8>, k: int, n: int)
    requires
        0 <= k,
        k + 2 <= n <= s.len(),
    ensures
        inversions_upto(exchange(s, k, k + 1), n) == inversions_upto(s, n) + (if s[k + 1] > s[k] {
            1int
        } else {
            0int
        }) - (if s[k] > s[k + 1] { 1int } else { 0int }),
    decreases n,
{
    let t = exchange(s, k, k + 1);
    if n == k + 2 {
        lemma_inversions_agree(s, t, k);
        lemma_greater_before_agree(s, t, k, s[k + 1]);
        lemma_greater_before_agree(s, t, k, s[k]);
        assert(t[k] == s[k + 1] && t[k + 1] == s[k]);
        assert(inversions_upto(t, k + 1) == inversions_upto(t, k) + greater_before(t, k, t[k]));
        assert(inversions_upto(t, k + 2) == inversions_upto(t, k + 1) + greater_before(
            t,
            k + 1,
            t[k + 1],
        ));
        assert(greater_before(t, k + 1, s[k]) == greater_before(t, k, s[k]) + (if t[k] > s[k] {
            1int
        } else {
            0int
        }));
        assert(inversions_upto(s, k + 1) == inversions_upto(s, k) + greater_before(s, k, s[k]));
        assert(inversions_upto(s, k + 2) == inversions_upto(s, k + 1) + greater_before(
            s,
            k + 1,
            s[k + 1],
        ));
        assert(greater_before(s, k + 1, s[k + 1]) == greater_before(s, k, s[k + 1]) + (if s[k] > s[k
            + 1] { 1int } else { 0int }));
    } else {
        lemma_adjacent_exchange(s, k, n - 1);
        lemma_greater_before_exchange(s, k, k + 1, n - 1, s[n - 1]);
        assert(t[n - 1] == s[n - 1]);
    }
}

/// An exchange brings in no duplicates.
proof fn lemma_exchange_no_duplicates(s: Seq<u8>, i: int, j: int)
    requires
        s.no_duplicates(),
        0 <= i < s.len(),
        0 <= j < s.len(),
    ensures
        exchange(s, i, j).no_duplicates(),
        exchange(s, i, j).len() == s.len(),
{
    let t = exchange(s, i, j);
    assert forall|a: int, b: int| 0 <= a < t.len() && 0 <= b < t.len() && a != b implies t[a]
        != t[b] by {
        let pa = if a == i { j } else if a == j { i } else { a };
        let pb = if b == i { j } else if b == j { i } else { b };
        assert(t[a] == s[pa] && t[b] == s[pb] && pa != pb);
    }
}

/// Exchanging two entries of a sequence without duplicates changes the
/// number of its inversions by an odd amount.
pub proof fn lemma_exchange_flips(s: Seq<u8>, i: int, j: int)
    requires
        s.no_duplicates(),
        0 <= i < j < s.len(),
    ensures
        (inversions(exchange(s, i, j)) - inversions(s)) % 2 == 1,
    decreases j - i,
{
    let n = s.len() as int;
    if j == i + 1 {
        lemma_adjacent_exchange(s, i, n);
    } else {
        // Bring the first entry one place up, exchange from there, and
        // bring its old neighbour back down.
        let s1 = exchange(s, i, i + 1);
        let s2 = exchange(s1, i + 1, j);
        let s3 = exchange(s2, i, i + 1);
        assert(s3 =~= exchange(s, i, j));
        lemma_adjacent_exchange(s, i, n);
        lemma_exchange_no_duplicates(s, i, i + 1);
        lemma_exchange_flips(s1, i + 1, j);
        lemma_exchange_no_duplicates(s1, i + 1, j);
        lemma_adjacent_exchange(s2, i, n);
    }
}

/// A slide keeps the parity of the board.
pub proof fn lemma_slide_parity(board: Board, target: (int, int))
    requires
        board.wf(),
        board.can_slide(target),
    ensures
        board.slide(target).parity() == board.parity(),
{
    let e = cell_index(board.empty);
    let g = cell_index(target);
    let after = board.slide(target);
    assert(board.tiles.no_duplicates());
    if e < g {
        assert(after.tiles =~= exchange(board.tiles, e, g));
        lemma_exchange_flips(board.tiles, e, g);
    } else {
        assert(after.tiles =~= exchange(board.tiles, g, e));
        lemma_exchange_flips(board.tiles, g, e);
    }
}

/// A walk keeps the parity of the board.
pub proof fn lemma_walk_parity(board: Board, path: Seq<(int, int)>)
    requires
        board.wf(),
        board.is_walk(path),
    ensures
        board.walk(path).parity() == board.parity(),
    decreases path.len(),
{
    if path.len() > 0 {
        lemma_walk_parity(board, path.drop_last());
        lemma_walk_wf(board, path.drop_last());
        lemma_slide_parity(board.walk(path.drop_last()), path.last());
    }
}

/// Boards that reach one another have the same parity.
pub proof fn lemma_reaches_parity(a: Board, b: Board)
    requires
        a.wf(),
        a.reaches(b),
    ensures
        a.parity() == b.parity(),
{
    let path = choose|path: Seq<(int, int)>| #[trigger] a.is_walk(path) && a.walk(path) == b;
    lemma_walk_parity(a, path);
}

/// Where no entry is greater than `v`, none is counted.
proof fn lemma_none_greater(s: Seq<u8>, n: int, v: u8)
    requires
        0 <= n <= s.len(),
        forall|k: int| 0 <= k < n ==> s[k] <= v,
    ensures
        greater_before(s, n, v) == 0,
    decreases n,
{
    if n > 0 {
        lemma_none_greater(s, n - 1, v);
    }
}

/// Where every entry is greater than `v`, all are counted.
proof fn lemma_all_greater(s: Seq<u8>, n: int, v: u8)
    requires
        0 <= n <= s.len(),
        forall|k: int| 0 <= k < n ==> s[k] > v,
    ensures
        greater_before(s, n, v) == n,
    decreases n,
{
    if n > 0 {
        lemma_all_greater(s, n - 1, v);
    }
}

/// An ascending run has no inversions.
proof fn lemma_ascending_prefix(s: Seq<u8>, n: int)
    requires
        0 <= n <= s.len(),
        forall|a: int, b: int| 0 <= a < b < n ==> s[a] <= s[b],
    ensures
        inversions_upto(s, n) == 0,
    decreases n,
{
    if n > 0 {
        lemma_ascending_prefix(s, n - 1);
        lemma_none_greater(s, n - 1, s[n - 1]);
    }
}

/// The solved board has odd parity: its fifteen tiles all stand before the
/// empty slot, which is in column 3 of row 3.
pub proof fn lemma_solved_parity()
    ensures
        inversions(solved_tiles()) == 15,
        Board::solved().parity() == 1,
{
    let s = solved_tiles();
    lemma_ascending_prefix(s, 15);
    lemma_all_greater(s, 15, 0u8);
    assert(inversions_upto(s, 16) == inversions_upto(s, 15) + greater_before(s, 15, s[15]));
}

/// The solvability invariant: every board that the solved one reaches has
/// odd parity.
pub proof fn lemma_solvable_parity(board: Board)
    requires
        Board::solved().reaches(board),
    ensures
        board.parity() == 1,
{
    lemma_solved_parity();
    assert(Board::solved().wf());
    lemma_reaches_parity(Board::solved(), board);
}

/// Exchanging two tiles by hand leaves the class of boards that can be
/// solved: it changes the parity, which no slide does.
pub proof fn lemma_exchange_of_tiles_changes_parity(board: Board, a: (int, int), b: (int, int))
    requires
        board.wf(),
        in_bounds(a),
        in_bounds(b),
        a != b,
        a != board.empty,
        b != board.empty,
    ensures
        board.swap(a, b).wf(),
        board.swap(a, b).parity() != board.parity(),
        !board.reaches(board.swap(a, b)),
{
    let ia = cell_index(a);
    let ib = cell_index(b);
    let after = board.swap(a, b);
    lemma_swap_wf(board, a, b);
    assert(board.tiles.no_duplicates());
    if ia < ib {
        assert(after.tiles =~= exchange(board.tiles, ia, ib));
        lemma_exchange_flips(board.tiles, ia, ib);
    } else {
        assert(after.tiles =~= exchange(board.tiles, ib, ia));
        lemma_exchange_flips(board.tiles, ib, ia);
    }
    if board.reaches(after) {
        lemma_reaches_parity(board, after);
    }
}

} // verus!
