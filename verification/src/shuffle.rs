//! The shuffle engine: a random walk of the empty slot.
//!
//! Every step slides one neighbouring tile into the empty slot, so whatever
//! the random source answers, the shuffled board can be played back to where
//! it started.

use vstd::prelude::*;
use rand::rngs::ThreadRng;
use rand::seq::SliceRandom;
use crate::grid::{cell, is_adjacent, Board, Grid, GRID_SIZE};
use crate::parity::lemma_walk_parity;
use crate::walk::lemma_reaches_symmetric;

verus! {

/// The number of steps of the random walk that shuffles a grid.
pub const SHUFFLE_MOVES: usize = 100;

/// The thread-local random number generator of the `rand` crate, held as an
/// opaque value: nothing is known of the numbers it gives.
#[verifier::external_type_specification]
#[verifier::external_body]
pub struct ExThreadRng(rand::rngs::ThreadRng);

/// `rand::thread_rng` hands out the calling thread's generator, which the
/// system seeds; it fails only where the system has no randomness to seed
/// it with. Nothing is claimed of the generator it returns.
pub assume_specification[ rand::thread_rng ]() -> (rng: ThreadRng);

/// Picks one of `options` at random, by `SliceRandom::choose` of the `rand`
/// crate.
///
/// Taken on trust from that crate: an empty list gives `None`, and any other
/// list gives one of its own elements. Which one is up to the generator, so
/// nothing more is said of it.
#[verifier::external_body]
fn choose_cell(options: &Vec<(usize, usize)>, rng: &mut ThreadRng) -> (pick: Option<(usize, usize)>)
    ensures
        pick is None <==> options@.len() == 0,
        pick matches Some(c) ==> options@.contains(c),
{
    options.choose(rng).copied()
}

impl Grid {
    /// One step of the walk: slides the tile at `pick` into the empty slot.
    ///
    /// A pick that is no neighbour of the empty slot, or no pick at all,
    /// leaves the grid as it was. The move counter is never touched.
    pub fn shuffle_step(&mut self, pick: Option<(usize, usize)>) -> (moved: bool)
        ensures
            final(self).wf(),
            final(self)@.moves == old(self)@.moves,
            moved == (pick matches Some(c) && old(self)@.board.can_slide(cell(c))),
            moved ==> final(self)@.board == old(self)@.board.slide(cell(pick.unwrap())),
            !moved ==> final(self)@.board == old(self)@.board,
    {
        proof {
            use_type_invariant(&*self);
        }
        match pick {
            Some(c) => {
                let from: (usize, usize) = self.empty_pos();
                if c.0 < GRID_SIZE && c.1 < GRID_SIZE && is_adjacent(c, from) {
                    self.swap(from, c);
                    true
                } else {
                    false
                }
            },
            None => false,
        }
    }

    /// Shuffles the grid by a random walk of `SHUFFLE_MOVES` steps: at each
    /// step one of the neighbours of the empty slot, picked at random, slides
    /// into it.
    ///
    /// The result is reached from the grid's arrangement before the call by
    /// exactly that many slides. The move counter is left alone.
    pub fn shuffle(&mut self)
        ensures
            final(self).wf(),
            final(self)@.moves == old(self)@.moves,
            old(self)@.board.reaches_in(final(self)@.board, SHUFFLE_MOVES as nat),
            old(self)@.board.reaches(final(self)@.board),
            final(self)@.board.reaches(old(self)@.board),
            final(self)@.board.parity() == old(self)@.board.parity(),
    {
        proof {
            use_type_invariant(&*self);
        }
        let mut rng: ThreadRng = rand::thread_rng();
        let ghost start: Board = self@.board;
        let ghost mut path: Seq<(int, int)> = Seq::empty();
        let mut i: usize = 0;
        while i < SHUFFLE_MOVES
            invariant
                i <= SHUFFLE_MOVES,
                self.wf(),
                self@.moves == old(self)@.moves,
                path.len() == i,
                start.is_walk(path),
                start.walk(path) == self@.board,
            decreases SHUFFLE_MOVES - i,
        {
            // The empty slot has two neighbours at least, so there is a pick,
            // and the pick is a neighbour, so the step moves.
            let options: Vec<(usize, usize)> = Grid::neighbors_of(self.empty_pos());
            let pick: Option<(usize, usize)> = choose_cell(&options, &mut rng);
            proof {
                let longer = path.push(cell(pick.unwrap()));
                assert(longer.drop_last() =~= path);
                path = longer;
            }
            let moved: bool = self.shuffle_step(pick);
            assert(moved);
            i += 1;
        }
        proof {
            assert(start.is_walk(path) && start.walk(path) == self@.board);
            lemma_reaches_symmetric(start, self@.board);
            lemma_walk_parity(start, path);
        }
    }
}

} // verus!
