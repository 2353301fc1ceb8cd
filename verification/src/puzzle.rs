//! The puzzle session: one grid, owned by one object, which is either still
//! waiting for its graphics context or ready to play.
//!
//! The session decides; the host acts. Each operation that changes what the
//! player sees hands back a [`DisplayUpdate`], and each frame is planned by
//! [`Puzzle::render`] from the surface's answer.

use vstd::prelude::*;
use crate::grid::{Board, Grid, GridView, NUM_TILES};
use crate::input::cell_under;
use crate::parity::lemma_solved_parity;
use crate::render::{action_for, geometry, render, Frame, FrameAction, SurfaceStatus};
use crate::shuffle::SHUFFLE_MOVES;
use crate::text::{decimal, decimal_text};

verus! {

/// The name of the host's element that shows the move counter.
pub const MOVE_COUNT_ELEMENT: &'static str = "move-count";

/// Where a session stands in its life.
#[derive(Clone, Copy, Debug, PartialEq, Eq, Structural)]
pub enum Phase {
    /// Made, but the graphics context is not there yet: nothing is drawn and
    /// no click is taken.
    Uninitialized,
    /// Shuffled and on screen.
    Ready,
}

/// What the host shows after the session has changed: it writes
/// `counter_text` into the element named [`MOVE_COUNT_ELEMENT`] and draws the
/// grid afresh.
#[derive(Debug)]
pub struct DisplayUpdate {
    /// The move counter in decimal.
    pub counter_text: String,
}

/// What a `Puzzle` holds.
pub struct PuzzleView {
    /// The grid and its move counter.
    pub grid: GridView,
    /// Whether the session is ready.
    pub phase: Phase,
}

/// A puzzle session.
#[derive(Debug)]
pub struct Puzzle {
    grid: Grid,
    phase: Phase,
}

impl View for Puzzle {
    type V = PuzzleView;

    closed spec fn view(&self) -> PuzzleView {
        PuzzleView { grid: self.grid@, phase: self.phase }
    }
}

impl Puzzle {
    /// The session's board is well formed, as every grid's is.
    pub open spec fn wf(&self) -> bool {
        self@.grid.board.wf()
    }

    /// Whether a click at pixel `(x, y)` of a canvas `width` by `height`
    /// pixels moves a tile: the session is ready, and the pixel is under a
    /// cell next to the empty slot.
    pub open spec fn takes_click(&self, x: int, y: int, width: int, height: int) -> bool {
        &&& self@.phase == Phase::Ready
        &&& cell_under(x, y, width, height) matches Some(c)
        &&& self@.grid.board.can_slide(c)
    }

    /// A session that waits for its graphics context, with the grid solved
    /// and no moves made.
    pub fn new() -> (puzzle: Puzzle)
        ensures
            puzzle.wf(),
            puzzle@.phase == Phase::Uninitialized,
            puzzle@.grid.board == Board::solved(),
            puzzle@.grid.moves == 0,
    {
        Puzzle { grid: Grid::new(), phase: Phase::Uninitialized }
    }

    /// Enters the ready phase with a fresh shuffle, once the graphics
    /// context is there.
    pub fn init(&mut self) -> (update: DisplayUpdate)
        ensures
            final(self).wf(),
            final(self)@.phase == Phase::Ready,
            final(self)@.grid.moves == 0,
            Board::solved().reaches_in(final(self)@.grid.board, SHUFFLE_MOVES as nat),
            final(self)@.grid.board.reaches(Board::solved()),
            final(self)@.grid.board.parity() == 1,
            update.counter_text@ == seq!['0'],
    {
        self.phase = Phase::Ready;
        self.restart()
    }

    /// Starts over: the move counter goes back to zero and the grid is
    /// shuffled afresh from the solved arrangement, so that it can be solved
    /// again.
    pub fn restart(&mut self) -> (update: DisplayUpdate)
        ensures
            final(self).wf(),
            final(self)@.phase == old(self)@.phase,
            final(self)@.grid.moves == 0,
            Board::solved().reaches_in(final(self)@.grid.board, SHUFFLE_MOVES as nat),
            final(self)@.grid.board.reaches(Board::solved()),
            final(self)@.grid.board.parity() == 1,
            update.counter_text@ == seq!['0'],
    {
        self.grid.reset();
        let update = DisplayUpdate { counter_text: self.move_count_text() };
        self.grid.shuffle();
        proof {
            lemma_solved_parity();
        }
        update
    }

    /// Handles a click at pixel `(x, y)` of a canvas `width` by `height`
    /// pixels.
    ///
    /// Where the click moves a tile, the move is counted and the new count
    /// comes back for display. Any other click, and any click before the
    /// session is ready, changes nothing and gives `None`.
    pub fn click(&mut self, x: u32, y: u32, width: u32, height: u32) -> (update: Option<
        DisplayUpdate,
    >)
        requires
            old(self)@.grid.moves < u32::MAX,
        ensures
            final(self).wf(),
            final(self)@.phase == old(self)@.phase,
            update is Some <==> old(self).takes_click(x as int, y as int, width as int, height as int),
            update matches Some(u) ==> {
                &&& final(self)@.grid.board == old(self)@.grid.board.slide(
                    cell_under(x as int, y as int, width as int, height as int).unwrap(),
                )
                &&& final(self)@.grid.moves == old(self)@.grid.moves + 1
                &&& u.counter_text@ == decimal(final(self)@.grid.moves)
            },
            update is None ==> final(self)@ == old(self)@,
    {
        proof {
            use_type_invariant(&self.grid);
        }
        match self.phase {
            Phase::Uninitialized => None,
            Phase::Ready => {
                if self.grid.click(x, y, width, height) {
                    Some(DisplayUpdate { counter_text: self.move_count_text() })
                } else {
                    None
                }
            },
        }
    }

    /// Plans this tick's frame from the surface's answer.
    ///
    /// A session that is not ready draws nothing. A ready one draws the grid
    /// as it stands if the surface gave a frame, and otherwise skips the
    /// frame as [`action_for`] says.
    pub fn render(&self, status: SurfaceStatus) -> (frame: Frame)
        ensures
            frame.action == if self@.phase == Phase::Ready {
                action_for(status)
            } else {
                FrameAction::Skip
            },
            frame.vertices@ == if frame.action == FrameAction::Draw {
                geometry(self@.grid.board.tiles)
            } else {
                Seq::empty()
            },
            frame.vertex_count == frame.vertices@.len(),
            frame.action == FrameAction::Draw ==> frame.vertex_count == 6 * (NUM_TILES - 1),
    {
        match self.phase {
            Phase::Uninitialized => Frame {
                action: FrameAction::Skip,
                vertices: Vec::new(),
                vertex_count: 0,
            },
            Phase::Ready => render(&self.grid, status),
        }
    }

    /// The move counter as the host displays it.
    pub fn move_count_text(&self) -> (text: String)
        ensures
            text@ == decimal(self@.grid.moves),
    {
        decimal_text(self.grid.moves())
    }

    /// The session's grid.
    pub fn grid(&self) -> (grid: &Grid)
        ensures
            grid@ == self@.grid,
    {
        &self.grid
    }

    /// The session's phase.
    pub fn phase(&self) -> (phase: Phase)
        ensures
            phase == self@.phase,
    {
        self.phase
    }
}

} // verus!
