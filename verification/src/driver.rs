//! The simulation as its host sees it: it owns the current generation,
//! replaces it on every tick and draws it on every redraw.

use crate::grid::Board;
use crate::grid::Grid;
use crate::grid::GridError;
use crate::life::update;
use crate::render::draw;
use crate::render::frame_len;
use crate::render::rendered;
use crate::render::RenderError;
use crate::seed::generate;
use vstd::prelude::*;

verus! {

/// A running simulation. Its model is the board of the current generation.
pub struct Simulation {
    grid: Grid,
}

impl View for Simulation {
    type V = Board;

    closed spec fn view(&self) -> Board {
        self.grid@
    }
}

impl Simulation {
    /// A simulation of the given size whose first generation is drawn at random.
    pub fn start(width: usize, height: usize) -> (r: Result<Simulation, GridError>)
        requires
            width * height <= usize::MAX,
        ensures
            r is Err <==> width == 0 || height == 0,
            r is Err ==> r == Err::<Simulation, GridError>(GridError::InvalidDimensions),
            r is Ok ==> r.unwrap()@.width == width && r.unwrap()@.height == height,
            r is Ok ==> r.unwrap()@.wf(),
    {
        match generate(width, height) {
            Ok(grid) => Ok(Simulation { grid }),
            Err(e) => Err(e),
        }
    }

    /// A simulation whose first generation is `grid`.
    pub fn from_grid(grid: Grid) -> (sim: Simulation)
        ensures
            sim@ == grid@,
    {
        Simulation { grid }
    }

    /// The current generation.
    pub fn grid(&self) -> (grid: &Grid)
        ensures
            grid@ == self@,
    {
        &self.grid
    }

    /// Replaces the current generation by the next one.
    pub fn tick(&mut self)
        ensures
            final(self)@ == old(self)@.step(),
            final(self)@.width == old(self)@.width,
            final(self)@.height == old(self)@.height,
            final(self)@.wf(),
    {
        let next = update(&self.grid);
        self.grid = next;
    }

    /// Draws the current generation at `scale` into `frame`, which must hold
    /// exactly four bytes for each pixel; a buffer of any other length is
    /// refused and left as it is.
    pub fn redraw(&self, frame: &mut [u8], scale: usize) -> (r: Result<(), RenderError>)
        ensures
            r is Ok <==> old(frame)@.len() == frame_len(self@, scale as nat),
            r is Ok ==> final(frame)@ == rendered(self@, scale as nat),
            r is Err ==> r == Err::<(), RenderError>(RenderError::InvalidBufferSize),
            r is Err ==> final(frame)@ == old(frame)@,
    {
        draw(frame, &self.grid, scale)
    }
}

} // verus!
