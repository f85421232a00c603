//! The first generation, drawn at random.

use crate::grid::Grid;
use crate::grid::GridError;
use vstd::prelude::*;

verus! {

/// One fair coin toss, by `rand::random::<bool>()`, which draws from the
/// generator that `rand` keeps for each thread. The outcome is a matter of
/// chance, so nothing is claimed of it.
#[verifier::external_body]
fn random_bool() -> (b: bool) {
    rand::random::<bool>()
}

/// A grid of the given size in which each cell is alive or dead as a coin
/// toss of its own decides.
pub fn generate(width: usize, height: usize) -> (r: Result<Grid, GridError>)
    requires
        width * height <= usize::MAX,
    ensures
        r is Err <==> width == 0 || height == 0,
        r is Err ==> r == Err::<Grid, GridError>(GridError::InvalidDimensions),
        r is Ok ==> r.unwrap()@.width == width && r.unwrap()@.height == height,
        r is Ok ==> r.unwrap()@.wf(),
{
    if width == 0 || height == 0 {
        return Err(GridError::InvalidDimensions);
    }
    let n: usize = width * height;
    let mut cells: Vec<bool> = Vec::new();
    let mut i: usize = 0;
    while i < n
        invariant
            i <= n,
            cells@.len() == i,
        decreases n - i,
    {
        cells.push(random_bool());
        i += 1;
    }
    Grid::from_cells(width, height, cells)
}

} // verus!
