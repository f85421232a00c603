//! Conway's Game of Life on a toroidal grid: the grid itself, one generation
//! of the automaton, random seeding, and the mapping of a grid onto an RGBA8
//! pixel buffer.

pub mod driver;
pub mod grid;
pub mod index;
pub mod life;
pub mod render;
pub mod seed;
