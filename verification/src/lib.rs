use vstd::prelude::*;

pub mod cells;
pub mod font;
pub mod game;
pub mod grid;
pub mod gui;
pub mod image;
pub mod line;
pub mod lines;
pub mod paint;
pub mod push;
pub mod spawn;
pub mod wide_strings;

verus! {

/// Side length of the square grid.
pub const SIZE: usize = 4;

} // verus!
