//! A verified model of the 3x3x3 twisty puzzle: square-matrix transforms, slice access to a
//! three-dimensional grid, the quarter-turn moves, and a bounded search that measures how many
//! repetitions of a move sequence bring the solved puzzle back.
pub mod transforms;
pub mod rubiks;
pub mod algorithms;
pub mod search;
