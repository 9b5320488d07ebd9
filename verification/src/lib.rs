//! Constraint encodings for grid puzzles in which numbered pieces move along
//! straight-step paths: a generic movement encoding, and the terminal rules of
//! Army Ants on top of it.
//!
//! A formula is an explicit value: a grid shape and an ordered list of
//! constraints over per-cell and per-edge decision variables. Searching for a
//! satisfying assignment is left to a solver outside this library.

pub mod armyants;
pub mod assignment;
pub mod formula;
pub mod movement;
pub mod paths;
