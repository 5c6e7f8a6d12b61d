//! A turn-based dungeon exploration game for a character terminal: a
//! double-buffered grid with a minimal-delta flush, line-of-sight vision, a
//! room-and-corridor dungeon generator, a message log and a scene stack.
use vstd::prelude::*;

pub mod console;
pub mod logic;
pub mod ui;

verus! {
} // verus!
