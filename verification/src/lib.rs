//! A terminal-oriented layout library: it carves a rectangular character grid
//! into non-overlapping regions, lets each region accumulate lines of text from
//! two opposing edges toward a movable divider, and turns the accumulated text
//! into a flat stream of cursor-move and print instructions.

pub mod grid;
pub mod out;
pub mod prelude;
pub mod process;
pub mod trim;
