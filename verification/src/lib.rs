//! A verified falling-block puzzle core: piece spawning, gravity,
//! movement and rotation with collision detection, line clears with a
//! purgatory flash, swap mechanics, buffered input and the frame-based
//! timing state machine. Rendering and host plumbing live outside; an
//! embedding drives the [`state::Inner`] value through
//! [`state::Inner::tick`] and [`state::Inner::handle_key`].

use vstd::prelude::*;

pub mod board;
pub mod geom;
pub mod laws;
pub mod piece;
pub mod rng;
pub mod state;

verus! {

/// Width of the playing field, in cells. Columns span `[0, NUM_COLS)`.
pub const NUM_COLS: i32 = 10;

/// Height of the playing field, in cells. Rows span `[0, NUM_ROWS)`.
pub const NUM_ROWS: i32 = 20;

/// Number of frames between two piece updates (movement cadence).
pub const MIN_SPEED: u32 = 5;

/// How many keys the input buffer keeps before dropping further input.
pub const MAX_KEY_BUFF_LEN: usize = 3;

/// Ticks a piece may rest without a successful move before it is merged.
pub const FRAMES_BEFORE_WE_SEAL_MOVE: u32 = 8;

/// Ticks the purgatory highlight of a completed row stays before the clear.
pub const FRAMES_TO_SHOW_PURGATORY: u32 = 2;

} // verus!
