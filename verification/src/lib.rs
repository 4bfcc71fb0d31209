//! A falling-block puzzle engine: a fixed 10x20 board, seven piece kinds with
//! four rotation masks each, a fair "bag" piece queue, collision detection,
//! wall-kick rotation, lock-delay timing, line compaction and scoring.
//!
//! The engine is purely tick-driven: a driver calls [`game::Game::iterate`]
//! once per frame and the control operations (move, rotate, hard drop, hold)
//! in between, and reads the board, queue, counters and active piece back
//! for display.

pub mod board;
pub mod falling;
pub mod game;
pub mod piece;
pub mod queue;
