//! The item economy of a backlog game: stacks of unconsumed items, a short
//! queue, one active consumption slot, a stress meter and the random spawner
//! that keeps the stacks growing.
//!
//! Quantities that the game shows as fractions are held as integers: stress in
//! half points, time in nanoseconds, heights in whole units. Random choices
//! are made from raw 32-bit draws of one generator; each choice is a function
//! of its draw.

pub mod consume_counter;
pub mod dialog;
pub mod entropy;
pub mod game_state;
pub mod item;
pub mod ownership;
pub mod queue;
pub mod simulation;
pub mod spawning;
pub mod stack;
pub mod stress;
pub mod theorems;
