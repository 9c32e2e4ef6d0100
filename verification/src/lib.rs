//! A Brainfuck interpreter over a fixed-size circular tape.
//!
//! [`BrainFuck`] owns the tape, the data pointer, the pending input and the
//! program counter. Its one operation, [`BrainFuck::run`], executes a program
//! under a step budget and returns what the program printed, or a message
//! that says why it stopped. What `run` does is stated against
//! [`machine::execute`], the step-by-step meaning of a program on a
//! [`machine::Machine`].
pub mod brackets;
pub mod cell;
pub mod engine;
pub mod machine;
pub mod report;

pub use crate::cell::Cell;
pub use crate::engine::BrainFuck;
