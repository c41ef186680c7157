//! A verified interpreter for the Brainfuck esoteric programming language.
//!
//! A program is a sequence of characters; the eight instruction characters
//! act on a growable tape of unsigned 8-bit cells, a tape pointer, and an
//! instruction pointer, while every other character is a comment. Execution
//! is modelled by a small-step semantics (`interp::step`, `interp::run_n`),
//! and the executable interpreter is proved to follow it step for step.

pub mod cell;
pub mod interp;
pub mod render;
pub mod scan;

pub use cell::{inc_cell, dec_cell};
pub use interp::{Fatal, Interp, RunStatus, StepStatus};
pub use render::{BfError, OutputMode, RunResult, render, run_program};
