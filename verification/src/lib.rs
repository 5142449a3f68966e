//! A verified interpreter for the Brainfuck language.
//!
//! The interpreter executes a program text of eight single-character
//! instructions against an unbounded, zero-initialized byte tape with a
//! movable cursor. Bracket structure is validated up front by a single
//! stack-based scan, so malformed programs are rejected before any cell is
//! touched or any byte is emitted. Input and output are carried as byte
//! buffers on the interpreter state, so a run is a pure function of the
//! program text and the starting state.

pub mod brackets;
pub mod engine;
pub mod error;
pub mod state;
pub mod tape;
