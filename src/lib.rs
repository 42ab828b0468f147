//! An interpreter for the eight-instruction tape language: a total parser from
//! source text to an instruction tree, and a verified evaluator over a tape
//! that grows in both directions.
pub mod program;
pub mod tape;
pub mod parser;
pub mod exec;
pub mod laws;

pub use program::{BrainFuck, Command, Instr};
pub use tape::{Machine, Tape};
pub use exec::{Execution, Outcome, Status};
