//! The core of an interpreter for EVM bytecode: a stack machine that
//! executes one single-byte instruction at a time, meters gas, and can be
//! paused and resumed between any two instructions.
//!
//! The modules, leaves first:
//!
//! - [`encoding`]: big-endian byte strings as natural numbers;
//! - [`word`], [`arith`], [`bits`]: the 256-bit word and its operations;
//! - [`opcode`]: the instruction set;
//! - [`types`]: the values that the interpreter exchanges with its driver;
//! - [`interpreter`]: the gas and stack helpers, the analysis of jump
//!   destinations, the semantics of the instructions, and the dispatch loop
//!   that is proved to follow them.
//!
//! The interpreter calls no host. Where an instruction needs the balance of
//! an account or the hash of a block, or is one that the interpreter leaves
//! to its driver, the run ends before that instruction and says what it
//! needs; the driver resumes the run with the answer.

pub mod arith;
pub mod bits;
pub mod encoding;
pub mod interpreter;
pub mod opcode;
pub mod types;
pub mod word;
