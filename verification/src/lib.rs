//! A verified interpreter for a 32-bit-word instruction set with a segmented,
//! dynamically allocated memory model and a file of eight registers.
//!
//! The machine state and the run loop live in [`emulation_unit`]; instruction
//! decoding and the semantics of each instruction live in [`rum_instruction`].

pub mod emulation_unit;
pub mod rum_instruction;
