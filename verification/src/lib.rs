//! A verified interpreter for a minimal, character-based instruction
//! language operating on a fixed-size circular byte tape.
//!
//! The crate is split in two:
//! - [`program`] turns source text into a flat instruction sequence with
//!   pre-resolved jump targets for loop constructs, or reports exactly
//!   which brackets are unmatched;
//! - [`machine`] executes such a sequence against a mutable tape and data
//!   pointer, with wraparound byte arithmetic and a circular tape.

pub mod machine;
pub mod program;
