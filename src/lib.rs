//! A small PLONKish circuit engine: a constraint system of columns, selectors
//! and gates, a layouter that places a witness into regions of a grid, and a
//! checker that reports every violated gate, copy constraint and public input.
//! Field arithmetic is that of the Pallas base field, as pasta's `Fp` does it.

pub mod field;
pub mod plonk;
pub mod layout;
pub mod prover;
pub mod fibonacci;
pub mod simple;
