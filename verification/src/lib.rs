//! A verified arithmetization of a Merkle-inclusion-proof circuit.
//!
//! The crate models a row-based constraint system over the bn256 scalar
//! field: three row templates (first, middle, last) with boolean-selector,
//! mux and hash-transition constraints, an assembler that pins one template
//! to each row, a witness generator that folds a leaf up to a root, and a
//! checker that evaluates every declared constraint of an assembled circuit
//! against an assignment.
pub mod field;
pub mod step;
pub mod circuit;
pub mod witness;
pub mod laws;
