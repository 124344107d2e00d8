//! An arithmetic-circuit constraint system with deterministic witness
//! generation.
//!
//! A caller describes a computation as a grid of algebraic gates over a
//! fixed prime field, records copy constraints between wires, and finalizes
//! the description into an immutable layout.  Concrete values for the
//! externally supplied wires are then placed in a partial witness, and the
//! scheduler runs each gate's generator exactly once, when its dependencies
//! are ready, to derive every remaining wire value.  A separate evaluator
//! checks that a complete witness satisfies every gate's constraint
//! polynomials.
//!
//! The proving protocol itself — commitments, challenges, proofs and their
//! verification — consumes the finalized layout and the resolved witness
//! through a backend of its own; that backend, and with it any persisted
//! serialization of gates, layouts, or proofs, is outside this crate.

pub mod builder;
pub mod config;
pub mod errors;
pub mod eval;
pub mod field;
pub mod gates;
pub mod generator;
pub mod laws;
pub mod layout;
pub mod range_check;
pub mod scheduler;
pub mod split_base;
pub mod split_nonnative;
pub mod target;
pub mod witness;
