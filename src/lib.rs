//! The core of a limited first-order reasoner: hash-consed terms over sorted
//! symbols, canonically oriented literals over term (dis)equality, clauses
//! kept sorted with a Bloom summary of their left terms for fast subsumption
//! and unit propagation, and setups, stacks of clause levels that grow at
//! the tip.
pub mod bloom;
pub mod clause;
pub mod hash;
pub mod literal;
pub mod setup;
pub mod substitution;
pub mod symbol;
pub mod term;
