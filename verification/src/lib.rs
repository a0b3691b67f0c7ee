//! Compiles declarative resource-access queries into a propositional
//! formula over integer-indexed access slots, adds one mutual-exclusion
//! constraint per exclusive slot, and decides satisfiability of the
//! result by exhaustive enumeration.

pub mod display;
pub mod formula;
pub mod laws;
pub mod sat;
pub mod compile;
pub mod registry;

pub use compile::Query;
pub use display::DisplayFormula;
pub use compile::to_formula;
pub use formula::Formula;
pub use registry::Variable;
