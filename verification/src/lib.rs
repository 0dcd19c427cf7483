//! Evaluation of propositional satisfiability instances under partial
//! assignments: literals with polarity, AND/OR clauses, variable discovery,
//! and three-valued resolution of literals against an assignment.

pub mod literal;
pub mod state;
pub mod clause;
pub mod instance;
pub mod laws;
