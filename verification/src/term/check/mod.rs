//! The checks that a term must pass before it is transformed.
pub mod scoping;
pub mod unbound_vars;
