//! Front end of a compiler from a small functional language to interaction
//! nets.
//!
//! - [`term`]: the terms, rules, definitions and the book; substitution and
//!   the walks over subterms; the printer.
//! - [`term::check`]: the scope analysis.
//! - [`term::transform`]: the elaboration of matches and the floating of
//!   combinators.
//! - [`net`]: the layout of a net in 64-bit words.
//! - [`encode`]: the encoding of a term into a net.
//! - [`diagnostics`]: the errors and warnings that the passes record.
//! - [`compile`]: the passes in their order.
pub mod compile;
pub mod diagnostics;
pub mod encode;
pub mod net;
pub mod term;
