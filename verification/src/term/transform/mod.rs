//! The passes that rewrite terms.
pub mod canonical;
pub mod fix_match_terms;
pub mod float_combinators;
pub mod floated_book;
pub mod unfloat;
