//! A compiler for declarative enumeration specifications.
//!
//! An enumeration specification is an ordered list of symbolic names, each
//! optionally paired with a literal value drawn from a bounded domain
//! (fixed-width unsigned integers, UTF-8 strings, or byte strings).  The
//! compiler turns such a specification into a validated, total, bidirectional
//! mapping between names and domain values: a [`table::DiscriminantTable`]
//! with a forward accessor (name to value) and a reverse accessor (value to
//! name).  All validation happens during compilation; once a table exists,
//! both accessors are total on their stated domains and never fail.
pub mod accessor;
pub mod compile;
pub mod decl;
pub mod domain;
pub mod error;
pub mod laws;
pub mod literal;
pub mod masking;
pub mod sorted;
pub mod table;
pub mod value;
