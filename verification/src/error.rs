//! The failure taxonomy of the compiler.
//!
//! Every failure is detected during compilation and aborts it; no error is
//! ever produced by the accessors of a finished table.

use vstd::prelude::*;

verus! {

/// A terminal compilation failure.
///
/// Each variant names the single condition that triggers it; the compiler
/// reports the first failure it reaches in declaration order.
#[derive(Clone, Copy, Debug, PartialEq, Eq, Structural)]
pub enum CompileError {
    /// The domain token names no known domain, or the requested mask width
    /// exceeds the native width of the integer domain.
    UnknownDomain,
    /// An integer literal carries a type suffix that names a different
    /// integer width than the domain.
    SuffixMismatch,
    /// An integer literal does not fit the native width of the domain.
    ValueOutOfRange,
    /// A literal of a kind the target domain does not accept.
    UnsupportedLiteralKind,
    /// A zero-length string or byte-string literal given as an explicit
    /// variant value while the empty value is reserved for the default.
    ReservedEmptyLiteral,
    /// A variant of a string or byte-string domain carries no literal.
    MissingDiscriminant,
    /// An assigned integer value lies at or beyond `2^mask_width`.
    DiscriminantTooLarge,
    /// Two variants resolve to the same domain value.
    DuplicateDiscriminant,
    /// A sentinel default variant that is not the last variant declared.
    DefaultNotAtEnd,
    /// A sentinel default variant that carries an explicit literal.
    DefaultHasExplicitValue,
    /// A default argument given although a sentinel default variant exists.
    DefaultVariantConflict,
    /// A default value was to be derived, but every value of the usable
    /// integer space is already assigned.
    DomainFullyCovered,
    /// The resolved default value collides with an assigned value.
    DefaultValueCollision,
    /// An integer domain without a default whose variants do not cover the
    /// usable space.
    IncompleteCoverageWithoutDefault,
    /// A string or byte-string domain without a default and without a single
    /// variant.
    EmptyEnumeration,
}

} // verus!
