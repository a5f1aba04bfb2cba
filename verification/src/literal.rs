//! The literal resolver: turns a parsed literal expression into a domain
//! value, enforcing kind, suffix and native-width agreement.

use vstd::prelude::*;
use vstd::arithmetic::power2::pow2;
use crate::domain::Domain;
use crate::error::CompileError;
use crate::value::{copy_bytes, DomainValue, ValueModel};

verus! {

/// A parsed literal expression, as the declaration front end hands it over.
#[derive(Debug, Clone)]
pub enum LiteralExpr {
    /// An unsigned integer literal together with its type suffix; the suffix
    /// is empty when the literal carries none.
    Int { value: u128, suffix: String },
    /// A single-byte literal.
    Byte(u8),
    /// A string literal.
    Str(String),
    /// A byte-string literal.
    ByteStr(Vec<u8>),
    /// A literal of any other kind; never accepted.
    Other,
}

/// The mathematical image of a literal expression.
pub enum LiteralModel {
    Int { value: nat, suffix: Seq<char> },
    Byte(u8),
    Str(Seq<char>),
    Bytes(Seq<u8>),
    Other,
}

impl View for LiteralExpr {
    type V = LiteralModel;

    open spec fn view(&self) -> LiteralModel {
        match self {
            LiteralExpr::Int { value, suffix } => LiteralModel::Int {
                value: *value as nat,
                suffix: suffix@,
            },
            LiteralExpr::Byte(b) => LiteralModel::Byte(*b),
            LiteralExpr::Str(s) => LiteralModel::Str(s@),
            LiteralExpr::ByteStr(b) => LiteralModel::Bytes(b@),
            LiteralExpr::Other => LiteralModel::Other,
        }
    }
}

/// What `resolve_literal` returns.
///
/// For an integer domain, a raw integer or single-byte literal is accepted;
/// a non-empty suffix must name the domain's native width and the value must
/// fit that width.  For the string domains only a literal of the matching
/// kind is accepted, and a zero-length literal is rejected while the empty
/// value is reserved for the default (`empty_reserved`).
pub open spec fn spec_resolve_literal(
    d: Domain,
    lit: LiteralModel,
    empty_reserved: bool,
) -> Result<ValueModel, CompileError> {
    match d {
        Domain::Integer { itype, .. } => match lit {
            LiteralModel::Byte(b) => Ok(ValueModel::Int(b as nat)),
            LiteralModel::Int { value, suffix } => if suffix.len() != 0 && suffix != itype.token() {
                Err(CompileError::SuffixMismatch)
            } else if value >= pow2(itype.spec_width()) {
                Err(CompileError::ValueOutOfRange)
            } else {
                Ok(ValueModel::Int(value))
            },
            _ => Err(CompileError::UnsupportedLiteralKind),
        },
        Domain::Str => match lit {
            LiteralModel::Str(s) => if empty_reserved && s.len() == 0 {
                Err(CompileError::ReservedEmptyLiteral)
            } else {
                Ok(ValueModel::Str(s))
            },
            _ => Err(CompileError::UnsupportedLiteralKind),
        },
        Domain::ByteStr => match lit {
            LiteralModel::Bytes(b) => if empty_reserved && b.len() == 0 {
                Err(CompileError::ReservedEmptyLiteral)
            } else {
                Ok(ValueModel::Bytes(b))
            },
            _ => Err(CompileError::UnsupportedLiteralKind),
        },
    }
}

/// The image of a resolution result.
pub open spec fn resolved_view(r: Result<DomainValue, CompileError>) -> Result<
    ValueModel,
    CompileError,
> {
    match r {
        Ok(v) => Ok(v@),
        Err(e) => Err(e),
    }
}

/// Resolves a literal expression against a domain.
pub fn resolve_literal(d: &Domain, lit: &LiteralExpr, empty_reserved: bool) -> (r: Result<
    DomainValue,
    CompileError,
>)
    ensures
        resolved_view(r) == spec_resolve_literal(*d, lit@, empty_reserved),
{
    match d {
        Domain::Integer { itype, .. } => match lit {
            LiteralExpr::Byte(b) => Ok(DomainValue::Int(*b as u128)),
            LiteralExpr::Int { value, suffix } => {
                if !suffix.as_str().is_empty() && !itype.suffix_valid(suffix) {
                    Err(CompileError::SuffixMismatch)
                } else if !itype.value_valid(*value) {
                    Err(CompileError::ValueOutOfRange)
                } else {
                    Ok(DomainValue::Int(*value))
                }
            },
            _ => Err(CompileError::UnsupportedLiteralKind),
        },
        Domain::Str => match lit {
            LiteralExpr::Str(s) => {
                if empty_reserved && s.as_str().is_empty() {
                    Err(CompileError::ReservedEmptyLiteral)
                } else {
                    Ok(DomainValue::Str(s.clone()))
                }
            },
            _ => Err(CompileError::UnsupportedLiteralKind),
        },
        Domain::ByteStr => match lit {
            LiteralExpr::ByteStr(b) => {
                if empty_reserved && b.len() == 0 {
                    Err(CompileError::ReservedEmptyLiteral)
                } else {
                    Ok(DomainValue::Bytes(copy_bytes(b)))
                }
            },
            _ => Err(CompileError::UnsupportedLiteralKind),
        },
    }
}

} // verus!
