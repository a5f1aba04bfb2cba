//! Domain values: the concrete discriminants a table stores.

use vstd::prelude::*;
use vstd::arithmetic::power2::pow2;
use crate::domain::Domain;

verus! {

/// A concrete discriminant value drawn from one of the three domains.
#[derive(Debug, Clone, PartialEq, Eq)]
pub enum DomainValue {
    /// A value of an integer domain, held in the widest native width.
    Int(u128),
    /// A value of the string domain.
    Str(String),
    /// A value of the byte-string domain.
    Bytes(Vec<u8>),
}

/// The mathematical image of a domain value.
pub enum ValueModel {
    Int(nat),
    Str(Seq<char>),
    Bytes(Seq<u8>),
}

impl View for DomainValue {
    type V = ValueModel;

    open spec fn view(&self) -> ValueModel {
        match self {
            DomainValue::Int(n) => ValueModel::Int(*n as nat),
            DomainValue::Str(s) => ValueModel::Str(s@),
            DomainValue::Bytes(b) => ValueModel::Bytes(b@),
        }
    }
}

/// Whether a value lies in the usable space of a domain: an integer below
/// `2^mask_width`, or any string or byte string of the matching kind.
pub open spec fn value_in_domain(d: Domain, v: ValueModel) -> bool {
    match d {
        Domain::Integer { mask_width, .. } => v matches ValueModel::Int(n) && n < pow2(
            mask_width as nat,
        ),
        Domain::Str => v is Str,
        Domain::ByteStr => v is Bytes,
    }
}

/// Whether a value is of the kind a domain's accessors take: integer domains
/// accept any integer (it is masked into the usable space), the string
/// domains any value of their kind.
pub open spec fn value_kind_matches(d: Domain, v: ValueModel) -> bool {
    match d {
        Domain::Integer { .. } => v is Int,
        Domain::Str => v is Str,
        Domain::ByteStr => v is Bytes,
    }
}

/// Element-wise equality of two byte vectors.
pub fn bytes_eq(a: &Vec<u8>, b: &Vec<u8>) -> (r: bool)
    ensures
        r == (a@ == b@),
{
    if a.len() != b.len() {
        return false;
    }
    let mut i: usize = 0;
    while i < a.len()
        invariant
            i <= a.len(),
            a.len() == b.len(),
            forall|k: int| 0 <= k < i ==> a@[k] == b@[k],
        decreases a.len() - i,
    {
        if a[i] != b[i] {
            return false;
        }
        i = i + 1;
    }
    proof {
        assert(a@ =~= b@);
    }
    true
}

/// A fresh byte vector with the same contents.
pub fn copy_bytes(b: &Vec<u8>) -> (r: Vec<u8>)
    ensures
        r@ == b@,
{
    let mut r: Vec<u8> = Vec::new();
    let mut i: usize = 0;
    while i < b.len()
        invariant
            i <= b.len(),
            r@ == b@.take(i as int),
        decreases b.len() - i,
    {
        r.push(b[i]);
        proof {
            assert(r@ =~= b@.take(i + 1 as int));
        }
        i = i + 1;
    }
    proof {
        assert(b@.take(b@.len() as int) =~= b@);
    }
    r
}

/// Structural equality of two domain values; values of different kinds are
/// never equal.
pub fn eq_value(a: &DomainValue, b: &DomainValue) -> (r: bool)
    ensures
        r == (a@ == b@),
{
    match (a, b) {
        (DomainValue::Int(x), DomainValue::Int(y)) => *x == *y,
        (DomainValue::Str(x), DomainValue::Str(y)) => *x == *y,
        (DomainValue::Bytes(x), DomainValue::Bytes(y)) => bytes_eq(x, y),
        _ => false,
    }
}

/// A fresh domain value equal to the given one.
pub fn copy_value(v: &DomainValue) -> (r: DomainValue)
    ensures
        r@ == v@,
{
    match v {
        DomainValue::Int(n) => DomainValue::Int(*n),
        DomainValue::Str(s) => DomainValue::Str(s.clone()),
        DomainValue::Bytes(b) => DomainValue::Bytes(copy_bytes(b)),
    }
}

} // verus!
