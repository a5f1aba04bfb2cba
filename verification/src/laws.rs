//! The guarantees of a compiled table, stated and proved once and for all.
//!
//! Everything here is a consequence of the compiler's definition
//! (`spec_compile`) and of the table invariant (`TableModel::wf`): a
//! successfully compiled table satisfies the invariant, the two accessors
//! invert each other, masking cannot change a reverse lookup, a default
//! makes the reverse accessor total, and the coverage and uniqueness rules
//! decide compilation exactly.

use vstd::prelude::*;
use vstd::arithmetic::power2::{lemma_pow2_pos, pow2};
use crate::accessor::{spec_key, spec_reverse, LookupModel};
use crate::compile::{
    has_sentinel, is_first_unused, lemma_first_unused_exists, spec_assign, spec_body,
    spec_compile, spec_covered, spec_default_stage, spec_empty_reserved, spec_entries,
    spec_first_unused, spec_sentinel_error, spec_step_value,
};
use crate::decl::{EnumDeclModel, VariantModel};
use crate::domain::Domain;
use crate::error::CompileError;
use crate::literal::{spec_resolve_literal, LiteralModel};
use crate::masking::{lemma_mask128_is_mod, lemma_or_outside_mask128, lemma_small_masked, mask128};
use crate::table::{DefaultModel, TableModel};
use crate::value::{value_in_domain, value_kind_matches, ValueModel};

verus! {

/// Pairwise distinctness of a value sequence.
pub open spec fn distinct_values(vals: Seq<ValueModel>) -> bool {
    forall|i: int, j: int| 0 <= i < j < vals.len() ==> vals[i] != vals[j]
}

/// What the assigner guarantees whenever it succeeds: one value per variant,
/// each in the usable space of the domain, pairwise distinct.
pub proof fn lemma_assign_ok(
    d: Domain,
    body: Seq<VariantModel>,
    reserved: bool,
    vals: Seq<ValueModel>,
)
    requires
        spec_assign(d, body, reserved) == Ok::<_, CompileError>(vals),
    ensures
        vals.len() == body.len(),
        forall|j: int| 0 <= j < vals.len() ==> value_in_domain(d, #[trigger] vals[j]),
        distinct_values(vals),
    decreases body.len(),
{
    if body.len() > 0 {
        let prefix = spec_assign(d, body.drop_last(), reserved)->Ok_0;
        lemma_assign_ok(d, body.drop_last(), reserved, prefix);
        let val = vals.last();
        assert(vals == prefix.push(val));
        assert(value_in_domain(d, val));
        assert forall|j: int| 0 <= j < vals.len() implies value_in_domain(
            d,
            #[trigger] vals[j],
        ) by {
            if j < prefix.len() {
                assert(vals[j] == prefix[j]);
            }
        }
        assert forall|i: int, j: int| 0 <= i < j < vals.len() implies vals[i] != vals[j] by {
            if j < prefix.len() {
                assert(prefix[i] != prefix[j]);
            } else {
                assert(vals[i] == prefix[i]);
                assert(!prefix.contains(val));
            }
        }
    }
}

/// Every table the compiler returns satisfies the table invariant: this is
/// why the accessors of a compiled table never fail at run time.
pub proof fn lemma_compile_wf(decl: EnumDeclModel, t: TableModel)
    requires
        spec_compile(decl) == Ok::<_, CompileError>(t),
    ensures
        t.wf(),
{
    let body = spec_body(decl);
    let reserved = spec_empty_reserved(decl);
    let vals = spec_assign(decl.domain, body, reserved)->Ok_0;
    lemma_assign_ok(decl.domain, body, reserved, vals);
    assert(t.entries == spec_entries(body, vals));
    assert(t.entries.len() == vals.len());
    assert forall|i: int| 0 <= i < t.entries.len() implies value_in_domain(
        t.domain,
        #[trigger] t.entries[i].value,
    ) by {
        assert(t.entries[i].value == vals[i]);
    }
    assert forall|i: int, j: int| 0 <= i < j < t.entries.len() implies #[trigger] t.entries[i].value
        != #[trigger] t.entries[j].value by {
        assert(t.entries[i].value == vals[i] && t.entries[j].value == vals[j]);
    }
    match spec_default_stage(decl, vals) {
        Ok(Some(de)) => {
            lemma_default_stage_ok(decl, vals, de);
            assert forall|i: int| 0 <= i < t.entries.len() implies #[trigger] t.entries[i].value
                != de.value by {
                assert(t.entries[i].value == vals[i]);
            }
        },
        Ok(None) => {
            if decl.domain is Integer {
                assert(spec_covered(decl.domain.space(), vals));
                assert forall|n: nat| n < t.domain.space() implies #[trigger] t.has_value(
                    ValueModel::Int(n),
                ) by {
                    assert(vals.contains(ValueModel::Int(n)));
                    let j = choose|j: int|
                        0 <= j < vals.len() && vals[j] == ValueModel::Int(n);
                    assert(t.entries[j].value == ValueModel::Int(n));
                }
            } else {
                assert(vals.len() >= 1);
            }
        },
        Err(_) => {
            assert(false);
        },
    }
}

/// What the default policy guarantees whenever it yields a default entry:
/// its value lies in the usable space and collides with no assigned value.
proof fn lemma_default_stage_ok(decl: EnumDeclModel, vals: Seq<ValueModel>, de: DefaultModel)
    requires
        decl.domain.wf(),
        spec_default_stage(decl, vals) == Ok::<_, CompileError>(Some(de)),
        forall|j: int| 0 <= j < vals.len() ==> value_in_domain(decl.domain, #[trigger] vals[j]),
    ensures
        value_in_domain(decl.domain, de.value),
        !vals.contains(de.value),
{
    let d = decl.domain;
    match d {
        Domain::Integer { mask_width, .. } => {
            let space = pow2(mask_width as nat);
            if has_sentinel(decl.variants) || decl.default_arg is Derive {
                // A derived default: the space is not fully covered, so the
                // ascending scan stops at an unassigned value inside it.
                assert(!spec_covered(space, vals));
                assert(exists|k: nat| k < space && !vals.contains(ValueModel::Int(k)));
                let k0 = choose|k: nat| k < space && !vals.contains(ValueModel::Int(k));
                lemma_first_unused_exists(vals, k0);
                let n = spec_first_unused(vals);
                assert(de.value == ValueModel::Int(n));
                assert(is_first_unused(vals, n));
                assert(n <= k0 < space);
            }
        },
        _ => {},
    }
}

/// Round trip: every variant of a compiled table is recovered by the reverse
/// accessor from its own forward value.
pub proof fn lemma_round_trip(t: TableModel, i: int)
    requires
        t.wf(),
        0 <= i < t.entries.len(),
    ensures
        spec_reverse(t, t.entries[i].value) == LookupModel::Matched(i),
{
    let v = t.entries[i].value;
    lemma_key_of_table_value(t, v);
    assert(t.has_value(v));
    let j = choose|j: int| 0 <= j < t.entries.len() && #[trigger] t.entries[j].value == v;
    if j < i {
        assert(t.entries[j].value != t.entries[i].value);
    }
    if j > i {
        assert(t.entries[i].value != t.entries[j].value);
    }
}

/// The default entry's own round trip: its value resolves to the default.
pub proof fn lemma_default_round_trip(t: TableModel, de: DefaultModel)
    requires
        t.wf(),
        t.default_entry == Some(de),
    ensures
        spec_reverse(t, de.value) == LookupModel::Defaulted,
{
    lemma_key_of_table_value(t, de.value);
    if t.has_value(de.value) {
        let j = choose|j: int|
            0 <= j < t.entries.len() && #[trigger] t.entries[j].value == de.value;
        assert(t.entries[j].value != de.value);
    }
}

/// A value already inside the usable space is its own lookup key.
proof fn lemma_key_of_table_value(t: TableModel, v: ValueModel)
    requires
        t.domain.wf(),
        value_in_domain(t.domain, v),
    ensures
        spec_key(t.domain, v) == v,
{
    match t.domain {
        Domain::Integer { mask_width, .. } => {
            lemma_small_masked(v->Int_0, mask_width as nat);
        },
        _ => {},
    }
}

/// Masking idempotence: bits outside the mask never change what a reverse
/// lookup of an integer domain resolves to.
pub proof fn lemma_masking_idempotent(t: TableModel, v: u128, junk: u128)
    requires
        t.wf(),
        t.domain is Integer,
        junk & mask128(t.domain->Integer_mask_width as nat) == 0,
    ensures
        spec_reverse(t, ValueModel::Int((v | junk) as nat)) == spec_reverse(
            t,
            ValueModel::Int(v as nat),
        ),
{
    let w = t.domain->Integer_mask_width as nat;
    lemma_or_outside_mask128(v, junk, w);
    lemma_mask128_is_mod(v, w);
    lemma_mask128_is_mod(v | junk, w);
    assert(((v | junk) as nat) % pow2(w) == (v as nat) % pow2(w));
}

/// Masking idempotence, in the form `reverse(v) == reverse(v | !mask)`: the
/// complement of the mask is the canonical junk.
pub proof fn lemma_masking_complement(t: TableModel, v: u128)
    requires
        t.wf(),
        t.domain is Integer,
    ensures
        spec_reverse(
            t,
            ValueModel::Int((v | !mask128(t.domain->Integer_mask_width as nat)) as nat),
        ) == spec_reverse(t, ValueModel::Int(v as nat)),
{
    let m = mask128(t.domain->Integer_mask_width as nat);
    assert((!m) & m == 0) by (bit_vector);
    lemma_masking_idempotent(t, v, !m);
}

/// Totality under default: with a default entry, a reverse lookup never
/// signals "no match"; every domain value maps to some variant.
pub proof fn lemma_total_with_default(t: TableModel, v: ValueModel)
    requires
        t.wf(),
        t.default_entry is Some,
        value_kind_matches(t.domain, v),
    ensures
        !(spec_reverse(t, v) is NoMatch),
{
}

/// Totality of covered integer domains: without a default, full coverage
/// gives every input an explicit match.
pub proof fn lemma_total_integer(t: TableModel, v: ValueModel)
    requires
        t.wf(),
        t.domain is Integer,
        v is Int,
    ensures
        !(spec_reverse(t, v) is NoMatch),
        t.default_entry is None ==> spec_reverse(t, v) is Matched,
{
    let w = t.domain->Integer_mask_width as nat;
    let key = spec_key(t.domain, v);
    lemma_pow2_pos(w);
    assert(key->Int_0 < pow2(w)) by {
        assert(key->Int_0 == v->Int_0 % pow2(w));
    }
    if t.default_entry is None {
        assert(t.has_value(ValueModel::Int(key->Int_0)));
        assert(key == ValueModel::Int(key->Int_0));
    }
}

/// Coverage requirement: an integer domain with no default source compiles
/// iff the assigned values exactly equal the usable space.  The values are
/// distinct and lie inside the space whenever the assigner succeeds, so
/// covering the space is equality with it.
pub proof fn lemma_coverage_requirement(decl: EnumDeclModel, vals: Seq<ValueModel>)
    requires
        decl.domain.wf(),
        decl.domain is Integer,
        decl.default_arg is Absent,
        !has_sentinel(decl.variants),
        spec_assign(decl.domain, spec_body(decl), spec_empty_reserved(decl)) == Ok::<
            _,
            CompileError,
        >(vals),
    ensures
        spec_compile(decl) is Ok <==> spec_covered(decl.domain.space(), vals),
        distinct_values(vals),
        forall|j: int|
            0 <= j < vals.len() ==> #[trigger] vals[j] is Int && vals[j]->Int_0
                < decl.domain.space(),
{
    assert(spec_sentinel_error(decl) is None);
    lemma_assign_ok(decl.domain, spec_body(decl), spec_empty_reserved(decl), vals);
    assert forall|j: int| 0 <= j < vals.len() implies #[trigger] vals[j] is Int
        && vals[j]->Int_0 < decl.domain.space() by {
        assert(value_in_domain(decl.domain, vals[j]));
    }
}

/// The resolver stage alone: values assigned and checked against the usable
/// space, with the duplicate check left out.  Only the uniqueness law speaks
/// of it.
pub open spec fn spec_assign_raw(
    d: Domain,
    body: Seq<VariantModel>,
    reserved: bool,
) -> Result<Seq<ValueModel>, CompileError>
    decreases body.len(),
{
    if body.len() == 0 {
        Ok(Seq::empty())
    } else {
        match spec_assign_raw(d, body.drop_last(), reserved) {
            Err(e) => Err(e),
            Ok(prefix) => match spec_step_value(d, prefix, body.last().literal, reserved) {
                Err(e) => Err(e),
                Ok(val) => if d matches Domain::Integer { mask_width, .. } && val->Int_0 >= pow2(
                    mask_width as nat,
                ) {
                    Err(CompileError::DiscriminantTooLarge)
                } else {
                    Ok(prefix.push(val))
                },
            },
        }
    }
}

/// The assigner against the raw resolver: when every variant resolves, the
/// assigner succeeds on distinct values and fails with
/// `DuplicateDiscriminant` otherwise.
pub proof fn lemma_assign_vs_raw(
    d: Domain,
    body: Seq<VariantModel>,
    reserved: bool,
    vals: Seq<ValueModel>,
)
    requires
        spec_assign_raw(d, body, reserved) == Ok::<_, CompileError>(vals),
    ensures
        distinct_values(vals) ==> spec_assign(d, body, reserved) == Ok::<_, CompileError>(vals),
        !distinct_values(vals) ==> spec_assign(d, body, reserved) == Err::<Seq<ValueModel>, _>(
            CompileError::DuplicateDiscriminant,
        ),
    decreases body.len(),
{
    if body.len() == 0 {
        assert(distinct_values(vals));
    } else {
        let prefix = spec_assign_raw(d, body.drop_last(), reserved)->Ok_0;
        lemma_assign_vs_raw(d, body.drop_last(), reserved, prefix);
        let val = vals.last();
        assert(vals == prefix.push(val));
        if distinct_values(prefix) {
            if prefix.contains(val) {
                // The duplicate surfaces on the last variant.
                let k = choose|k: int| 0 <= k < prefix.len() && prefix[k] == val;
                assert(vals[k] == vals[vals.len() - 1]);
                assert(!distinct_values(vals));
            } else {
                assert forall|i: int, j: int| 0 <= i < j < vals.len() implies vals[i]
                    != vals[j] by {
                    if j < prefix.len() {
                        assert(prefix[i] != prefix[j]);
                    } else {
                        assert(vals[i] == prefix[i]);
                        assert(!prefix.contains(val));
                    }
                }
                assert(distinct_values(vals));
            }
        } else {
            let (i, j) = choose|i: int, j: int|
                0 <= i < j < prefix.len() && prefix[i] == prefix[j];
            assert(vals[i] == vals[j]);
            assert(!distinct_values(vals));
        }
    }
}

/// Uniqueness: when the domain, the sentinel checks and every literal are in
/// order, compilation fails with `DuplicateDiscriminant` exactly when two
/// variants resolve to the same domain value.
pub proof fn lemma_uniqueness(decl: EnumDeclModel, vals: Seq<ValueModel>)
    requires
        decl.domain.wf(),
        spec_sentinel_error(decl) is None,
        spec_assign_raw(decl.domain, spec_body(decl), spec_empty_reserved(decl)) == Ok::<
            _,
            CompileError,
        >(vals),
    ensures
        (spec_compile(decl) == Err::<TableModel, _>(CompileError::DuplicateDiscriminant)) <==> exists|
            i: int,
            j: int,
        | 0 <= i < j < vals.len() && vals[i] == vals[j],
{
    lemma_assign_vs_raw(decl.domain, spec_body(decl), spec_empty_reserved(decl), vals);
    if distinct_values(vals) {
        // The later stages can fail, but never with a duplicate.
        lemma_default_stage_no_duplicate(decl, vals);
    }
}

/// The default policy never reports `DuplicateDiscriminant`; its collisions
/// have their own kind.
proof fn lemma_default_stage_no_duplicate(decl: EnumDeclModel, vals: Seq<ValueModel>)
    ensures
        spec_default_stage(decl, vals) != Err::<Option<DefaultModel>, _>(
            CompileError::DuplicateDiscriminant,
        ),
{
    lemma_resolve_never_duplicate(decl.domain);
}

/// Literal resolution never reports `DuplicateDiscriminant` either.
proof fn lemma_resolve_never_duplicate(d: Domain)
    ensures
        forall|l: LiteralModel, reserved: bool| #[trigger]
            spec_resolve_literal(d, l, reserved) != Err::<ValueModel, _>(
                CompileError::DuplicateDiscriminant,
            ),
{
}

} // verus!
