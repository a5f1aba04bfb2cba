//! The compiler: from an enumeration declaration to a discriminant table.
//!
//! The pipeline runs in declaration order.  The domain is checked first, then
//! the sentinel default variant (it must be last and bare), then every
//! non-sentinel variant is resolved and assigned a value — implicit values
//! auto-increment from the previous one on integer domains — while the
//! validator rejects values beyond the usable space and duplicates.  Last,
//! the default policy derives or resolves the default entry and checks the
//! coverage obligations of tables without one.  The first failure aborts the
//! whole compilation; `spec_compile` is the definition of the result, and the
//! executable [`compile`] returns exactly that.

use vstd::prelude::*;
use vstd::arithmetic::power2::pow2;
use crate::decl::{EnumDecl, EnumDeclModel, VariantModel};
use crate::decl::{DefaultArg, DefaultArgModel};
use crate::domain::Domain;
use crate::error::CompileError;
use crate::literal::{resolve_literal, spec_resolve_literal, LiteralModel};
use crate::masking::{lemma_mask128_value, lemma_pow2_to_128, mask128};
use crate::sorted::{
    first_absent, lemma_covering_length, lemma_sorted_full_covers, lemma_sorted_lower_bound,
    sorted_insert, strictly_sorted,
};
use crate::table::{DefaultEntry, DefaultModel, DiscriminantTable, EntryModel, TableEntry, TableModel};
use crate::value::{eq_value, DomainValue, ValueModel};

verus! {

/// Whether some variant is the sentinel default.
pub open spec fn has_sentinel(vs: Seq<VariantModel>) -> bool {
    exists|i: int| 0 <= i < vs.len() && vs[i].is_default
}

/// The error of the sentinel checks, if any: a sentinel that is not the last
/// variant, a sentinel with an explicit literal, or a sentinel beside a
/// default argument.
pub open spec fn spec_sentinel_error(decl: EnumDeclModel) -> Option<CompileError> {
    let vs = decl.variants;
    if exists|i: int| 0 <= i < vs.len() && vs[i].is_default && i != vs.len() - 1 {
        Some(CompileError::DefaultNotAtEnd)
    } else if has_sentinel(vs) && vs.last().literal is Some {
        Some(CompileError::DefaultHasExplicitValue)
    } else if has_sentinel(vs) && !(decl.default_arg is Absent) {
        Some(CompileError::DefaultVariantConflict)
    } else {
        None
    }
}

/// How many leading variants carry their own discriminant: all of them, less
/// the trailing sentinel when one exists.
pub open spec fn spec_body_len(decl: EnumDeclModel) -> int {
    if has_sentinel(decl.variants) {
        decl.variants.len() - 1
    } else {
        decl.variants.len() as int
    }
}

/// The non-sentinel variants, in declaration order.
pub open spec fn spec_body(decl: EnumDeclModel) -> Seq<VariantModel> {
    decl.variants.take(spec_body_len(decl))
}

/// Whether the empty string or byte string is reserved for the default: a
/// string domain whose default carries no explicit value.
pub open spec fn spec_empty_reserved(decl: EnumDeclModel) -> bool {
    !(decl.domain is Integer) && (has_sentinel(decl.variants) || decl.default_arg is Derive)
}

/// The implicit value of a literal-less variant of an integer domain: one
/// past the previous assigned value, or zero for the first variant.
pub open spec fn spec_next_implicit(prefix: Seq<ValueModel>) -> nat {
    if prefix.len() == 0 {
        0
    } else {
        prefix.last()->Int_0 + 1
    }
}

/// The value a variant resolves to, given the values assigned before it.
pub open spec fn spec_step_value(
    d: Domain,
    prefix: Seq<ValueModel>,
    lit: Option<LiteralModel>,
    reserved: bool,
) -> Result<ValueModel, CompileError> {
    match lit {
        Some(l) => spec_resolve_literal(d, l, reserved),
        None => if d is Integer {
            Ok(ValueModel::Int(spec_next_implicit(prefix)))
        } else {
            Err(CompileError::MissingDiscriminant)
        },
    }
}

/// The discriminant assigner and validator: the values of the non-sentinel
/// variants in declaration order, or the first failure.
///
/// Each variant's value is resolved (or assigned implicitly), checked
/// against the usable space, and checked against every value assigned
/// before it.
pub open spec fn spec_assign(
    d: Domain,
    body: Seq<VariantModel>,
    reserved: bool,
) -> Result<Seq<ValueModel>, CompileError>
    decreases body.len(),
{
    if body.len() == 0 {
        Ok(Seq::empty())
    } else {
        match spec_assign(d, body.drop_last(), reserved) {
            Err(e) => Err(e),
            Ok(prefix) => match spec_step_value(d, prefix, body.last().literal, reserved) {
                Err(e) => Err(e),
                Ok(val) => if d matches Domain::Integer { mask_width, .. } && val->Int_0 >= pow2(
                    mask_width as nat,
                ) {
                    Err(CompileError::DiscriminantTooLarge)
                } else if prefix.contains(val) {
                    Err(CompileError::DuplicateDiscriminant)
                } else {
                    Ok(prefix.push(val))
                },
            },
        }
    }
}

/// Whether every value of the usable space `[0, space)` is assigned.
pub open spec fn spec_covered(space: nat, values: Seq<ValueModel>) -> bool {
    forall|k: nat| k < space ==> #[trigger] values.contains(ValueModel::Int(k))
}

/// Whether `r` is the smallest integer not yet assigned.
pub open spec fn is_first_unused(values: Seq<ValueModel>, r: nat) -> bool {
    &&& !values.contains(ValueModel::Int(r))
    &&& forall|k: nat| k < r ==> #[trigger] values.contains(ValueModel::Int(k))
}

/// The smallest integer not yet assigned; the ascending scan of the default
/// policy.
pub open spec fn spec_first_unused(values: Seq<ValueModel>) -> nat {
    choose|r: nat| is_first_unused(values, r)
}

/// The default policy resolver: the table's default entry, or the first
/// failure, given the assigned values.
///
/// A sentinel default derives its value (the first unused integer, or the
/// empty string value); a `Value` argument resolves its literal and must not
/// collide with an assigned value; a `Derive` argument derives as a sentinel
/// does.  With no default source, an integer domain must be fully covered
/// and a string domain must not be empty.
pub open spec fn spec_default_stage(
    decl: EnumDeclModel,
    values: Seq<ValueModel>,
) -> Result<Option<DefaultModel>, CompileError> {
    let d = decl.domain;
    if has_sentinel(decl.variants) {
        let name = Some(decl.variants.last().name);
        spec_derived_default(d, values, name)
    } else {
        match decl.default_arg {
            DefaultArgModel::Absent => match d {
                Domain::Integer { mask_width, .. } => if spec_covered(
                    pow2(mask_width as nat),
                    values,
                ) {
                    Ok(None)
                } else {
                    Err(CompileError::IncompleteCoverageWithoutDefault)
                },
                _ => if values.len() >= 1 {
                    Ok(None)
                } else {
                    Err(CompileError::EmptyEnumeration)
                },
            },
            DefaultArgModel::Value(l) => match spec_resolve_literal(d, l, false) {
                Err(e) => Err(e),
                Ok(v) => if d matches Domain::Integer { mask_width, .. } && v->Int_0 >= pow2(
                    mask_width as nat,
                ) {
                    Err(CompileError::DiscriminantTooLarge)
                } else if values.contains(v) {
                    Err(CompileError::DefaultValueCollision)
                } else {
                    Ok(Some(DefaultModel { name: None, value: v }))
                },
            },
            DefaultArgModel::Derive => spec_derived_default(d, values, None),
        }
    }
}

/// A default entry whose value is derived rather than declared: the first
/// unused integer of the usable space, or the empty string value.
pub open spec fn spec_derived_default(
    d: Domain,
    values: Seq<ValueModel>,
    name: Option<Seq<char>>,
) -> Result<Option<DefaultModel>, CompileError> {
    match d {
        Domain::Integer { mask_width, .. } => if spec_covered(pow2(mask_width as nat), values) {
            Err(CompileError::DomainFullyCovered)
        } else {
            Ok(Some(DefaultModel { name, value: ValueModel::Int(spec_first_unused(values)) }))
        },
        Domain::Str => if values.contains(ValueModel::Str(Seq::empty())) {
            Err(CompileError::DefaultValueCollision)
        } else {
            Ok(Some(DefaultModel { name, value: ValueModel::Str(Seq::empty()) }))
        },
        Domain::ByteStr => if values.contains(ValueModel::Bytes(Seq::empty())) {
            Err(CompileError::DefaultValueCollision)
        } else {
            Ok(Some(DefaultModel { name, value: ValueModel::Bytes(Seq::empty()) }))
        },
    }
}

/// The entries of the finished table: each non-sentinel variant beside its
/// assigned value.
pub open spec fn spec_entries(body: Seq<VariantModel>, values: Seq<ValueModel>) -> Seq<
    EntryModel,
> {
    Seq::new(body.len(), |i: int| EntryModel { name: body[i].name, value: values[i] })
}

/// The compiler, as a definition: what compiling a declaration yields.
pub open spec fn spec_compile(decl: EnumDeclModel) -> Result<TableModel, CompileError> {
    if !decl.domain.wf() {
        Err(CompileError::UnknownDomain)
    } else {
        match spec_sentinel_error(decl) {
            Some(e) => Err(e),
            None => {
                let body = spec_body(decl);
                match spec_assign(decl.domain, body, spec_empty_reserved(decl)) {
                    Err(e) => Err(e),
                    Ok(values) => match spec_default_stage(decl, values) {
                        Err(e) => Err(e),
                        Ok(de) => Ok(
                            TableModel {
                                domain: decl.domain,
                                entries: spec_entries(body, values),
                                default_entry: de,
                            },
                        ),
                    },
                }
            },
        }
    }
}

/// The image of a compilation result.
pub open spec fn compiled_view(r: Result<DiscriminantTable, CompileError>) -> Result<
    TableModel,
    CompileError,
> {
    match r {
        Ok(t) => Ok(t@),
        Err(e) => Err(e),
    }
}

/// The values already assigned, in declaration order.
pub open spec fn assigned_values(entries: Seq<TableEntry>) -> Seq<ValueModel> {
    Seq::new(entries.len(), |i: int| entries[i]@.value)
}

/// Whether an already-assigned value equals this one: the duplicate scan of
/// the string domains, where no sorted mirror exists.
fn contains_entry_value(entries: &Vec<TableEntry>, v: &DomainValue) -> (r: bool)
    ensures
        r == assigned_values(entries@).contains(v@),
{
    let mut i: usize = 0;
    while i < entries.len()
        invariant
            i <= entries.len(),
            forall|j: int| 0 <= j < i ==> assigned_values(entries@)[j] != v@,
        decreases entries.len() - i,
    {
        if eq_value(&entries[i].value, v) {
            proof {
                assert(assigned_values(entries@)[i as int] == v@);
            }
            return true;
        }
        i = i + 1;
    }
    proof {
        if assigned_values(entries@).contains(v@) {
            let j = choose|j: int|
                0 <= j < assigned_values(entries@).len() && assigned_values(entries@)[j] == v@;
            assert(assigned_values(entries@)[j] != v@);
        }
    }
    false
}

/// Whether the usable space `[0, 2^mask_width)` is fully assigned, decided
/// by the cardinality of the sorted value set.
fn covered_exec(
    sorted_ints: &Vec<u128>,
    mask_width: u8,
    Ghost(values): Ghost<Seq<ValueModel>>,
) -> (r: bool)
    requires
        mask_width <= 128,
        strictly_sorted(sorted_ints@),
        sorted_ints@.len() == values.len(),
        forall|y: u128| #[trigger]
            sorted_ints@.contains(y) <==> values.contains(ValueModel::Int(y as nat)),
        forall|j: int|
            0 <= j < values.len() ==> #[trigger] values[j] is Int && values[j]->Int_0 < pow2(
                mask_width as nat,
            ),
    ensures
        r == spec_covered(pow2(mask_width as nat), values),
{
    let ghost space = pow2(mask_width as nat);
    proof {
        lemma_pow2_to_128(mask_width as nat);
        // Every stored integer lies below the space bound.
        assert forall|i: int| 0 <= i < sorted_ints@.len() implies (#[trigger] sorted_ints@[i]
            as nat) < space by {
            let y = sorted_ints@[i];
            assert(sorted_ints@.contains(y));
            let j = choose|j: int| 0 <= j < values.len() && values[j] == ValueModel::Int(y as nat);
        }
    }
    let count = sorted_ints.len();
    let space_fits = crate::masking::pow2_in_usize(mask_width);
    let r = match space_fits {
        Some(p) => count == p,
        None => false,
    };
    proof {
        if r {
            lemma_sorted_full_covers(sorted_ints@, space);
            assert forall|k: nat| k < space implies #[trigger] values.contains(
                ValueModel::Int(k),
            ) by {
                assert(sorted_ints@.contains(k as u128));
                assert((k as u128) as nat == k);
            }
        } else {
            if spec_covered(space, values) {
                assert forall|k: nat| k < space implies sorted_ints@.contains(
                    #[trigger] (k as u128),
                ) by {
                    assert(values.contains(ValueModel::Int(k)));
                    assert((k as u128) as nat == k);
                }
                lemma_covering_length(sorted_ints@, space);
                assert(sorted_ints@.len() >= space);
                if sorted_ints@.len() > 0 {
                    lemma_sorted_lower_bound(sorted_ints@, sorted_ints@.len() - 1);
                }
                assert(sorted_ints@.len() <= space);
                assert(sorted_ints@.len() == space);
                match space_fits {
                    Some(p) => {
                        assert(p == space);
                        assert(sorted_ints@.len() != p);
                        assert(false);
                    },
                    None => {
                        assert(space > usize::MAX);
                        assert(sorted_ints@.len() == count as nat);
                        assert(false);
                    },
                }
            }
        }
    }
    r
}

/// Resolves a derived default: the first unused integer of the usable space,
/// or the empty string value, with the collision and coverage checks of the
/// default policy.
fn derived_default(
    domain: &Domain,
    entries: &Vec<TableEntry>,
    sorted_ints: &Vec<u128>,
    name: Option<String>,
) -> (r: Result<DefaultEntry, CompileError>)
    requires
        domain.wf(),
        domain is Integer ==> strictly_sorted(sorted_ints@),
        domain is Integer ==> sorted_ints@.len() == assigned_values(entries@).len(),
        domain is Integer ==> forall|y: u128| #[trigger]
            sorted_ints@.contains(y) <==> assigned_values(entries@).contains(
                ValueModel::Int(y as nat),
            ),
        domain is Integer ==> forall|j: int|
            0 <= j < assigned_values(entries@).len() ==> #[trigger] assigned_values(entries@)[j]
                is Int && assigned_values(entries@)[j]->Int_0 < pow2(
                domain->Integer_mask_width as nat,
            ),
    ensures
        match r {
            Ok(de) => spec_derived_default(
                *domain,
                assigned_values(entries@),
                match name {
                    Some(s) => Some(s@),
                    None => None,
                },
            ) == Ok::<_, CompileError>(Some(de@)),
            Err(e) => spec_derived_default(
                *domain,
                assigned_values(entries@),
                match name {
                    Some(s) => Some(s@),
                    None => None,
                },
            ) == Err::<Option<DefaultModel>, _>(e),
        },
{
    let ghost values = assigned_values(entries@);
    match domain {
        Domain::Integer { mask_width, .. } => {
            if covered_exec(sorted_ints, *mask_width, Ghost(values)) {
                return Err(CompileError::DomainFullyCovered);
            }
            let unused = first_absent(sorted_ints);
            proof {
                let space = pow2(*mask_width as nat);
                assert(!values.contains(ValueModel::Int(unused as nat)));
                assert forall|k: nat| k < unused as nat implies #[trigger] values.contains(
                    ValueModel::Int(k),
                ) by {
                    assert(sorted_ints@.contains(k as u128));
                    assert((k as u128) as nat == k);
                }
                lemma_first_unused_unique(values, unused as nat);
            }
            Ok(DefaultEntry { name, value: DomainValue::Int(unused) })
        },
        Domain::Str => {
            let empty = DomainValue::Str(String::new());
            if contains_entry_value(entries, &empty) {
                return Err(CompileError::DefaultValueCollision);
            }
            Ok(DefaultEntry { name, value: empty })
        },
        Domain::ByteStr => {
            let empty = DomainValue::Bytes(Vec::new());
            if contains_entry_value(entries, &empty) {
                return Err(CompileError::DefaultValueCollision);
            }
            Ok(DefaultEntry { name, value: empty })
        },
    }
}

/// A failure of the assigner on a prefix of the variants is the failure on
/// all of them: later variants cannot undo it.
pub proof fn lemma_assign_err_persists(d: Domain, body: Seq<VariantModel>, k: int, reserved: bool)
    requires
        0 <= k <= body.len(),
        spec_assign(d, body.take(k), reserved) is Err,
    ensures
        spec_assign(d, body, reserved) == spec_assign(d, body.take(k), reserved),
    decreases body.len() - k,
{
    if k == body.len() {
        assert(body.take(k) =~= body);
    } else {
        assert(body.take(k + 1).drop_last() =~= body.take(k));
        lemma_assign_err_persists(d, body, k + 1, reserved);
    }
}

/// Some value is unassigned, so a smallest unassigned value exists and the
/// ascending scan finds it.
pub proof fn lemma_first_unused_exists(values: Seq<ValueModel>, k0: nat)
    requires
        !values.contains(ValueModel::Int(k0)),
    ensures
        is_first_unused(values, spec_first_unused(values)),
        spec_first_unused(values) <= k0,
    decreases k0,
{
    if forall|k: nat| k < k0 ==> #[trigger] values.contains(ValueModel::Int(k)) {
        assert(is_first_unused(values, k0));
        let r = spec_first_unused(values);
        assert(is_first_unused(values, r));
        if r > k0 {
            assert(values.contains(ValueModel::Int(k0)));
        }
    } else {
        let k1 = choose|k: nat| k < k0 && !#[trigger] values.contains(ValueModel::Int(k));
        lemma_first_unused_exists(values, k1);
    }
}

/// The smallest unassigned value is unique: anything with its two properties
/// is it.
pub proof fn lemma_first_unused_unique(values: Seq<ValueModel>, r: nat)
    requires
        is_first_unused(values, r),
    ensures
        spec_first_unused(values) == r,
{
    lemma_first_unused_exists(values, r);
    let r2 = spec_first_unused(values);
    if r2 < r {
        assert(values.contains(ValueModel::Int(r2)));
    }
    if r2 > r {
        assert(values.contains(ValueModel::Int(r)));
    }
}

/// Compiles an enumeration declaration into a discriminant table.
///
/// The result is exactly [`spec_compile`] of the declaration: the validated
/// table on success, the first failure in declaration order otherwise.
#[verifier::rlimit(60)]
pub fn compile(decl: &EnumDecl) -> (r: Result<DiscriminantTable, CompileError>)
    ensures
        compiled_view(r) == spec_compile(decl@),
{
    let domain = decl.domain;
    // Domain validity: the mask width must fit the native width.
    match domain {
        Domain::Integer { itype, mask_width } => {
            if !itype.width_valid(mask_width) {
                return Err(CompileError::UnknownDomain);
            }
        },
        _ => {},
    }
    assert(domain.wf());

    // Sentinel checks: last, bare, and alone.
    let n = decl.variants.len();
    let mut i: usize = 0;
    while i < n
        invariant
            i <= n,
            n == decl.variants.len(),
            decl@.domain.wf(),
            forall|k: int| 0 <= k < i && #[trigger] decl@.variants[k].is_default ==> k == n - 1,
        decreases n - i,
    {
        if decl.variants[i].is_default && i + 1 != n {
            proof {
                assert(decl@.variants[i as int].is_default);
                assert(i as int != decl@.variants.len() - 1);
            }
            return Err(CompileError::DefaultNotAtEnd);
        }
        i = i + 1;
    }
    let sentinel_present = n > 0 && decl.variants[n - 1].is_default;
    proof {
        assert(sentinel_present == has_sentinel(decl@.variants));
        assert(!(exists|j: int|
            0 <= j < decl@.variants.len() && decl@.variants[j].is_default && j
                != decl@.variants.len() - 1));
    }
    if sentinel_present {
        if decl.variants[n - 1].literal.is_some() {
            return Err(CompileError::DefaultHasExplicitValue);
        }
        match &decl.default_arg {
            DefaultArg::Absent => {},
            _ => {
                return Err(CompileError::DefaultVariantConflict);
            },
        }
    }
    assert(spec_sentinel_error(decl@) is None);

    let reserved = match &domain {
        Domain::Integer { .. } => false,
        _ => sentinel_present || match &decl.default_arg {
            DefaultArg::Derive => true,
            _ => false,
        },
    };
    assert(reserved == spec_empty_reserved(decl@));

    let body_len = if sentinel_present {
        n - 1
    } else {
        n
    };
    let ghost body = spec_body(decl@);
    assert(body.len() == body_len);

    // The assigner walk: resolve each non-sentinel variant, keep the sorted
    // value set of integer domains in step.
    let space_mask: u128 = match &domain {
        Domain::Integer { .. } => domain.mask(),
        _ => 0,
    };
    let mut entries: Vec<TableEntry> = Vec::new();
    let mut sorted_ints: Vec<u128> = Vec::new();
    let mut last_int: Option<u128> = None;
    let mut i: usize = 0;
    assert(assigned_values(entries@) =~= Seq::<ValueModel>::empty());
    while i < body_len
        invariant
            i <= body_len,
            body_len <= n,
            n == decl.variants.len(),
            body == spec_body(decl@),
            body.len() == body_len,
            domain == decl@.domain,
            domain.wf(),
            spec_sentinel_error(decl@) is None,
            reserved == spec_empty_reserved(decl@),
            spec_assign(domain, body.take(i as int), reserved) == Ok::<_, CompileError>(
                assigned_values(entries@),
            ),
            entries@.len() == i,
            domain is Integer ==> space_mask == mask128(domain->Integer_mask_width as nat),
            domain is Integer ==> strictly_sorted(sorted_ints@),
            domain is Integer ==> sorted_ints@.len() == i,
            domain is Integer ==> forall|y: u128| #[trigger]
                sorted_ints@.contains(y) <==> assigned_values(entries@).contains(
                    ValueModel::Int(y as nat),
                ),
            domain is Integer ==> forall|j: int|
                0 <= j < i ==> #[trigger] assigned_values(entries@)[j] is Int && assigned_values(
                    entries@,
                )[j]->Int_0 < pow2(domain->Integer_mask_width as nat),
            domain is Integer ==> match last_int {
                None => i == 0,
                Some(l) => i > 0 && assigned_values(entries@).last() == ValueModel::Int(l as nat),
            },
            forall|j: int| 0 <= j < i ==> #[trigger] entries@[j]@.name == body[j].name,
        decreases body_len - i,
    {
        let ghost prefix = assigned_values(entries@);
        proof {
            assert(body.take(i + 1).drop_last() =~= body.take(i as int));
            assert(body[i as int] == decl@.variants[i as int]);
            if domain is Integer {
                lemma_mask128_value(domain->Integer_mask_width as nat);
                lemma_pow2_to_128(domain->Integer_mask_width as nat);
            }
            assert(body.take(i + 1).last() == body[i as int]);
        }
        let v = &decl.variants[i];
        let value: DomainValue = match &v.literal {
            Some(lit) => {
                match resolve_literal(&domain, lit, reserved) {
                    Ok(val) => val,
                    Err(e) => {
                        proof {
                            lemma_assign_err_persists(domain, body, i + 1, reserved);
                        }
                        return Err(e);
                    },
                }
            },
            None => {
                match &domain {
                    Domain::Integer { .. } => {
                        match last_int {
                            None => DomainValue::Int(0),
                            Some(l) => {
                                if l >= space_mask {
                                    proof {
                                        assert(spec_next_implicit(prefix) >= pow2(
                                            domain->Integer_mask_width as nat,
                                        ));
                                        lemma_assign_err_persists(domain, body, i + 1, reserved);
                                    }
                                    return Err(CompileError::DiscriminantTooLarge);
                                }
                                DomainValue::Int(l + 1)
                            },
                        }
                    },
                    _ => {
                        proof {
                            lemma_assign_err_persists(domain, body, i + 1, reserved);
                        }
                        return Err(CompileError::MissingDiscriminant);
                    },
                }
            },
        };
        assert(spec_step_value(domain, prefix, body[i as int].literal, reserved)
            == Ok::<_, CompileError>(value@));
        let ghost gval = value@;
        let ghost pre_sorted = sorted_ints@;
        // The usable-space bound and the duplicate check.
        match &domain {
            Domain::Integer { .. } => {
                assert(value@ is Int);
                let nv = match &value {
                    DomainValue::Int(x) => *x,
                    _ => {
                        proof {
                            assert(false);
                        }
                        0
                    },
                };
                if nv > space_mask {
                    proof {
                        lemma_assign_err_persists(domain, body, i + 1, reserved);
                    }
                    return Err(CompileError::DiscriminantTooLarge);
                }
                let dup = sorted_insert(&mut sorted_ints, nv);
                if dup {
                    proof {
                        assert(prefix.contains(value@));
                        lemma_assign_err_persists(domain, body, i + 1, reserved);
                    }
                    return Err(CompileError::DuplicateDiscriminant);
                }
                proof {
                    assert(!prefix.contains(value@));
                }
                last_int = Some(nv);
            },
            _ => {
                if contains_entry_value(&entries, &value) {
                    proof {
                        assert(prefix.contains(value@));
                        assert(spec_assign(domain, body.take(i + 1), reserved)
                            == Err::<Seq<ValueModel>, _>(CompileError::DuplicateDiscriminant));
                        lemma_assign_err_persists(domain, body, i + 1, reserved);
                    }
                    return Err(CompileError::DuplicateDiscriminant);
                }
            },
        }
        let name = v.name.clone();
        entries.push(TableEntry { name, value });
        proof {
            let newvals = assigned_values(entries@);
            assert(newvals =~= prefix.push(gval));
            assert(spec_assign(domain, body.take(i + 1), reserved) == Ok::<_, CompileError>(
                newvals,
            ));
            if domain is Integer {
                assert forall|y: u128| #[trigger]
                    sorted_ints@.contains(y) <==> newvals.contains(ValueModel::Int(y as nat)) by {
                    if sorted_ints@.contains(y) {
                        if pre_sorted.contains(y) {
                            assert(prefix.contains(ValueModel::Int(y as nat)));
                            let j = choose|j: int|
                                0 <= j < prefix.len() && prefix[j] == ValueModel::Int(y as nat);
                            assert(newvals[j] == ValueModel::Int(y as nat));
                        } else {
                            assert(ValueModel::Int(y as nat) == gval);
                            assert(newvals[prefix.len() as int] == gval);
                        }
                        assert(newvals.contains(ValueModel::Int(y as nat)));
                    }
                    if newvals.contains(ValueModel::Int(y as nat)) {
                        let j = choose|j: int|
                            0 <= j < newvals.len() && newvals[j] == ValueModel::Int(y as nat);
                        if j < prefix.len() {
                            assert(prefix[j] == ValueModel::Int(y as nat));
                            assert(prefix.contains(ValueModel::Int(y as nat)));
                            assert(pre_sorted.contains(y));
                        } else {
                            assert(ValueModel::Int(y as nat) == gval);
                        }
                        assert(sorted_ints@.contains(y));
                    }
                }
            }
        }
        i = i + 1;
    }
    proof {
        assert(body.take(body_len as int) =~= body);
    }
    let ghost values = assigned_values(entries@);
    assert(spec_assign(domain, body, reserved) == Ok::<_, CompileError>(values));

    // The default policy.
    let default_entry: Option<DefaultEntry>;
    if sentinel_present {
        let name = Some(decl.variants[n - 1].name.clone());
        match derived_default(&domain, &entries, &sorted_ints, name) {
            Ok(de) => {
                default_entry = Some(de);
            },
            Err(e) => {
                return Err(e);
            },
        }
    } else {
        match &decl.default_arg {
            DefaultArg::Absent => {
                match &domain {
                    Domain::Integer { mask_width, .. } => {
                        if covered_exec(&sorted_ints, *mask_width, Ghost(values)) {
                            default_entry = None;
                        } else {
                            return Err(CompileError::IncompleteCoverageWithoutDefault);
                        }
                    },
                    _ => {
                        if entries.len() >= 1 {
                            default_entry = None;
                        } else {
                            return Err(CompileError::EmptyEnumeration);
                        }
                    },
                }
            },
            DefaultArg::Value(l) => {
                match resolve_literal(&domain, l, false) {
                    Err(e) => {
                        return Err(e);
                    },
                    Ok(val) => {
                        match &domain {
                            Domain::Integer { .. } => {
                                proof {
                                    lemma_mask128_value(domain->Integer_mask_width as nat);
                                }
                                assert(val@ is Int);
                                let nv = match &val {
                                    DomainValue::Int(x) => *x,
                                    _ => {
                                        proof {
                                            assert(false);
                                        }
                                        0
                                    },
                                };
                                if nv > space_mask {
                                    return Err(CompileError::DiscriminantTooLarge);
                                }
                            },
                            _ => {},
                        }
                        if contains_entry_value(&entries, &val) {
                            return Err(CompileError::DefaultValueCollision);
                        }
                        default_entry = Some(DefaultEntry { name: None, value: val });
                    },
                }
            },
            DefaultArg::Derive => {
                match derived_default(&domain, &entries, &sorted_ints, None) {
                    Ok(de) => {
                        default_entry = Some(de);
                    },
                    Err(e) => {
                        return Err(e);
                    },
                }
            },
        }
    }

    // Assembly: the entries in declaration order plus the default.
    let table = DiscriminantTable { domain, entries, default_entry };
    proof {
        assert forall|j: int| 0 <= j < table@.entries.len() implies table@.entries[j]
            == spec_entries(body, values)[j] by {
            assert(table@.entries[j].name == body[j].name);
            assert(table@.entries[j].value == values[j]);
        }
        assert(table@.entries =~= spec_entries(body, values));
    }
    Ok(table)
}

} // verus!
