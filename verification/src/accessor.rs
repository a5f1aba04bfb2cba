//! The two accessors of a compiled table.
//!
//! The forward accessor maps a variant to its value and is total over the
//! table by construction.  The reverse accessor maps a value back to its
//! variant: for integer domains the input is first reduced into the usable
//! space, so two inputs differing only outside the mask are treated alike;
//! an unassigned value resolves to the default when one exists and to
//! `NoMatch` otherwise.

use vstd::prelude::*;
use vstd::arithmetic::power2::pow2;
use crate::domain::Domain;
use crate::masking::lemma_mask128_is_mod;
use crate::table::{DiscriminantTable, TableModel};
use crate::value::{copy_value, eq_value, value_kind_matches, DomainValue, ValueModel};

verus! {

/// The outcome of a reverse lookup.
#[derive(Debug, Clone, Copy, PartialEq, Eq, Structural)]
pub enum Lookup {
    /// The value is assigned to the entry at this index.
    Matched(usize),
    /// The value is unassigned and resolves to the default.
    Defaulted,
    /// The value is unassigned and the table has no default.
    NoMatch,
}

/// The mathematical image of a lookup outcome.
pub enum LookupModel {
    Matched(int),
    Defaulted,
    NoMatch,
}

impl View for Lookup {
    type V = LookupModel;

    open spec fn view(&self) -> LookupModel {
        match self {
            Lookup::Matched(i) => LookupModel::Matched(*i as int),
            Lookup::Defaulted => LookupModel::Defaulted,
            Lookup::NoMatch => LookupModel::NoMatch,
        }
    }
}

/// The key a reverse lookup compares: for an integer domain the input is
/// reduced modulo `2^mask_width`; the string domains compare the input
/// itself.
pub open spec fn spec_key(d: Domain, v: ValueModel) -> ValueModel {
    match (d, v) {
        (Domain::Integer { mask_width, .. }, ValueModel::Int(n)) => ValueModel::Int(
            n % pow2(mask_width as nat),
        ),
        _ => v,
    }
}

/// Where a key falls in a table: its entry, else the default, else nothing.
pub open spec fn spec_lookup(t: TableModel, key: ValueModel) -> LookupModel {
    if t.has_value(key) {
        LookupModel::Matched(
            choose|i: int| 0 <= i < t.entries.len() && #[trigger] t.entries[i].value == key,
        )
    } else if t.default_entry is Some {
        LookupModel::Defaulted
    } else {
        LookupModel::NoMatch
    }
}

/// The reverse accessor, as a definition: what a value resolves to.
pub open spec fn spec_reverse(t: TableModel, v: ValueModel) -> LookupModel {
    spec_lookup(t, spec_key(t.domain, v))
}

impl DiscriminantTable {
    /// The forward accessor: the value assigned to the variant at this
    /// index.  Total over the table; never fails.
    pub fn forward(&self, i: usize) -> (v: &DomainValue)
        requires
            i < self@.entries.len(),
        ensures
            v@ == self@.entries[i as int].value,
    {
        &self.entries[i].value
    }

    /// The value of the default entry, when one exists.
    pub fn default_value(&self) -> (v: Option<&DomainValue>)
        ensures
            match v {
                Some(dv) => self@.default_entry matches Some(de) && de.value == dv@,
                None => self@.default_entry is None,
            },
    {
        match &self.default_entry {
            Some(de) => Some(&de.value),
            None => None,
        }
    }

    /// The reverse accessor: the variant a value of the domain resolves to.
    pub fn reverse(&self, v: &DomainValue) -> (r: Lookup)
        requires
            self@.wf(),
            value_kind_matches(self@.domain, v@),
        ensures
            r@ == spec_reverse(self@, v@),
    {
        let key: DomainValue = match (&self.domain, v) {
            (Domain::Integer { mask_width, .. }, DomainValue::Int(n)) => {
                let m = self.domain.mask();
                proof {
                    lemma_mask128_is_mod(*n, *mask_width as nat);
                }
                DomainValue::Int(*n & m)
            },
            _ => copy_value(v),
        };
        assert(key@ == spec_key(self@.domain, v@));
        let mut i: usize = 0;
        while i < self.entries.len()
            invariant
                i <= self.entries.len(),
                self@.wf(),
                key@ == spec_key(self@.domain, v@),
                self@.entries.len() == self.entries.len(),
                forall|j: int| 0 <= j < i ==> #[trigger] self@.entries[j].value != key@,
            decreases self.entries.len() - i,
        {
            if eq_value(&self.entries[i].value, &key) {
                proof {
                    assert(self@.entries[i as int].value == key@);
                    assert(self@.has_value(key@));
                    let j = choose|j: int|
                        0 <= j < self@.entries.len() && #[trigger] self@.entries[j].value == key@;
                    if j < i as int {
                        assert(self@.entries[j].value != self@.entries[i as int].value);
                    }
                    if j > i as int {
                        assert(self@.entries[i as int].value != self@.entries[j].value);
                    }
                }
                return Lookup::Matched(i);
            }
            i = i + 1;
        }
        proof {
            if self@.has_value(key@) {
                let j = choose|j: int|
                    0 <= j < self@.entries.len() && #[trigger] self@.entries[j].value == key@;
                assert(self@.entries[j].value != key@);
            }
        }
        match &self.default_entry {
            Some(_) => Lookup::Defaulted,
            None => Lookup::NoMatch,
        }
    }
}

} // verus!
