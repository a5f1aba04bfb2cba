//! The compiled artifact: a validated discriminant table.

use vstd::prelude::*;
use crate::domain::Domain;
use crate::value::{value_in_domain, DomainValue, ValueModel};

verus! {

/// One compiled pair: a variant name and the domain value assigned to it.
#[derive(Debug)]
pub struct TableEntry {
    pub name: String,
    pub value: DomainValue,
}

/// The mathematical image of a table entry.
pub struct EntryModel {
    pub name: Seq<char>,
    pub value: ValueModel,
}

impl View for TableEntry {
    type V = EntryModel;

    open spec fn view(&self) -> EntryModel {
        EntryModel { name: self.name@, value: self.value@ }
    }
}

/// The default of a table: the value every unmatched reverse lookup resolves
/// to.  The name is that of the sentinel default variant, or absent when the
/// default was supplied as an argument rather than declared as a variant.
#[derive(Debug)]
pub struct DefaultEntry {
    pub name: Option<String>,
    pub value: DomainValue,
}

/// The mathematical image of a default entry.
pub struct DefaultModel {
    pub name: Option<Seq<char>>,
    pub value: ValueModel,
}

impl View for DefaultEntry {
    type V = DefaultModel;

    open spec fn view(&self) -> DefaultModel {
        DefaultModel {
            name: match self.name {
                Some(n) => Some(n@),
                None => None,
            },
            value: self.value@,
        }
    }
}

/// The compiled mapping: an ordered set of entries, one per non-sentinel
/// variant in declaration order, plus an optional default entry.
#[derive(Debug)]
pub struct DiscriminantTable {
    pub domain: Domain,
    pub entries: Vec<TableEntry>,
    pub default_entry: Option<DefaultEntry>,
}

/// The mathematical image of a table.
pub struct TableModel {
    pub domain: Domain,
    pub entries: Seq<EntryModel>,
    pub default_entry: Option<DefaultModel>,
}

impl View for DiscriminantTable {
    type V = TableModel;

    open spec fn view(&self) -> TableModel {
        TableModel {
            domain: self.domain,
            entries: self.entries@.map_values(|e: TableEntry| e@),
            default_entry: match self.default_entry {
                Some(ref de) => Some(de@),
                None => None,
            },
        }
    }
}

impl TableModel {
    /// The invariant of every compiled table.
    ///
    /// Every stored value lies in the usable space of the domain; values are
    /// pairwise distinct, the default's included; and when no default exists,
    /// an integer domain is fully covered and a string domain holds at least
    /// one entry.
    pub open spec fn wf(self) -> bool {
        &&& self.domain.wf()
        &&& forall|i: int|
            0 <= i < self.entries.len() ==> value_in_domain(
                self.domain,
                #[trigger] self.entries[i].value,
            )
        &&& forall|i: int, j: int|
            0 <= i < j < self.entries.len() ==> #[trigger] self.entries[i].value
                != #[trigger] self.entries[j].value
        &&& match self.default_entry {
            Some(de) => value_in_domain(self.domain, de.value) && forall|i: int|
                0 <= i < self.entries.len() ==> #[trigger] self.entries[i].value != de.value,
            None => {
                &&& self.domain is Integer ==> forall|n: nat|
                    n < self.domain.space() ==> #[trigger] self.has_value(ValueModel::Int(n))
                &&& !(self.domain is Integer) ==> self.entries.len() >= 1
            },
        }
    }

    /// Whether some entry holds this value.
    pub open spec fn has_value(self, v: ValueModel) -> bool {
        exists|i: int| 0 <= i < self.entries.len() && #[trigger] self.entries[i].value == v
    }
}

} // verus!
