//! Enumeration declarations: the input the declaration front end supplies.

use vstd::prelude::*;
use crate::domain::Domain;
use crate::literal::{LiteralExpr, LiteralModel};

verus! {

/// One declared variant, in declaration order: a name, an optional literal,
/// and whether this variant is the sentinel default.
///
/// Names are unique by construction at the source level; the compiler does
/// not re-check them.  The sentinel default is recognised by the front end
/// (a reserved name) or requested out of band; either way it arrives with
/// `is_default` set.
#[derive(Debug, Clone)]
pub struct VariantDecl {
    pub name: String,
    pub literal: Option<LiteralExpr>,
    pub is_default: bool,
}

/// The mathematical image of a declared variant.
pub struct VariantModel {
    pub name: Seq<char>,
    pub literal: Option<LiteralModel>,
    pub is_default: bool,
}

impl View for VariantDecl {
    type V = VariantModel;

    open spec fn view(&self) -> VariantModel {
        VariantModel {
            name: self.name@,
            literal: match self.literal {
                Some(l) => Some(l@),
                None => None,
            },
            is_default: self.is_default,
        }
    }
}

/// The default argument supplied beside the domain arguments.
#[derive(Debug, Clone)]
pub enum DefaultArg {
    /// No default requested.
    Absent,
    /// A default with this explicit literal value.
    Value(LiteralExpr),
    /// A default whose value is to be derived: the first unused value of an
    /// integer domain, or the empty value of a string domain.
    Derive,
}

/// The mathematical image of the default argument.
pub enum DefaultArgModel {
    Absent,
    Value(LiteralModel),
    Derive,
}

impl View for DefaultArg {
    type V = DefaultArgModel;

    open spec fn view(&self) -> DefaultArgModel {
        match self {
            DefaultArg::Absent => DefaultArgModel::Absent,
            DefaultArg::Value(l) => DefaultArgModel::Value(l@),
            DefaultArg::Derive => DefaultArgModel::Derive,
        }
    }
}

/// A whole enumeration declaration: the domain arguments, the variants in
/// declaration order, and the optional default argument.
#[derive(Debug, Clone)]
pub struct EnumDecl {
    pub domain: Domain,
    pub variants: Vec<VariantDecl>,
    pub default_arg: DefaultArg,
}

/// The mathematical image of an enumeration declaration.
pub struct EnumDeclModel {
    pub domain: Domain,
    pub variants: Seq<VariantModel>,
    pub default_arg: DefaultArgModel,
}

impl View for EnumDecl {
    type V = EnumDeclModel;

    open spec fn view(&self) -> EnumDeclModel {
        EnumDeclModel {
            domain: self.domain,
            variants: self.variants@.map_values(|v: VariantDecl| v@),
            default_arg: self.default_arg@,
        }
    }
}

} // verus!
