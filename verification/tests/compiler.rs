use indiscriminant::accessor::Lookup;
use indiscriminant::compile::compile;
use indiscriminant::decl::{DefaultArg, EnumDecl, VariantDecl};
use indiscriminant::domain::{Domain, IntegerType};
use indiscriminant::error::CompileError;
use indiscriminant::literal::LiteralExpr;
use indiscriminant::value::DomainValue;

fn num(name: &str, value: u128) -> VariantDecl {
    VariantDecl {
        name: name.to_string(),
        literal: Some(LiteralExpr::Int {
            value,
            suffix: String::new(),
        }),
        is_default: false,
    }
}

fn num_suffixed(name: &str, value: u128, suffix: &str) -> VariantDecl {
    VariantDecl {
        name: name.to_string(),
        literal: Some(LiteralExpr::Int {
            value,
            suffix: suffix.to_string(),
        }),
        is_default: false,
    }
}

fn text(name: &str, value: &str) -> VariantDecl {
    VariantDecl {
        name: name.to_string(),
        literal: Some(LiteralExpr::Str(value.to_string())),
        is_default: false,
    }
}

fn bytes(name: &str, value: &[u8]) -> VariantDecl {
    VariantDecl {
        name: name.to_string(),
        literal: Some(LiteralExpr::ByteStr(value.to_vec())),
        is_default: false,
    }
}

fn bare(name: &str) -> VariantDecl {
    VariantDecl {
        name: name.to_string(),
        literal: None,
        is_default: false,
    }
}

fn default_variant(name: &str) -> VariantDecl {
    VariantDecl {
        name: name.to_string(),
        literal: None,
        is_default: true,
    }
}

fn int_decl(itype: IntegerType, mask_width: u8, variants: Vec<VariantDecl>) -> EnumDecl {
    EnumDecl {
        domain: Domain::Integer { itype, mask_width },
        variants,
        default_arg: DefaultArg::Absent,
    }
}

#[test]
fn masked_lookup_ignores_high_bits() {
    let decl = int_decl(
        IntegerType::U8,
        2,
        vec![num("A", 0), num("B", 1), num("C", 2), num("D", 3)],
    );
    let table = compile(&decl).unwrap();
    assert_eq!(table.reverse(&DomainValue::Int(3)), Lookup::Matched(3));
    // 7 is 3 with one bit beyond the mask set.
    assert_eq!(table.reverse(&DomainValue::Int(7)), Lookup::Matched(3));
    assert_eq!(table.reverse(&DomainValue::Int(255)), Lookup::Matched(3));
    assert_eq!(table.reverse(&DomainValue::Int(252)), Lookup::Matched(0));
}

#[test]
fn explicit_default_value_byte_str() {
    let decl = EnumDecl {
        domain: Domain::ByteStr,
        variants: vec![bytes("A", b"A"), bytes("B", b"B")],
        default_arg: DefaultArg::Value(LiteralExpr::ByteStr(Vec::new())),
    };
    let table = compile(&decl).unwrap();
    assert_eq!(
        table.reverse(&DomainValue::Bytes(b"A".to_vec())),
        Lookup::Matched(0)
    );
    assert_eq!(
        table.reverse(&DomainValue::Bytes(b"XYZ".to_vec())),
        Lookup::Defaulted
    );
    assert_eq!(
        *table.default_value().unwrap(),
        DomainValue::Bytes(Vec::new())
    );
    // An argument-supplied default carries no variant name.
    assert!(table.default_entry.as_ref().unwrap().name.is_none());
}

#[test]
fn incomplete_coverage_without_default() {
    let decl = int_decl(
        IntegerType::U8,
        2,
        vec![num("A", 0), num("B", 1), num("D", 3)],
    );
    assert_eq!(
        compile(&decl).unwrap_err(),
        CompileError::IncompleteCoverageWithoutDefault
    );
}

#[test]
fn default_not_at_end() {
    let decl = int_decl(
        IntegerType::U8,
        2,
        vec![num("A", 0), default_variant("Default"), num("B", 1)],
    );
    assert_eq!(compile(&decl).unwrap_err(), CompileError::DefaultNotAtEnd);
}

#[test]
fn default_has_explicit_value() {
    let mut with_value = default_variant("Default");
    with_value.literal = Some(LiteralExpr::Int {
        value: 7,
        suffix: String::new(),
    });
    let decl = int_decl(IntegerType::U8, 8, vec![num("A", 0), with_value]);
    assert_eq!(
        compile(&decl).unwrap_err(),
        CompileError::DefaultHasExplicitValue
    );
}

#[test]
fn default_variant_conflict() {
    let decl = EnumDecl {
        domain: Domain::Integer {
            itype: IntegerType::U8,
            mask_width: 8,
        },
        variants: vec![num("A", 0), default_variant("Default")],
        default_arg: DefaultArg::Value(LiteralExpr::Int {
            value: 9,
            suffix: String::new(),
        }),
    };
    assert_eq!(
        compile(&decl).unwrap_err(),
        CompileError::DefaultVariantConflict
    );
}

#[test]
fn duplicate_discriminant() {
    let decl = int_decl(IntegerType::U16, 8, vec![num("A", 5), num("B", 5)]);
    assert_eq!(
        compile(&decl).unwrap_err(),
        CompileError::DuplicateDiscriminant
    );

    let decl = EnumDecl {
        domain: Domain::Str,
        variants: vec![text("A", "x"), text("B", "x")],
        default_arg: DefaultArg::Absent,
    };
    assert_eq!(
        compile(&decl).unwrap_err(),
        CompileError::DuplicateDiscriminant
    );
}

#[test]
fn discriminant_too_large() {
    // 4 fits the native width but not the 2-bit usable space.
    let decl = int_decl(IntegerType::U8, 2, vec![num("A", 4)]);
    assert_eq!(
        compile(&decl).unwrap_err(),
        CompileError::DiscriminantTooLarge
    );

    // The auto-incremented value can overflow the space too.
    let decl = int_decl(IntegerType::U8, 1, vec![num("A", 1), bare("B")]);
    assert_eq!(
        compile(&decl).unwrap_err(),
        CompileError::DiscriminantTooLarge
    );

    // An explicit default value is held to the same bound.
    let decl = EnumDecl {
        domain: Domain::Integer {
            itype: IntegerType::U8,
            mask_width: 2,
        },
        variants: vec![num("A", 0)],
        default_arg: DefaultArg::Value(LiteralExpr::Int {
            value: 9,
            suffix: String::new(),
        }),
    };
    assert_eq!(
        compile(&decl).unwrap_err(),
        CompileError::DiscriminantTooLarge
    );
}

#[test]
fn value_out_of_range() {
    let decl = int_decl(IntegerType::U8, 8, vec![num("A", 256)]);
    assert_eq!(compile(&decl).unwrap_err(), CompileError::ValueOutOfRange);
}

#[test]
fn suffix_rules() {
    let decl = int_decl(
        IntegerType::U8,
        8,
        vec![num_suffixed("A", 1, "u16")],
    );
    assert_eq!(compile(&decl).unwrap_err(), CompileError::SuffixMismatch);

    // The matching suffix and the missing suffix are both accepted.
    let decl = int_decl(
        IntegerType::U8,
        8,
        vec![num_suffixed("A", 0, "u8"), num("B", 1), default_variant("Default")],
    );
    assert!(compile(&decl).is_ok());
}

#[test]
fn unsupported_literal_kind() {
    let decl = int_decl(IntegerType::U8, 8, vec![text("A", "zero")]);
    assert_eq!(
        compile(&decl).unwrap_err(),
        CompileError::UnsupportedLiteralKind
    );

    let decl = EnumDecl {
        domain: Domain::Str,
        variants: vec![bytes("A", b"A")],
        default_arg: DefaultArg::Absent,
    };
    assert_eq!(
        compile(&decl).unwrap_err(),
        CompileError::UnsupportedLiteralKind
    );
}

#[test]
fn byte_literal_is_an_integer() {
    let mut v = bare("A");
    v.literal = Some(LiteralExpr::Byte(65));
    let decl = EnumDecl {
        domain: Domain::Integer {
            itype: IntegerType::U8,
            mask_width: 8,
        },
        variants: vec![v, default_variant("Default")],
        default_arg: DefaultArg::Absent,
    };
    let table = compile(&decl).unwrap();
    assert_eq!(*table.forward(0), DomainValue::Int(65));
}

#[test]
fn missing_discriminant_on_string_domain() {
    let decl = EnumDecl {
        domain: Domain::Str,
        variants: vec![bare("A")],
        default_arg: DefaultArg::Absent,
    };
    assert_eq!(
        compile(&decl).unwrap_err(),
        CompileError::MissingDiscriminant
    );
}

#[test]
fn reserved_empty_literal() {
    // With a sentinel default in play, an explicit empty string is refused.
    let decl = EnumDecl {
        domain: Domain::Str,
        variants: vec![text("A", ""), default_variant("Default")],
        default_arg: DefaultArg::Absent,
    };
    assert_eq!(
        compile(&decl).unwrap_err(),
        CompileError::ReservedEmptyLiteral
    );

    // With an explicit-value default it is an ordinary value.
    let decl = EnumDecl {
        domain: Domain::Str,
        variants: vec![text("A", "")],
        default_arg: DefaultArg::Value(LiteralExpr::Str("other".to_string())),
    };
    assert!(compile(&decl).is_ok());
}

#[test]
fn domain_fully_covered() {
    let decl = int_decl(
        IntegerType::U8,
        1,
        vec![num("A", 0), num("B", 1), default_variant("Default")],
    );
    assert_eq!(compile(&decl).unwrap_err(), CompileError::DomainFullyCovered);
}

#[test]
fn default_value_collision() {
    let decl = EnumDecl {
        domain: Domain::ByteStr,
        variants: vec![bytes("A", b"A")],
        default_arg: DefaultArg::Value(LiteralExpr::ByteStr(b"A".to_vec())),
    };
    assert_eq!(
        compile(&decl).unwrap_err(),
        CompileError::DefaultValueCollision
    );

    let decl = EnumDecl {
        domain: Domain::Integer {
            itype: IntegerType::U32,
            mask_width: 8,
        },
        variants: vec![num("A", 3)],
        default_arg: DefaultArg::Value(LiteralExpr::Int {
            value: 3,
            suffix: String::new(),
        }),
    };
    assert_eq!(
        compile(&decl).unwrap_err(),
        CompileError::DefaultValueCollision
    );
}

#[test]
fn empty_enumeration() {
    let decl = EnumDecl {
        domain: Domain::Str,
        variants: Vec::new(),
        default_arg: DefaultArg::Absent,
    };
    assert_eq!(compile(&decl).unwrap_err(), CompileError::EmptyEnumeration);
}

#[test]
fn unknown_domain() {
    assert_eq!(
        Domain::resolve(&"i32".to_string(), None).unwrap_err(),
        CompileError::UnknownDomain
    );
    // A mask wider than the native width names no domain either.
    assert_eq!(
        Domain::resolve(&"u8".to_string(), Some(9)).unwrap_err(),
        CompileError::UnknownDomain
    );
    let decl = EnumDecl {
        domain: Domain::Integer {
            itype: IntegerType::U8,
            mask_width: 9,
        },
        variants: vec![num("A", 0)],
        default_arg: DefaultArg::Absent,
    };
    assert_eq!(compile(&decl).unwrap_err(), CompileError::UnknownDomain);
}

#[test]
fn domain_resolution() {
    assert_eq!(
        Domain::resolve(&"u8".to_string(), None).unwrap(),
        Domain::Integer {
            itype: IntegerType::U8,
            mask_width: 8
        }
    );
    assert_eq!(
        Domain::resolve(&"u16".to_string(), Some(3)).unwrap(),
        Domain::Integer {
            itype: IntegerType::U16,
            mask_width: 3
        }
    );
    assert_eq!(
        Domain::resolve(&"u128".to_string(), None).unwrap(),
        Domain::Integer {
            itype: IntegerType::U128,
            mask_width: 128
        }
    );
    assert_eq!(Domain::resolve(&"string".to_string(), None).unwrap(), Domain::Str);
    assert_eq!(
        Domain::resolve(&"byte-string".to_string(), None).unwrap(),
        Domain::ByteStr
    );
}

#[test]
fn auto_increment() {
    let decl = int_decl(
        IntegerType::U8,
        8,
        vec![
            bare("A"),
            bare("B"),
            num("C", 10),
            bare("D"),
            default_variant("Default"),
        ],
    );
    let table = compile(&decl).unwrap();
    assert_eq!(*table.forward(0), DomainValue::Int(0));
    assert_eq!(*table.forward(1), DomainValue::Int(1));
    assert_eq!(*table.forward(2), DomainValue::Int(10));
    assert_eq!(*table.forward(3), DomainValue::Int(11));
    // The derived default takes the first unused value.
    assert_eq!(*table.default_value().unwrap(), DomainValue::Int(2));
}

#[test]
fn derive_argument() {
    let decl = EnumDecl {
        domain: Domain::Integer {
            itype: IntegerType::U64,
            mask_width: 4,
        },
        variants: vec![num("A", 0), num("C", 2)],
        default_arg: DefaultArg::Derive,
    };
    let table = compile(&decl).unwrap();
    assert_eq!(*table.default_value().unwrap(), DomainValue::Int(1));
    assert_eq!(table.reverse(&DomainValue::Int(1)), Lookup::Defaulted);
    assert_eq!(table.reverse(&DomainValue::Int(2)), Lookup::Matched(1));

    // On a string domain a derived default is the empty string; an explicit
    // empty variant is then reserved.
    let decl = EnumDecl {
        domain: Domain::Str,
        variants: vec![text("A", ""), text("B", "B")],
        default_arg: DefaultArg::Derive,
    };
    assert_eq!(
        compile(&decl).unwrap_err(),
        CompileError::ReservedEmptyLiteral
    );

    let decl = EnumDecl {
        domain: Domain::Str,
        variants: vec![text("B", "B")],
        default_arg: DefaultArg::Derive,
    };
    let table = compile(&decl).unwrap();
    assert_eq!(
        *table.default_value().unwrap(),
        DomainValue::Str(String::new())
    );
}

#[test]
fn wide_domain_masking() {
    let decl = EnumDecl {
        domain: Domain::Integer {
            itype: IntegerType::U128,
            mask_width: 64,
        },
        variants: vec![num("A", 5), num("B", 6)],
        default_arg: DefaultArg::Derive,
    };
    let table = compile(&decl).unwrap();
    let high_bits = (5u128) | (1u128 << 64);
    assert_eq!(table.reverse(&DomainValue::Int(high_bits)), Lookup::Matched(0));
    assert_eq!(table.reverse(&DomainValue::Int(u128::MAX)), Lookup::Defaulted);
    assert_eq!(*table.default_value().unwrap(), DomainValue::Int(0));
}

#[test]
fn round_trip_every_variant() {
    let decl = int_decl(
        IntegerType::U16,
        4,
        vec![
            num("A", 9),
            num("B", 0),
            num("C", 4),
            bare("D"),
            default_variant("Default"),
        ],
    );
    let table = compile(&decl).unwrap();
    for i in 0..table.entries.len() {
        let v = table.forward(i).clone();
        assert_eq!(table.reverse(&v), Lookup::Matched(i));
    }
    let dv = table.default_value().unwrap().clone();
    assert_eq!(table.reverse(&dv), Lookup::Defaulted);
}

#[test]
fn total_under_default() {
    let decl = int_decl(
        IntegerType::U8,
        3,
        vec![num("A", 1), num("B", 6), default_variant("Default")],
    );
    let table = compile(&decl).unwrap();
    for v in 0..=255u128 {
        assert_ne!(table.reverse(&DomainValue::Int(v)), Lookup::NoMatch);
    }

    let decl = EnumDecl {
        domain: Domain::Str,
        variants: vec![text("A", "A")],
        default_arg: DefaultArg::Value(LiteralExpr::Str("fallback".to_string())),
    };
    let table = compile(&decl).unwrap();
    for s in ["", "A", "B", "anything"] {
        assert_ne!(
            table.reverse(&DomainValue::Str(s.to_string())),
            Lookup::NoMatch
        );
    }
}

#[test]
fn width_tokens() {
    assert_eq!(
        IntegerType::from_str(&"u64".to_string()),
        Some(IntegerType::U64)
    );
    assert_eq!(IntegerType::from_str(&"f32".to_string()), None);
    assert_eq!(IntegerType::U32.to_str(), "u32".to_string());
    assert_eq!(IntegerType::U16.get_width(), 16);
    assert!(IntegerType::U8.width_valid(8));
    assert!(!IntegerType::U8.width_valid(9));
    assert!(IntegerType::U64.width_match(64));
    assert!(!IntegerType::U64.width_match(32));
    assert!(IntegerType::U8.suffix_valid(&"u8".to_string()));
    assert!(!IntegerType::U8.suffix_valid(&"u16".to_string()));
    assert!(IntegerType::U8.value_valid(255));
    assert!(!IntegerType::U8.value_valid(256));
    assert!(IntegerType::U128.value_valid(u128::MAX));
}
