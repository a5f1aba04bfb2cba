use indiscriminant::accessor::Lookup;
use indiscriminant::compile::compile;
use indiscriminant::decl::{DefaultArg, EnumDecl, VariantDecl};
use indiscriminant::domain::{Domain, IntegerType};
use indiscriminant::literal::LiteralExpr;
use indiscriminant::table::DiscriminantTable;
use indiscriminant::value::DomainValue;

fn int_variant(name: &str, value: u128) -> VariantDecl {
    VariantDecl {
        name: name.to_string(),
        literal: Some(LiteralExpr::Int {
            value,
            suffix: String::new(),
        }),
        is_default: false,
    }
}

fn str_variant(name: &str, value: &str) -> VariantDecl {
    VariantDecl {
        name: name.to_string(),
        literal: Some(LiteralExpr::Str(value.to_string())),
        is_default: false,
    }
}

fn byte_str_variant(name: &str, value: &[u8]) -> VariantDecl {
    VariantDecl {
        name: name.to_string(),
        literal: Some(LiteralExpr::ByteStr(value.to_vec())),
        is_default: false,
    }
}

fn sentinel(name: &str) -> VariantDecl {
    VariantDecl {
        name: name.to_string(),
        literal: None,
        is_default: true,
    }
}

fn int_table(
    itype: IntegerType,
    mask_width: u8,
    variants: Vec<VariantDecl>,
) -> DiscriminantTable {
    let decl = EnumDecl {
        domain: Domain::Integer { itype, mask_width },
        variants,
        default_arg: DefaultArg::Absent,
    };
    compile(&decl).unwrap()
}

fn to_int(table: &DiscriminantTable, i: usize) -> u128 {
    match table.forward(i) {
        DomainValue::Int(n) => *n,
        _ => panic!("integer domain"),
    }
}

fn default_int(table: &DiscriminantTable) -> u128 {
    match table.default_value() {
        Some(DomainValue::Int(n)) => *n,
        _ => panic!("integer default"),
    }
}

#[test]
fn test_bits() {
    let table = int_table(
        IntegerType::U8,
        8,
        vec![
            int_variant("A", 0),
            int_variant("B", 1),
            int_variant("C", 2),
            int_variant("D", 3),
            sentinel("_Default"),
        ],
    );
    assert!(table.entries.len() == 4);

    let table = int_table(
        IntegerType::U8,
        2,
        vec![
            int_variant("A", 0),
            int_variant("B", 1),
            int_variant("C", 2),
            int_variant("D", 3),
        ],
    );
    assert!(table.entries.len() == 4);

    // A 16-bit domain masked to 8 bits with a trailing sentinel default.
    let table16 = int_table(
        IntegerType::U16,
        8,
        vec![
            int_variant("A", 0),
            int_variant("B", 1),
            int_variant("C", 2),
            int_variant("D", 3),
            int_variant("E", 4),
            sentinel("_Default"),
        ],
    );
    assert!(table16.reverse(&DomainValue::Int(0)) == Lookup::Matched(0));
    assert!(table16.reverse(&DomainValue::Int(4)) == Lookup::Matched(4));
    assert!(table16.reverse(&DomainValue::Int(5)) == Lookup::Defaulted);
    assert!(table16.reverse(&DomainValue::Int(255)) == Lookup::Defaulted);
    assert!(default_int(&table16) == 5);

    // A fully declared 8-bit domain with one value left to the default.
    let mut variants: Vec<VariantDecl> = Vec::new();
    for i in 0..254u128 {
        variants.push(int_variant(&format!("B{}", i), i));
    }
    variants.push(int_variant("B255", 255));
    variants.push(sentinel("_Default"));
    let full = int_table(IntegerType::U8, 8, variants);

    assert!(to_int(&full, 0) == 0);
    assert!(to_int(&full, 253) == 253);
    assert!(default_int(&full) == 254);
    assert!(to_int(&full, 254) == 255);

    assert!(full.reverse(&DomainValue::Int(0)) == Lookup::Matched(0));
    assert!(full.reverse(&DomainValue::Int(253)) == Lookup::Matched(253));
    assert!(full.reverse(&DomainValue::Int(254)) == Lookup::Defaulted);
    assert!(full.reverse(&DomainValue::Int(255)) == Lookup::Matched(254));

    // A sparse 2-bit domain whose default takes the gap.
    let mixed = int_table(
        IntegerType::U8,
        2,
        vec![
            int_variant("A", 0),
            int_variant("B", 1),
            int_variant("D", 3),
            sentinel("_Default"),
        ],
    );
    assert!(to_int(&mixed, 0) == 0);
    assert!(to_int(&mixed, 1) == 1);
    assert!(default_int(&mixed) == 2);
    assert!(to_int(&mixed, 2) == 3);

    assert!(mixed.reverse(&DomainValue::Int(0)) == Lookup::Matched(0));
    assert!(mixed.reverse(&DomainValue::Int(1)) == Lookup::Matched(1));
    assert!(mixed.reverse(&DomainValue::Int(2)) == Lookup::Defaulted);
    assert!(mixed.reverse(&DomainValue::Int(3)) == Lookup::Matched(2));
}

#[test]
fn test_byte_str() {
    // A sentinel default reserves the empty byte string for itself.
    let decl = EnumDecl {
        domain: Domain::ByteStr,
        variants: vec![
            byte_str_variant("A", b"A"),
            byte_str_variant("B", b"B"),
            sentinel("Default"),
        ],
        default_arg: DefaultArg::Absent,
    };
    let with_default = compile(&decl).unwrap();

    assert!(*with_default.forward(0) == DomainValue::Bytes(b"A".to_vec()));
    assert!(*with_default.forward(1) == DomainValue::Bytes(b"B".to_vec()));
    assert!(
        *with_default.default_value().unwrap() == DomainValue::Bytes(Vec::new())
    );

    assert!(
        with_default.reverse(&DomainValue::Bytes(b"A".to_vec())) == Lookup::Matched(0)
    );
    assert!(
        with_default.reverse(&DomainValue::Bytes(b"B".to_vec())) == Lookup::Matched(1)
    );
    assert!(
        with_default.reverse(&DomainValue::Bytes(Vec::new())) == Lookup::Defaulted
    );
    assert!(
        with_default.reverse(&DomainValue::Bytes(b"ASDF".to_vec())) == Lookup::Defaulted
    );

    // Without a default the empty byte string is an ordinary value and the
    // reverse accessor is partial.
    let decl = EnumDecl {
        domain: Domain::ByteStr,
        variants: vec![
            byte_str_variant("A", b"A"),
            byte_str_variant("B", b"B"),
            byte_str_variant("C", b""),
        ],
        default_arg: DefaultArg::Absent,
    };
    let plain = compile(&decl).unwrap();

    assert!(*plain.forward(0) == DomainValue::Bytes(b"A".to_vec()));
    assert!(*plain.forward(1) == DomainValue::Bytes(b"B".to_vec()));
    assert!(*plain.forward(2) == DomainValue::Bytes(Vec::new()));

    assert!(plain.reverse(&DomainValue::Bytes(b"A".to_vec())) == Lookup::Matched(0));
    assert!(plain.reverse(&DomainValue::Bytes(b"B".to_vec())) == Lookup::Matched(1));
    assert!(plain.reverse(&DomainValue::Bytes(Vec::new())) == Lookup::Matched(2));
    assert!(plain.reverse(&DomainValue::Bytes(b"ASDF".to_vec())) == Lookup::NoMatch);
}

#[test]
fn test_str() {
    // A sentinel default reserves the empty string for itself.
    let decl = EnumDecl {
        domain: Domain::Str,
        variants: vec![
            str_variant("A", "A"),
            str_variant("B", "B"),
            sentinel("Default"),
        ],
        default_arg: DefaultArg::Absent,
    };
    let with_default = compile(&decl).unwrap();

    assert!(*with_default.forward(0) == DomainValue::Str("A".to_string()));
    assert!(*with_default.forward(1) == DomainValue::Str("B".to_string()));
    assert!(
        *with_default.default_value().unwrap() == DomainValue::Str(String::new())
    );

    assert!(
        with_default.reverse(&DomainValue::Str("A".to_string())) == Lookup::Matched(0)
    );
    assert!(
        with_default.reverse(&DomainValue::Str("B".to_string())) == Lookup::Matched(1)
    );
    assert!(
        with_default.reverse(&DomainValue::Str(String::new())) == Lookup::Defaulted
    );
    assert!(
        with_default.reverse(&DomainValue::Str("ASDF".to_string())) == Lookup::Defaulted
    );

    // Without a default the empty string is an ordinary value and the
    // reverse accessor is partial.
    let decl = EnumDecl {
        domain: Domain::Str,
        variants: vec![
            str_variant("A", "A"),
            str_variant("B", "B"),
            str_variant("C", ""),
        ],
        default_arg: DefaultArg::Absent,
    };
    let plain = compile(&decl).unwrap();

    assert!(*plain.forward(0) == DomainValue::Str("A".to_string()));
    assert!(*plain.forward(1) == DomainValue::Str("B".to_string()));
    assert!(*plain.forward(2) == DomainValue::Str(String::new()));

    assert!(plain.reverse(&DomainValue::Str("A".to_string())) == Lookup::Matched(0));
    assert!(plain.reverse(&DomainValue::Str("B".to_string())) == Lookup::Matched(1));
    assert!(plain.reverse(&DomainValue::Str(String::new())) == Lookup::Matched(2));
    assert!(plain.reverse(&DomainValue::Str("ASDF".to_string())) == Lookup::NoMatch);
}
