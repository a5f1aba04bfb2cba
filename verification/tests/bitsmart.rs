use indiscriminant::accessor::Lookup;
use indiscriminant::compile::compile;
use indiscriminant::decl::{DefaultArg, EnumDecl, VariantDecl};
use indiscriminant::domain::{Domain, IntegerType};
use indiscriminant::literal::LiteralExpr;
use indiscriminant::table::DiscriminantTable;
use indiscriminant::value::DomainValue;

fn valued(name: &str, value: u128) -> VariantDecl {
    VariantDecl {
        name: name.to_string(),
        literal: Some(LiteralExpr::Int {
            value,
            suffix: String::new(),
        }),
        is_default: false,
    }
}

fn trailing_default(name: &str) -> VariantDecl {
    VariantDecl {
        name: name.to_string(),
        literal: None,
        is_default: true,
    }
}

fn compiled(itype: IntegerType, mask_width: u8, variants: Vec<VariantDecl>) -> DiscriminantTable {
    let decl = EnumDecl {
        domain: Domain::Integer { itype, mask_width },
        variants,
        default_arg: DefaultArg::Absent,
    };
    compile(&decl).unwrap()
}

#[test]
fn bitsmart_test() {
    let table = compiled(
        IntegerType::U8,
        8,
        vec![
            valued("A", 0),
            valued("B", 1),
            valued("C", 2),
            valued("D", 3),
            trailing_default("Default"),
        ],
    );

    let table_full = compiled(
        IntegerType::U8,
        2,
        vec![valued("A", 0), valued("B", 1), valued("C", 2), valued("D", 3)],
    );
    assert!(table_full.default_value().is_none());

    let table16 = compiled(
        IntegerType::U16,
        8,
        vec![
            valued("A", 0),
            valued("B", 1),
            valued("C", 2),
            valued("D", 3),
            trailing_default("Default"),
        ],
    );

    let mut variants: Vec<VariantDecl> = Vec::new();
    for i in 0..255u128 {
        variants.push(valued(&format!("B{}", i), i));
    }
    variants.push(trailing_default("Default"));
    let full_enum = compiled(IntegerType::U8, 8, variants);
    assert!(
        *full_enum.default_value().unwrap() == DomainValue::Int(255)
    );

    // A value goes out through the forward accessor and comes back through
    // the reverse accessor.
    let a = table.forward(0).clone();
    assert!(table.reverse(&a) == Lookup::Matched(0));

    let a16 = table16.forward(0).clone();
    assert!(a16 == DomainValue::Int(0));

    println!("Testing!!!");
}
