use bitseq::error::SemanticError;
use bitseq::layout::lookup_specifier;
use bitseq::specifier::{
    derive_enum_specifier, from_hold, make_specifier_table, to_hold, HoldKind, HoldValue,
    Specifier,
};

#[test]
fn three_variants_fail_derivation() {
    let err = derive_enum_specifier(3).unwrap_err();
    assert_eq!(err, SemanticError::NonPowerOfTwoVariants { count: 3 });
    assert_eq!(
        err.message(),
        "expected a number of variants which is a power of 2"
    );
}

#[test]
fn zero_variants_fail_derivation() {
    let err = derive_enum_specifier(0).unwrap_err();
    assert_eq!(err, SemanticError::NonPowerOfTwoVariants { count: 0 });
}

#[test]
fn four_variants_derive_width_two() {
    let s = derive_enum_specifier(4).unwrap();
    assert_eq!(s.bits, 2);
    assert_eq!(s.hold, HoldKind::UserEnum { variants: 4 });
}

#[test]
fn sixty_four_variants_derive_width_six() {
    let s = derive_enum_specifier(64).unwrap();
    assert_eq!(s.bits, 6);
}

#[test]
fn every_variant_round_trips() {
    let s = derive_enum_specifier(4).unwrap();
    for d in 0..4u64 {
        let held = to_hold(&s, d);
        assert_eq!(held, HoldValue::Variant(d));
        assert_eq!(from_hold(&s, held), d);
    }
}

#[test]
fn bool_hold_round_trips() {
    let s = Specifier {
        bits: 1,
        hold: HoldKind::Bool,
    };
    assert_eq!(to_hold(&s, 1), HoldValue::Bool(true));
    assert_eq!(to_hold(&s, 0), HoldValue::Bool(false));
    assert_eq!(from_hold(&s, HoldValue::Bool(true)), 1);
    assert_eq!(from_hold(&s, HoldValue::Bool(false)), 0);
}

#[test]
fn table_binds_every_width_to_its_holder() {
    let t = make_specifier_table();
    assert_eq!(t.len(), 65);
    assert_eq!(t[0].0, "bool".to_string());
    assert_eq!(t[0].1, Specifier { bits: 1, hold: HoldKind::Bool });
    for w in 1..=64u64 {
        let (name, s) = &t[w as usize];
        assert_eq!(*name, format!("B{}", w));
        assert_eq!(s.bits, w);
        let holder = if w <= 8 {
            8
        } else if w <= 16 {
            16
        } else if w <= 32 {
            32
        } else {
            64
        };
        assert_eq!(s.hold, HoldKind::Uint { holder_bits: holder });
    }
}

#[test]
fn lookup_takes_the_first_of_equal_names() {
    let twice = vec![
        ("w".to_string(), Specifier { bits: 5, hold: HoldKind::Uint { holder_bits: 8 } }),
        ("w".to_string(), Specifier { bits: 7, hold: HoldKind::Uint { holder_bits: 8 } }),
    ];
    let hit = lookup_specifier(&twice, &"w".to_string()).unwrap();
    assert_eq!(hit.bits, 5);
}

#[test]
fn lookup_finds_bound_names_only() {
    let t = make_specifier_table();
    let hit = lookup_specifier(&t, &"B24".to_string()).unwrap();
    assert_eq!(hit.bits, 24);
    assert_eq!(hit.hold, HoldKind::Uint { holder_bits: 32 });
    assert!(lookup_specifier(&t, &"B0".to_string()).is_none());
    assert!(lookup_specifier(&t, &"u8".to_string()).is_none());
}
