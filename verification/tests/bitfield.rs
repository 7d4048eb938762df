use bitseq::bitfield::Bitfield;
use bitseq::error::SemanticError;
use bitseq::layout::{generate, FieldSpec};
use bitseq::specifier::{derive_enum_specifier, make_specifier_table, HoldValue};

fn field(name: &str, specifier: &str) -> FieldSpec {
    FieldSpec {
        name: name.to_string(),
        specifier: specifier.to_string(),
    }
}

fn plan_of(widths: &[(&str, &str)]) -> bitseq::layout::BitfieldPlan {
    let fields: Vec<FieldSpec> = widths.iter().map(|(n, s)| field(n, s)).collect();
    let table = make_specifier_table();
    generate(&fields, &table).unwrap()
}

#[test]
fn offsets_are_prefix_sums() {
    // Widths [3, 1, 4, 24]: byte count 4; exact start/end per field.
    let plan = plan_of(&[("a", "B3"), ("b", "B1"), ("c", "B4"), ("d", "B24")]);
    assert_eq!(plan.size.byte_count, 4);
    assert_eq!(plan.size.total_bits, 32);
    assert_eq!((plan.fields[0].start, plan.fields[0].end), (0, 3));
    assert_eq!((plan.fields[1].start, plan.fields[1].end), (3, 4));
    assert_eq!((plan.fields[2].start, plan.fields[2].end), (4, 8));
    assert_eq!((plan.fields[3].start, plan.fields[3].end), (8, 32));
    assert_eq!(plan.fields[0].name, "a".to_string());
}

#[test]
fn non_byte_multiple_total_fails() {
    // Widths [3, 3] sum to 6 bits: no usable artifact.
    let fields = vec![field("a", "B3"), field("b", "B3")];
    let table = make_specifier_table();
    let err = generate(&fields, &table).unwrap_err();
    assert_eq!(err, SemanticError::TotalSizeNotMultipleOfEight { total_bits: 6 });
    assert_eq!(err.message(), "total bit width is not a multiple of 8 bits");
}

#[test]
fn unknown_specifier_fails_at_its_field() {
    let fields = vec![field("a", "B8"), field("b", "B65")];
    let table = make_specifier_table();
    let err = generate(&fields, &table).unwrap_err();
    assert_eq!(err, SemanticError::UnknownSpecifier { field: 1 });
}

#[test]
fn new_bitfield_reads_all_zero() {
    let plan = plan_of(&[("a", "B3"), ("b", "B1"), ("c", "B4"), ("d", "B24")]);
    let bf = Bitfield::new(plan);
    for i in 0..bf.field_count() {
        assert_eq!(bf.get_field(i), 0);
    }
    assert_eq!(bf.raw_bytes().as_slice(), &[0u8; 4]);
}

#[test]
fn set_then_get_returns_the_value() {
    let plan = plan_of(&[("a", "B3"), ("b", "B1"), ("c", "B4"), ("d", "B24")]);
    let mut bf = Bitfield::new(plan);
    bf.set_field(0, 0b101);
    assert_eq!(bf.get_field(0), 0b101);
    bf.set_field(3, 0xABCDEF);
    assert_eq!(bf.get_field(3), 0xABCDEF);
}

#[test]
fn distinct_sentinels_do_not_perturb_each_other() {
    let plan = plan_of(&[("a", "B3"), ("b", "B1"), ("c", "B4"), ("d", "B24")]);
    let mut bf = Bitfield::new(plan);
    bf.set_field(0, 0b110);
    bf.set_field(1, 1);
    bf.set_field(2, 0xA);
    bf.set_field(3, 0x123456);
    assert_eq!(bf.get_field(0), 0b110);
    assert_eq!(bf.get_field(1), 1);
    assert_eq!(bf.get_field(2), 0xA);
    assert_eq!(bf.get_field(3), 0x123456);
    // Rewriting one field leaves the others as they were.
    bf.set_field(2, 0x5);
    assert_eq!(bf.get_field(0), 0b110);
    assert_eq!(bf.get_field(1), 1);
    assert_eq!(bf.get_field(2), 0x5);
    assert_eq!(bf.get_field(3), 0x123456);
}

#[test]
fn layout_is_big_endian_within_bytes() {
    // Bit 0 is the most-significant bit of byte 0.
    let plan = plan_of(&[("a", "B3"), ("b", "B1"), ("c", "B4"), ("d", "B24")]);
    let mut bf = Bitfield::new(plan);
    bf.set_field(0, 0b111);
    bf.set_field(1, 1);
    assert_eq!(bf.raw_bytes().as_slice(), &[0xF0, 0, 0, 0]);
    bf.set_field(3, 1);
    assert_eq!(bf.raw_bytes().as_slice(), &[0xF0, 0, 0, 1]);
}

#[test]
fn field_spanning_byte_boundary_round_trips() {
    // Widths [4, 8, 4]: the middle field crosses a byte boundary on both
    // sides.
    let plan = plan_of(&[("hi", "B4"), ("mid", "B8"), ("lo", "B4")]);
    let mut bf = Bitfield::new(plan);
    bf.set_field(0, 0x3);
    bf.set_field(1, 0xC5);
    bf.set_field(2, 0x9);
    assert_eq!(bf.get_field(0), 0x3);
    assert_eq!(bf.get_field(1), 0xC5);
    assert_eq!(bf.get_field(2), 0x9);
    assert_eq!(bf.raw_bytes().as_slice(), &[0x3C, 0x59]);
}

#[test]
fn widest_field_round_trips() {
    let plan = plan_of(&[("x", "B64")]);
    let mut bf = Bitfield::new(plan);
    bf.set_field(0, u64::MAX);
    assert_eq!(bf.get_field(0), u64::MAX);
    bf.set_field(0, 0x0123_4567_89AB_CDEF);
    assert_eq!(bf.get_field(0), 0x0123_4567_89AB_CDEF);
}

#[test]
fn codec_writes_and_reads_a_raw_range() {
    let mut data = vec![0u8, 0u8];
    bitseq::codec::set_bits(&mut data, 0xAB, 4, 12);
    assert_eq!(bitseq::codec::get_bits(&data, 4, 12), 0xAB);
    assert_eq!(data, vec![0x0A, 0xB0]);
}

#[test]
fn fields_are_found_by_name() {
    let plan = plan_of(&[("a", "B3"), ("b", "B1"), ("c", "B4"), ("d", "B24")]);
    assert_eq!(plan.field_index(&"c".to_string()), Some(2));
    assert_eq!(plan.field_index(&"z".to_string()), None);
    let mut bf = Bitfield::new(plan);
    let d = bf.plan().field_index(&"d".to_string()).unwrap();
    bf.set_field(d, 77);
    assert_eq!(bf.get_field(d), 77);
}

#[test]
fn hold_accessors_convert_both_ways() {
    let mut table = make_specifier_table();
    table.push(("Mode".to_string(), derive_enum_specifier(4).unwrap()));
    let fields = vec![field("flag", "bool"), field("mode", "Mode"), field("pad", "B5")];
    let plan = generate(&fields, &table).unwrap();
    assert_eq!(plan.size.byte_count, 1);
    let mut bf = Bitfield::new(plan);
    bf.set_hold(0, HoldValue::Bool(true));
    bf.set_hold(1, HoldValue::Variant(2));
    bf.set_hold(2, HoldValue::Uint(0b10110));
    assert_eq!(bf.get_hold(0), HoldValue::Bool(true));
    assert_eq!(bf.get_hold(1), HoldValue::Variant(2));
    assert_eq!(bf.get_hold(2), HoldValue::Uint(0b10110));
    assert_eq!(bf.raw_bytes().as_slice(), &[0b1_10_10110]);
}
