use bitfield::{
    derive_enum_specifier, enum_to_logical, enum_to_raw, perfect_log2, EnumVariant,
    ValidationError,
};

fn variants(discs: &[usize]) -> Vec<EnumVariant> {
    discs
        .iter()
        .enumerate()
        .map(|(i, d)| EnumVariant { name: format!("V{}", i), discriminant: *d })
        .collect()
}

#[test]
fn four_variants_take_two_bits() {
    let desc = derive_enum_specifier(variants(&[0, 1, 2, 3])).unwrap();
    assert_eq!(desc.bits, 2);
    assert_eq!(desc.raw_width, 8);
    assert_eq!(desc.len(), 4);
}

#[test]
fn variant_count_must_be_a_power_of_two() {
    let r = derive_enum_specifier(variants(&[0, 1, 2]));
    assert_eq!(r.unwrap_err(), ValidationError::VariantCountNotPowerOfTwo);
    let r = derive_enum_specifier(variants(&[]));
    assert_eq!(r.unwrap_err(), ValidationError::VariantCountNotPowerOfTwo);
}

#[test]
fn discriminant_must_lie_below_the_count() {
    // A variant with discriminant 5 among 4 variants is out of range.
    let r = derive_enum_specifier(variants(&[0, 1, 5, 3]));
    assert_eq!(r.unwrap_err(), ValidationError::DiscriminantOutOfRange);
}

#[test]
fn single_variant_enum_takes_zero_bits() {
    let desc = derive_enum_specifier(variants(&[0])).unwrap();
    assert_eq!(desc.bits, 0);
    assert_eq!(desc.raw_width, 8);
}

#[test]
fn conversion_uses_the_fixed_discriminants() {
    // Discriminants in scrambled order: each variant encodes to its own
    // discriminant and decodes back.
    let desc = derive_enum_specifier(variants(&[2, 0, 3, 1])).unwrap();
    for (i, d) in [(0usize, 2u64), (1, 0), (2, 3), (3, 1)] {
        assert_eq!(enum_to_raw(&desc, i), d);
        assert_eq!(enum_to_logical(&desc, d), i);
    }
}

#[test]
fn unassigned_raw_value_decodes_to_the_first_variant() {
    // Two variants both declared with discriminant 1: raw 0 is unassigned
    // and falls back to the first declared variant, and raw 1 decodes to the
    // first of the two matches.
    let desc = derive_enum_specifier(variants(&[1, 1])).unwrap();
    assert_eq!(desc.bits, 1);
    assert_eq!(enum_to_logical(&desc, 0), 0);
    assert_eq!(enum_to_logical(&desc, 1), 0);
    // A raw value past the declared set also falls back.
    assert_eq!(enum_to_logical(&desc, 7), 0);
}

#[test]
fn exact_logarithms_and_their_absence() {
    assert_eq!(perfect_log2(1), Ok(0));
    assert_eq!(perfect_log2(2), Ok(1));
    assert_eq!(perfect_log2(4), Ok(2));
    assert_eq!(perfect_log2(64), Ok(6));
    assert_eq!(perfect_log2(1024), Ok(10));
    assert_eq!(perfect_log2(1usize << 63), Ok(63));
    assert_eq!(perfect_log2(0), Err(()));
    assert_eq!(perfect_log2(3), Err(()));
    assert_eq!(perfect_log2(6), Err(()));
    assert_eq!(perfect_log2(usize::MAX), Err(()));
}
