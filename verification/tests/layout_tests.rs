use bitfield::{
    define_specifier, make_accessor, narrowest_raw_width, plan_layout, FieldDescriptor,
    LayoutError,
};

fn field(name: &str, bits: usize) -> FieldDescriptor {
    FieldDescriptor { name: name.to_string(), specifier: define_specifier(bits), declared_bits: None }
}

#[test]
fn offsets_are_prefix_sums_and_total_is_the_full_sum() {
    let plan = plan_layout(vec![field("a", 1), field("b", 3), field("c", 4), field("d", 24)])
        .unwrap();
    assert_eq!(plan.total_bits, 32);
    let offsets: Vec<usize> = (0..4).map(|i| make_accessor(&plan, i).offset).collect();
    assert_eq!(offsets, vec![0, 1, 4, 8]);
    for i in 0..4 {
        let a = make_accessor(&plan, i);
        assert_eq!(a.total, 32);
        assert!(a.is_well_formed());
    }
}

#[test]
fn unaligned_total_is_rejected() {
    // Widths [3, 4] add up to 7 bits: no whole number of bytes.
    let r = plan_layout(vec![field("a", 3), field("b", 4)]);
    assert_eq!(r.unwrap_err(), LayoutError::TotalSizeNotByteAligned);
}

#[test]
fn empty_field_list_is_a_valid_zero_byte_layout() {
    let plan = plan_layout(vec![]).unwrap();
    assert_eq!(plan.total_bits, 0);
    assert_eq!(plan.len(), 0);
}

#[test]
fn declared_width_must_match_the_specifier() {
    let ok = FieldDescriptor {
        name: "a".to_string(),
        specifier: define_specifier(5),
        declared_bits: Some(5),
    };
    let bad = FieldDescriptor {
        name: "b".to_string(),
        specifier: define_specifier(3),
        declared_bits: Some(4),
    };
    let plan = plan_layout(vec![ok, field("pad", 3)]).unwrap();
    assert_eq!(plan.total_bits, 8);
    let r = plan_layout(vec![bad, field("pad", 5)]);
    assert_eq!(r.unwrap_err(), LayoutError::FieldWidthMismatch);
}

#[test]
fn width_mismatch_is_reported_before_misalignment() {
    // Both faults at once: the width mismatch is the reported error.
    let bad = FieldDescriptor {
        name: "a".to_string(),
        specifier: define_specifier(3),
        declared_bits: Some(7),
    };
    let r = plan_layout(vec![bad]);
    assert_eq!(r.unwrap_err(), LayoutError::FieldWidthMismatch);
}

#[test]
fn raw_width_is_the_narrowest_unit() {
    assert_eq!(narrowest_raw_width(1), 8);
    assert_eq!(narrowest_raw_width(8), 8);
    assert_eq!(narrowest_raw_width(9), 16);
    assert_eq!(narrowest_raw_width(16), 16);
    assert_eq!(narrowest_raw_width(17), 32);
    assert_eq!(narrowest_raw_width(32), 32);
    assert_eq!(narrowest_raw_width(33), 64);
    assert_eq!(narrowest_raw_width(64), 64);
    for bits in 1..=64 {
        let s = define_specifier(bits);
        assert_eq!(s.bits, bits);
        assert_eq!(s.raw_width, narrowest_raw_width(bits));
        assert!(s.raw_width >= bits);
    }
}
