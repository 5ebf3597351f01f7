use bitfield::{
    define_specifier, make_accessor, plan_layout, Access, FieldDescriptor, PackedBuffer,
};

fn field(name: &str, bits: usize) -> FieldDescriptor {
    FieldDescriptor { name: name.to_string(), specifier: define_specifier(bits), declared_bits: None }
}

#[test]
fn two_fields_in_one_byte_do_not_interfere() {
    // Widths [3, 5], total 8 bits, one byte: field 0 at offset 0, field 1 at
    // offset 3, neither crossing.
    let plan = plan_layout(vec![field("a", 3), field("b", 5)]).unwrap();
    assert_eq!(plan.total_bits, 8);
    let a0 = make_accessor(&plan, 0);
    let a1 = make_accessor(&plan, 1);
    assert_eq!(a0.offset, 0);
    assert_eq!(a1.offset, 3);
    assert!(!a0.crosses());
    assert!(!a1.crosses());

    let mut buf = PackedBuffer::new(&plan);
    buf.set_field(&a0, 0b101);
    // Setting field 1 to its maximum must not alter field 0's bits.
    buf.set_field(&a1, 0b11111);
    assert_eq!(buf.get_field(&a0), 0b101);
    assert_eq!(buf.get_field(&a1), 0b11111);
    assert_eq!(buf.byte_at(0), 0b101 | (0b11111 << 3));
}

#[test]
fn crossing_field_is_flagged_and_preserves_neighbours() {
    // Widths [6, 6, 4], total 16 bits: field 1 spans bits 6..12, crossing
    // the byte boundary with a u8 storage unit.
    let plan = plan_layout(vec![field("a", 6), field("b", 6), field("c", 4)]).unwrap();
    assert_eq!(plan.total_bits, 16);
    let a0 = make_accessor(&plan, 0);
    let a1 = make_accessor(&plan, 1);
    let a2 = make_accessor(&plan, 2);
    assert_eq!(a1.offset, 6);
    assert_eq!(a1.raw_width, 8);
    assert!(!a0.crosses());
    assert!(a1.crosses());
    assert!(!a2.crosses());

    let mut buf = PackedBuffer::new(&plan);
    buf.set_field(&a0, 0b100101);
    buf.set_field(&a2, 0b1001);
    // Setting field 1 to its maximum leaves fields 0 and 2 untouched.
    buf.set_field(&a1, 0b111111);
    assert_eq!(buf.get_field(&a0), 0b100101);
    assert_eq!(buf.get_field(&a1), 0b111111);
    assert_eq!(buf.get_field(&a2), 0b1001);
    // Byte-exact layout: bits 0..6 of byte 0 hold field 0, bits 6..8 the low
    // two bits of field 1; bits 0..4 of byte 1 its high four bits, bits 4..8
    // field 2.
    assert_eq!(buf.byte_at(0), 0b100101 | (0b11 << 6));
    assert_eq!(buf.byte_at(1), 0b1111 | (0b1001 << 4));
}

#[test]
fn crossing_derivation_matches_the_documented_formulas() {
    // A 16-bit-unit field at offset 4 in a 24-bit structure occupies bytes
    // 0..=2, one more than the two-byte unit.
    let plan = plan_layout(vec![field("a", 4), field("b", 16), field("c", 4)]).unwrap();
    let a1 = make_accessor(&plan, 1);
    assert_eq!(a1.raw_width, 16);
    assert_eq!(a1.byte_begin(), 0);
    assert_eq!(a1.byte_end(), 2);
    assert!(a1.crosses());
    assert_eq!(a1.intra_offset(), 4);
    assert_eq!(a1.overflow_bits(), 4);
    assert_eq!(a1.low_mask(), 0xFFF0);
    assert_eq!(a1.high_mask(), 0x0F);

    let mut buf = PackedBuffer::new(&plan);
    buf.set_field(&a1, 0xABCD);
    assert_eq!(buf.get_field(&a1), 0xABCD);
    assert_eq!(buf.byte_at(0), 0xD0);
    assert_eq!(buf.byte_at(1), 0xBC);
    assert_eq!(buf.byte_at(2), 0x0A);
}

#[test]
fn round_trip_over_every_width_and_edge_values() {
    // For a sample of widths, a field between two one-bit guards reads back
    // every written edge value, and the guards never move.
    for bits in [1usize, 2, 3, 7, 8, 9, 12, 15, 16, 17, 24, 31, 32, 33, 48, 63, 64] {
        let guard_bits = (8 - ((bits + 2) % 8)) % 8;
        let mut fields = vec![field("lo", 1), field("mid", bits), field("hi", 1)];
        if guard_bits > 0 {
            fields.push(field("pad", guard_bits));
        }
        let plan = plan_layout(fields).unwrap();
        let lo = make_accessor(&plan, 0);
        let mid = make_accessor(&plan, 1);
        let hi = make_accessor(&plan, 2);
        let max = if bits == 64 { u64::MAX } else { (1u64 << bits) - 1 };
        for v in [0u64, 1, max / 2, max.saturating_sub(1), max] {
            let mut buf = PackedBuffer::new(&plan);
            buf.set_field(&lo, 1);
            buf.set_field(&hi, 1);
            buf.set_field(&mid, v);
            assert_eq!(buf.get_field(&mid), v, "width {} value {}", bits, v);
            assert_eq!(buf.get_field(&lo), 1, "width {} low guard", bits);
            assert_eq!(buf.get_field(&hi), 1, "width {} high guard", bits);
            // Writing again with another value still round-trips.
            buf.set_field(&mid, max - v);
            assert_eq!(buf.get_field(&mid), max - v);
        }
    }
}

#[test]
fn field_near_the_end_uses_the_pulled_back_window() {
    // A 9-bit field at offset 7 of a 16-bit structure: the natural two-byte
    // window would run past the end, so the window is pulled back.
    let plan = plan_layout(vec![field("a", 7), field("b", 9)]).unwrap();
    let a1 = make_accessor(&plan, 1);
    assert_eq!(a1.raw_width, 16);
    assert_eq!(a1.byte_begin(), 0);
    assert_eq!(a1.byte_end(), 1);
    assert!(!a1.crosses());
    assert_eq!(a1.intra_offset(), 7);

    let mut buf = PackedBuffer::new(&plan);
    buf.set_field(&a0_of(&plan), 0b1010101);
    buf.set_field(&a1, 0x1FF);
    assert_eq!(buf.get_field(&a1), 0x1FF);
    assert_eq!(buf.get_field(&a0_of(&plan)), 0b1010101);
}

fn a0_of(plan: &bitfield::LayoutPlan) -> Access {
    make_accessor(plan, 0)
}

#[test]
fn pulled_back_window_can_still_cross() {
    // A 9-bit field at offset 15 of a 24-bit structure: the two-byte window
    // is pulled back to byte 0 and the field still spills into byte 2.
    let plan = plan_layout(vec![field("a", 8), field("b", 7), field("c", 9)]).unwrap();
    let a2 = make_accessor(&plan, 2);
    assert_eq!(a2.raw_width, 16);
    assert_eq!(a2.byte_begin(), 0);
    assert_eq!(a2.byte_end(), 2);
    assert!(a2.crosses());
    assert_eq!(a2.intra_offset(), 15);
    assert_eq!(a2.overflow_bits(), 8);

    let mut buf = PackedBuffer::new(&plan);
    buf.set_field(&a0_of(&plan), 0xA5);
    buf.set_field(&make_accessor(&plan, 1), 0b0110011);
    buf.set_field(&a2, 0x155);
    assert_eq!(buf.get_field(&a2), 0x155);
    assert_eq!(buf.get_field(&a0_of(&plan)), 0xA5);
    assert_eq!(buf.get_field(&make_accessor(&plan, 1)), 0b0110011);
    // Bit 15 of the buffer is the field's low bit; byte 2 holds the rest.
    assert_eq!(buf.byte_at(1), 0b0110011 | (1 << 7));
    assert_eq!(buf.byte_at(2), 0xAA);
}

#[test]
fn zero_initialized_buffer_reads_zero_everywhere() {
    let plan = plan_layout(vec![field("a", 6), field("b", 6), field("c", 4)]).unwrap();
    let buf = PackedBuffer::new(&plan);
    assert_eq!(buf.len(), 2);
    for i in 0..3 {
        assert_eq!(buf.get_field(&make_accessor(&plan, i)), 0);
    }
}

#[test]
fn well_formedness_check_accepts_planned_fields_and_rejects_junk() {
    let plan = plan_layout(vec![field("a", 6), field("b", 6), field("c", 4)]).unwrap();
    for i in 0..3 {
        assert!(make_accessor(&plan, i).is_well_formed());
    }
    // A hand-built placement with the wrong storage width is rejected.
    let bad = Access { bits: 12, offset: 0, total: 16, raw_width: 8 };
    assert!(!bad.is_well_formed());
    // A 15-bit field at offset 25 of a 40-bit structure pulls its window so
    // far back that the field leaves the window and its overflow byte: the
    // documented derivation does not cover it.
    let out = Access { bits: 15, offset: 25, total: 40, raw_width: 16 };
    assert!(!out.is_well_formed());
}
