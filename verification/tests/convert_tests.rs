use bitfield::{
    bool_specifier, bool_to_raw, define_specifier, derive_enum_specifier, get_value, plan_layout,
    raw_to_bool, set_value, BInto, EnumVariant, FieldDescriptor, PackedBuffer, Specifier, Value,
    ValueKind,
};

#[test]
fn boolean_conversion_is_exact() {
    assert_eq!(raw_to_bool(0), false);
    assert_eq!(raw_to_bool(1), true);
    assert_eq!(raw_to_bool(255), true);
    assert_eq!(bool_to_raw(false), 0);
    assert_eq!(bool_to_raw(true), 1);
}

#[test]
fn binto_converts_bytes_and_booleans() {
    let f: bool = 0u8.binto();
    assert_eq!(f, false);
    let t: bool = 1u8.binto();
    assert_eq!(t, true);
    let t2: bool = 42u8.binto();
    assert_eq!(t2, true);
    let z: u8 = false.binto();
    assert_eq!(z, 0);
    let o: u8 = true.binto();
    assert_eq!(o, 1);
    // The identity conversion hands the value through.
    let same: u16 = 513u16.binto();
    assert_eq!(same, 513);
}

fn spec_field(name: &str, specifier: Specifier) -> FieldDescriptor {
    FieldDescriptor { name: name.to_string(), specifier, declared_bits: None }
}

#[test]
fn logical_values_travel_through_a_packed_structure() {
    // A structure of a 3-bit integer, a boolean, and a four-variant enum,
    // padded to one byte.
    let desc = derive_enum_specifier(vec![
        EnumVariant { name: "North".to_string(), discriminant: 0 },
        EnumVariant { name: "East".to_string(), discriminant: 1 },
        EnumVariant { name: "South".to_string(), discriminant: 2 },
        EnumVariant { name: "West".to_string(), discriminant: 3 },
    ])
    .unwrap();
    let enum_spec =
        Specifier { bits: desc.bits, raw_width: desc.raw_width, kind: ValueKind::Enumeration };
    let plan = plan_layout(vec![
        spec_field("count", define_specifier(3)),
        spec_field("flag", bool_specifier()),
        spec_field("dir", enum_spec),
        spec_field("pad", define_specifier(2)),
    ])
    .unwrap();
    assert_eq!(plan.total_bits, 8);

    let mut buf = PackedBuffer::new(&plan);
    set_value(&plan, 0, None, &mut buf, Value::Uint(5));
    set_value(&plan, 1, None, &mut buf, Value::Bool(true));
    set_value(&plan, 2, Some(&desc), &mut buf, Value::Variant(2));
    assert_eq!(get_value(&plan, 0, None, &buf), Value::Uint(5));
    assert_eq!(get_value(&plan, 1, None, &buf), Value::Bool(true));
    assert_eq!(get_value(&plan, 2, Some(&desc), &buf), Value::Variant(2));

    // Overwriting one field leaves the others' logical values unchanged.
    set_value(&plan, 1, None, &mut buf, Value::Bool(false));
    assert_eq!(get_value(&plan, 0, None, &buf), Value::Uint(5));
    assert_eq!(get_value(&plan, 1, None, &buf), Value::Bool(false));
    assert_eq!(get_value(&plan, 2, Some(&desc), &buf), Value::Variant(2));

    // The byte is exactly the packed little-endian image.
    assert_eq!(buf.byte_at(0), 5 | (0 << 3) | (2 << 4));
}
