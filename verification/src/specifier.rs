//! The specifier registry: for every usable field type — unsigned integers of
//! 1 to 64 bits, booleans, and closed enumerations — the pair of bit width and
//! raw storage width. The raw storage type is always the narrowest unsigned
//! integer type whose width is at least the field's bit width.

use vstd::prelude::*;

verus! {

/// The logical value domain of a field: a plain unsigned integer, a boolean,
/// or a closed enumeration (identified by a variant index into its
/// enum specifier descriptor).
#[derive(Clone, Copy, PartialEq, Eq, Structural, Debug)]
pub enum ValueKind {
    Uint,
    Boolean,
    Enumeration,
}

/// Metadata binding a logical field type to its bit width and raw storage
/// width (8, 16, 32 or 64: the width of u8, u16, u32 or u64). Immutable once
/// defined.
#[derive(Clone, Copy, PartialEq, Eq, Structural, Debug)]
pub struct Specifier {
    pub bits: usize,
    pub raw_width: usize,
    pub kind: ValueKind,
}

/// The width of the narrowest unsigned integer type that holds `bits` bits.
pub open spec fn spec_narrowest_raw_width(bits: int) -> int {
    if bits <= 8 {
        8
    } else if bits <= 16 {
        16
    } else if bits <= 32 {
        32
    } else {
        64
    }
}

/// A specifier is well formed when its width is in range and its raw storage
/// type is the narrowest one that fits.
pub open spec fn specifier_wf(s: Specifier) -> bool {
    &&& 1 <= s.bits <= 64
    &&& s.raw_width == spec_narrowest_raw_width(s.bits as int)
}

/// The narrowest raw storage width for a field of `bits` bits.
pub fn narrowest_raw_width(bits: usize) -> (r: usize)
    requires
        bits <= 64,
    ensures
        r == spec_narrowest_raw_width(bits as int),
{
    if bits <= 8 {
        8
    } else if bits <= 16 {
        16
    } else if bits <= 32 {
        32
    } else {
        64
    }
}

/// Defines the specifier for an unsigned integer field of `bits` bits,
/// 1 to 64.
pub fn define_specifier(bits: usize) -> (s: Specifier)
    requires
        1 <= bits <= 64,
    ensures
        s.bits == bits,
        s.kind == ValueKind::Uint,
        specifier_wf(s),
{
    Specifier { bits, raw_width: narrowest_raw_width(bits), kind: ValueKind::Uint }
}

/// The specifier for a boolean field: one bit, stored in a byte-wide unit.
pub fn bool_specifier() -> (s: Specifier)
    ensures
        s.bits == 1,
        s.raw_width == 8,
        s.kind == ValueKind::Boolean,
        specifier_wf(s),
{
    Specifier { bits: 1, raw_width: 8, kind: ValueKind::Boolean }
}

} // verus!
