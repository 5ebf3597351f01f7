//! The value conversion layer: the bidirectional, total mapping between a
//! field's raw storage value and its logical value. Plain integer fields use
//! the raw value unchanged; booleans map zero to false and anything else to
//! true; enumeration fields map a variant to its fixed discriminant, and a
//! raw value back to the first variant declared with it — a raw value outside
//! the declared set decodes, by documented policy, to the first declared
//! variant rather than failing.

use vstd::prelude::*;

verus! {

use crate::enumspec::{EnumSpecifierDescriptor, decode_index, has_discriminant, lemma_first_index_from};

/// A field's logical value: a plain unsigned integer, a boolean, or the
/// index of an enumeration variant in declaration order.
#[derive(Clone, Copy, PartialEq, Eq, Structural, Debug)]
pub enum Value {
    Uint(u64),
    Bool(bool),
    Variant(usize),
}

/// Conversion between a raw storage value and a logical value of type `T`.
/// The identity for the raw type itself, and the boolean mapping between
/// `u8` and `bool`.
pub trait BInto<T>: Sized {
    /// What the conversion returns.
    spec fn binto_spec(self) -> T;

    /// Converts the value.
    fn binto(self) -> (r: T)
        ensures
            r == self.binto_spec(),
    ;
}

impl<T> BInto<T> for T {
    open spec fn binto_spec(self) -> T {
        self
    }

    fn binto(self) -> (r: T) {
        self
    }
}

impl BInto<bool> for u8 {
    open spec fn binto_spec(self) -> bool {
        self != 0
    }

    fn binto(self) -> (r: bool) {
        match self {
            0 => false,
            _ => true,
        }
    }
}

impl BInto<u8> for bool {
    open spec fn binto_spec(self) -> u8 {
        if self {
            1
        } else {
            0
        }
    }

    fn binto(self) -> (r: u8) {
        match self {
            false => 0,
            true => 1,
        }
    }
}

/// A raw storage value read as a boolean: zero is false, anything else true.
pub fn raw_to_bool(raw: u64) -> (r: bool)
    ensures
        r == (raw != 0),
{
    raw != 0
}

/// A boolean written as a raw storage value: false is zero, true is one.
pub fn bool_to_raw(v: bool) -> (r: u64)
    ensures
        r == (if v {
            1u64
        } else {
            0u64
        }),
{
    if v {
        1
    } else {
        0
    }
}

/// The raw storage value of an enumeration variant: its fixed discriminant.
pub fn enum_to_raw(desc: &EnumSpecifierDescriptor, index: usize) -> (r: u64)
    requires
        desc.wf(),
        index < desc.variants@.len(),
    ensures
        r == desc.variants@[index as int].discriminant,
        r < desc.variants@.len(),
{
    desc.variants[index].discriminant as u64
}

/// The variant a raw storage value decodes to: the first variant declared
/// with that discriminant when one exists, and otherwise — for a raw value
/// outside the declared set — the first declared variant, index zero, as the
/// documented fallback.
pub fn enum_to_logical(desc: &EnumSpecifierDescriptor, raw: u64) -> (index: usize)
    requires
        desc.wf(),
    ensures
        index < desc.variants@.len(),
        has_discriminant(desc.variants@, raw as int) ==> {
            &&& desc.variants@[index as int].discriminant == raw
            &&& forall|j: int|
                0 <= j < index ==> (#[trigger] desc.variants@[j].discriminant) != raw
        },
        !has_discriminant(desc.variants@, raw as int) ==> index == 0,
        index == spec_enum_decode(desc.variants@, raw as int),
{
    proof {
        lemma_first_index_from(desc.variants@, raw as int, 0);
    }
    if raw < desc.decode.len() as u64 {
        desc.decode[raw as usize]
    } else {
        0
    }
}

/// The variant index a raw value decodes to: the first declared match, or
/// the fallback index zero for a value outside the declared set.
pub open spec fn spec_enum_decode(vars: Seq<crate::enumspec::EnumVariant>, raw: int) -> int {
    if has_discriminant(vars, raw) {
        decode_index(vars, raw)
    } else {
        0
    }
}

} // verus!
