//! The packed buffer: an owned, zero-initialized byte array of exactly
//! `total_bits / 8` bytes, exclusively owned by one structure instance and
//! mutated only through the accessor codec. The value-level operations here
//! wrap the codec's raw words in the value conversion layer.

use vstd::prelude::*;

verus! {

use vstd::arithmetic::power2::pow2;
use crate::codec::Access;
use crate::layout::{LayoutPlan, make_accessor};
use crate::packing::{field_val, sets_field};
use crate::convert::{Value, spec_enum_decode, raw_to_bool, bool_to_raw, enum_to_raw, enum_to_logical};
use crate::enumspec::EnumSpecifierDescriptor;
use crate::specifier::ValueKind;

/// The byte storage of one structure instance.
pub struct PackedBuffer {
    data: Vec<u8>,
}

impl View for PackedBuffer {
    type V = Seq<u8>;

    closed spec fn view(&self) -> Seq<u8> {
        self.data@
    }
}

/// The raw storage value a well-typed logical value is written as.
pub open spec fn spec_value_to_raw(v: Value, vars: Seq<crate::enumspec::EnumVariant>) -> u64 {
    match v {
        Value::Uint(x) => x,
        Value::Bool(b) => if b {
            1u64
        } else {
            0u64
        },
        Value::Variant(i) => vars[i as int].discriminant as u64,
    }
}

impl PackedBuffer {
    /// Allocates the zero-initialized buffer for a validated plan.
    pub fn new(plan: &LayoutPlan) -> (b: PackedBuffer)
        requires
            plan.wf(),
        ensures
            8 * b@.len() == plan.total_bits,
            forall|i: int| 0 <= i < b@.len() ==> b@[i] == 0,
    {
        let n = plan.total_bits / 8;
        let mut data: Vec<u8> = Vec::new();
        let mut i: usize = 0;
        while i < n
            invariant
                i <= n,
                data@.len() == i,
                forall|j: int| 0 <= j < i ==> data@[j] == 0,
            decreases n - i,
        {
            data.push(0);
            i += 1;
        }
        PackedBuffer { data }
    }

    /// The buffer's length in bytes.
    pub fn len(&self) -> (n: usize)
        ensures
            n == self@.len(),
    {
        self.data.len()
    }

    /// One raw byte of the buffer.
    pub fn byte_at(&self, i: usize) -> (b: u8)
        requires
            i < self@.len(),
        ensures
            b == self@[i as int],
    {
        self.data[i]
    }

    /// Reads one field's raw value through its accessor.
    pub fn get_field(&self, a: &Access) -> (r: u64)
        requires
            a.wf(),
            8 * self@.len() == a.total,
        ensures
            r as nat == field_val(self@, a.offset as int, a.bits as int),
            (r as nat) < pow2(a.bits as nat),
    {
        a.get(&self.data)
    }

    /// Writes one field's raw value through its accessor: exactly that
    /// field's bits change.
    pub fn set_field(&mut self, a: &Access, x: u64)
        requires
            a.wf(),
            8 * old(self)@.len() == a.total,
            (x as nat) < pow2(a.bits as nat),
        ensures
            final(self)@.len() == old(self)@.len(),
            sets_field(old(self)@, final(self)@, a.offset as int, a.bits as int, x),
            field_val(final(self)@, a.offset as int, a.bits as int) == x,
    {
        a.set(&mut self.data, x)
    }
}

/// Reads field `index` as a logical value: the raw word is read through the
/// field's accessor and converted by the field type's rule — unchanged for
/// integers, nonzero-to-true for booleans, and the variant decode (with its
/// first-variant fallback) for enumerations.
pub fn get_value(
    plan: &LayoutPlan,
    index: usize,
    desc: Option<&EnumSpecifierDescriptor>,
    buf: &PackedBuffer,
) -> (r: Value)
    requires
        plan.wf(),
        index < plan.fields@.len(),
        plan.spec_accessor(index as int).wf(),
        8 * buf@.len() == plan.total_bits,
        plan.fields@[index as int].specifier.kind is Enumeration ==> (desc matches Some(d)
            && d.wf()),
    ensures
        ({
            let raw = field_val(
                buf@,
                plan.spec_accessor(index as int).offset as int,
                plan.spec_accessor(index as int).bits as int,
            );
            match plan.fields@[index as int].specifier.kind {
                ValueKind::Uint => r == Value::Uint(raw as u64),
                ValueKind::Boolean => r == Value::Bool(raw != 0),
                ValueKind::Enumeration => (desc matches Some(d) && r == Value::Variant(
                    spec_enum_decode(d.variants@, raw as int) as usize,
                )),
            }
        }),
{
    let a = make_accessor(plan, index);
    let raw = buf.get_field(&a);
    match plan.fields[index].specifier.kind {
        ValueKind::Uint => Value::Uint(raw),
        ValueKind::Boolean => Value::Bool(raw_to_bool(raw)),
        ValueKind::Enumeration => {
            match desc {
                Some(d) => Value::Variant(enum_to_logical(d, raw)),
                None => vstd::pervasive::unreached(),
            }
        },
    }
}

/// Writes field `index` from a logical value: the value is converted to its
/// raw word — unchanged for integers, zero or one for booleans, the fixed
/// discriminant for an enumeration variant — and written through the field's
/// accessor, changing exactly that field's bits.
pub fn set_value(
    plan: &LayoutPlan,
    index: usize,
    desc: Option<&EnumSpecifierDescriptor>,
    buf: &mut PackedBuffer,
    v: Value,
)
    requires
        plan.wf(),
        index < plan.fields@.len(),
        plan.spec_accessor(index as int).wf(),
        8 * old(buf)@.len() == plan.total_bits,
        match plan.fields@[index as int].specifier.kind {
            ValueKind::Uint => v matches Value::Uint(x) && (x as nat) < pow2(
                plan.fields@[index as int].specifier.bits as nat,
            ),
            ValueKind::Boolean => v is Bool,
            ValueKind::Enumeration => v matches Value::Variant(i) && (desc matches Some(d)
                && d.wf() && d.bits == plan.fields@[index as int].specifier.bits
                && i < d.variants@.len()),
        },
    ensures
        final(buf)@.len() == old(buf)@.len(),
        desc matches Some(d) ==> sets_field(
            old(buf)@,
            final(buf)@,
            plan.spec_accessor(index as int).offset as int,
            plan.spec_accessor(index as int).bits as int,
            spec_value_to_raw(v, d.variants@),
        ),
        desc is None ==> sets_field(
            old(buf)@,
            final(buf)@,
            plan.spec_accessor(index as int).offset as int,
            plan.spec_accessor(index as int).bits as int,
            spec_value_to_raw(v, Seq::empty()),
        ),
{
    let a = make_accessor(plan, index);
    let raw: u64 = match v {
        Value::Uint(x) => x,
        Value::Bool(b) => bool_to_raw(b),
        Value::Variant(i) => {
            match desc {
                Some(d) => enum_to_raw(d, i),
                None => vstd::pervasive::unreached(),
            }
        },
    };
    proof {
        vstd::arithmetic::power2::lemma2_to64();
        if a.bits > 1 {
            vstd::arithmetic::power2::lemma_pow2_strictly_increases(1, a.bits as nat);
        }
    }
    buf.set_field(&a, raw);
}

} // verus!
