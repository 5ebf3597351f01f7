//! The layout planner: from an ordered field list to a frozen layout plan.
//!
//! Each field's bit offset is the sum of the widths of the fields before it,
//! and the structure's total bit size is the sum of all widths. The plan is
//! validated — declared widths must match their specifiers and the total must
//! be byte-aligned — before any packed buffer can be created for it.

use vstd::prelude::*;

verus! {

use crate::specifier::{Specifier, specifier_wf};
use crate::codec::Access;

/// A structural error found while planning a layout. Such an error is
/// reported before the structure type becomes usable; the schema must be
/// corrected, not retried.
#[derive(Clone, Copy, PartialEq, Eq, Structural, Debug)]
pub enum LayoutError {
    /// The widths of all fields do not add up to a whole number of bytes.
    TotalSizeNotByteAligned,
    /// A field carries an explicit width annotation that differs from its
    /// specifier's width.
    FieldWidthMismatch,
}

/// One field of a structure schema: a name, the field type's specifier, and
/// an optional explicit width annotation asserting the expected width.
#[derive(Debug)]
pub struct FieldDescriptor {
    pub name: String,
    pub specifier: Specifier,
    pub declared_bits: Option<usize>,
}

impl FieldDescriptor {
    /// The descriptor's explicit width annotation, if present, names the
    /// specifier's width.
    pub open spec fn width_matches(self) -> bool {
        match self.declared_bits {
            Some(d) => d == self.specifier.bits,
            None => true,
        }
    }
}

/// The sum of the widths of the first `i` fields: field `i`'s bit offset.
pub open spec fn prefix_bits(fields: Seq<FieldDescriptor>, i: int) -> int
    decreases i,
{
    if i <= 0 {
        0
    } else {
        prefix_bits(fields, i - 1) + fields[i - 1].specifier.bits
    }
}

/// Prefix sums of field widths only grow.
pub proof fn lemma_prefix_bits_monotonic(fields: Seq<FieldDescriptor>, i: int, j: int)
    requires
        0 <= i <= j <= fields.len(),
    ensures
        prefix_bits(fields, i) <= prefix_bits(fields, j),
    decreases j - i,
{
    if i < j {
        lemma_prefix_bits_monotonic(fields, i, j - 1);
    }
}

/// The frozen mapping from field to bit offset for one structure type:
/// the fields in declaration order, each field's bit offset, and the total
/// bit size. Built once per structure type and read-only thereafter.
#[derive(Debug)]
pub struct LayoutPlan {
    pub fields: Vec<FieldDescriptor>,
    pub offsets: Vec<usize>,
    pub total_bits: usize,
}

impl LayoutPlan {
    /// A valid plan: one offset per field, each offset the prefix sum of the
    /// widths before it, the total the sum of all widths and byte-aligned,
    /// and every specifier well formed with its width annotation honoured.
    pub open spec fn wf(self) -> bool {
        &&& self.offsets@.len() == self.fields@.len()
        &&& forall|i: int|
            0 <= i < self.fields@.len() ==> (#[trigger] self.offsets@[i]) == prefix_bits(
                self.fields@,
                i,
            )
        &&& self.total_bits == prefix_bits(self.fields@, self.fields@.len() as int)
        &&& self.total_bits % 8 == 0
        &&& forall|i: int|
            0 <= i < self.fields@.len() ==> specifier_wf(#[trigger] self.fields@[i].specifier)
        &&& forall|i: int|
            0 <= i < self.fields@.len() ==> (#[trigger] self.fields@[i]).width_matches()
    }

    /// The accessor parameters of field `i` under this plan.
    pub open spec fn spec_accessor(self, i: int) -> Access {
        Access {
            bits: self.fields@[i].specifier.bits,
            offset: self.offsets@[i],
            total: self.total_bits,
            raw_width: self.fields@[i].specifier.raw_width,
        }
    }

    /// The number of fields.
    pub fn len(&self) -> (n: usize)
        ensures
            n == self.fields@.len(),
    {
        self.fields.len()
    }
}

/// Plans a layout: accumulates each field's offset and the total bit size in
/// declaration order, and validates the result. Fails with
/// `FieldWidthMismatch` when some field's explicit annotation differs from
/// its specifier's width, and otherwise with `TotalSizeNotByteAligned` when
/// the total is not a whole number of bytes. No buffer can be allocated for
/// a schema until this validation has fully succeeded.
pub fn plan_layout(fields: Vec<FieldDescriptor>) -> (r: Result<LayoutPlan, LayoutError>)
    requires
        forall|i: int|
            0 <= i < fields@.len() ==> specifier_wf(#[trigger] fields@[i].specifier),
        prefix_bits(fields@, fields@.len() as int) <= usize::MAX,
    ensures
        r matches Ok(p) ==> p.wf() && p.fields@ == fields@ && p.total_bits == prefix_bits(
            fields@,
            fields@.len() as int,
        ),
        r matches Ok(_) <==> (forall|i: int|
            0 <= i < fields@.len() ==> (#[trigger] fields@[i]).width_matches()) && prefix_bits(
            fields@,
            fields@.len() as int,
        ) % 8 == 0,
        r matches Err(e) && e == LayoutError::FieldWidthMismatch <==> exists|i: int|
            0 <= i < fields@.len() && !(#[trigger] fields@[i]).width_matches(),
        r matches Err(e) && e == LayoutError::TotalSizeNotByteAligned <==> (forall|i: int|
            0 <= i < fields@.len() ==> (#[trigger] fields@[i]).width_matches()) && prefix_bits(
            fields@,
            fields@.len() as int,
        ) % 8 != 0,
{
    let n = fields.len();
    let mut offsets: Vec<usize> = Vec::new();
    let mut total: usize = 0;
    let mut i: usize = 0;
    while i < n
        invariant
            i <= n,
            n == fields@.len(),
            offsets@.len() == i,
            total == prefix_bits(fields@, i as int),
            prefix_bits(fields@, n as int) <= usize::MAX,
            forall|j: int| 0 <= j < i ==> (#[trigger] offsets@[j]) == prefix_bits(fields@, j),
            forall|j: int| 0 <= j < i ==> (#[trigger] fields@[j]).width_matches(),
            forall|j: int|
                0 <= j < fields@.len() ==> specifier_wf(#[trigger] fields@[j].specifier),
        decreases n - i,
    {
        match fields[i].declared_bits {
            Some(d) => {
                if d != fields[i].specifier.bits {
                    return Err(LayoutError::FieldWidthMismatch);
                }
            },
            None => {},
        }
        offsets.push(total);
        proof {
            lemma_prefix_bits_monotonic(fields@, i + 1, n as int);
        }
        total = total + fields[i].specifier.bits;
        i += 1;
    }
    if total % 8 != 0 {
        return Err(LayoutError::TotalSizeNotByteAligned);
    }
    Ok(LayoutPlan { fields, offsets, total_bits: total })
}

/// Builds the accessor for field `index` of a validated plan: the field's
/// width and raw storage width from its specifier, its planned bit offset,
/// and the structure's total bit size.
pub fn make_accessor(plan: &LayoutPlan, index: usize) -> (a: Access)
    requires
        plan.wf(),
        index < plan.fields@.len(),
    ensures
        a == plan.spec_accessor(index as int),
        a.offset + a.bits <= a.total,
        a.total % 8 == 0,
        a.raw_width == crate::specifier::spec_narrowest_raw_width(a.bits as int),
        1 <= a.bits <= 64,
{
    proof {
        lemma_prefix_bits_monotonic(plan.fields@, index as int + 1, plan.fields@.len() as int);
    }
    Access {
        bits: plan.fields[index].specifier.bits,
        offset: plan.offsets[index],
        total: plan.total_bits,
        raw_width: plan.fields[index].specifier.raw_width,
    }
}

} // verus!
