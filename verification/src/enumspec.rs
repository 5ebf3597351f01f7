//! The enum specifier validator: derives an enumeration's bit width from its
//! variant count, which must be a power of two, checks every explicit
//! discriminant against the variant count, and builds the decode table that
//! maps a raw discriminant back to the first variant declared with it. This
//! validation runs once per enum type, before the type may be used as any
//! field's specifier.

use vstd::prelude::*;

verus! {

use vstd::arithmetic::power2::{pow2, is_pow2, is_pow2_equiv, lemma_pow2_unfold, lemma_pow2_adds, lemma2_to64_rest};
use vstd::arithmetic::mul::lemma_mul_inequality;
use crate::specifier::spec_narrowest_raw_width;

/// A structural error found while validating an enum specifier.
#[derive(Clone, Copy, PartialEq, Eq, Structural, Debug)]
pub enum ValidationError {
    /// The number of variants is not a power of two (zero included).
    VariantCountNotPowerOfTwo,
    /// Some variant's discriminant is not below the variant count.
    DiscriminantOutOfRange,
}

/// One variant of a closed enumeration: its name and its discriminant.
#[derive(Debug)]
pub struct EnumVariant {
    pub name: String,
    pub discriminant: usize,
}

/// The exact base-two logarithm. For a power of two `x` the result is the
/// `p` with `pow2(p) == x`; any other input (zero included) is an error.
pub fn perfect_log2(x: usize) -> (r: Result<u32, ()>)
    ensures
        r matches Ok(p) ==> p < 64 && x == pow2(p as nat),
        r matches Ok(_) <==> is_pow2(x as int),
{
    if x == 0 {
        proof {
            reveal(is_pow2);
        }
        return Err(());
    }
    let mut v = x;
    let mut p: u32 = 0;
    proof {
        vstd::arithmetic::power2::lemma2_to64();
    }
    while v % 2 == 0
        invariant
            1 <= v,
            p < 64,
            x == v * pow2(p as nat),
            is_pow2(x as int) == is_pow2(v as int),
        decreases v,
    {
        proof {
            reveal(is_pow2);
            lemma_pow2_unfold((p + 1) as nat);
            assert((v / 2) * (2 * pow2(p as nat)) == v * pow2(p as nat)) by (nonlinear_arith)
                requires
                    v % 2 == 0,
            ;
            lemma_mul_inequality(1, (v / 2) as int, pow2((p + 1) as nat) as int);
            // A power of two times a positive factor stays at or below x,
            // so the exponent stays well under the word size.
            if p + 1 >= 64 {
                lemma_pow2_adds(64, (p + 1 - 64) as nat);
                lemma2_to64_rest();
                lemma_mul_inequality(1, pow2((p + 1 - 64) as nat) as int, pow2(64) as int);
                assert(pow2((p + 1) as nat) == pow2(64) * pow2((p + 1 - 64) as nat));
                assert(false);
            }
        }
        v = v / 2;
        p = p + 1;
    }
    proof {
        reveal(is_pow2);
    }
    if v == 1 {
        proof {
            is_pow2_equiv(x as int);
            assert(pow2(p as nat) == x);
        }
        Ok(p)
    } else {
        Err(())
    }
}

/// The first index at or after `i` whose variant carries discriminant `d`,
/// or zero when none does.
pub open spec fn first_index_from(vars: Seq<EnumVariant>, d: int, i: int) -> int
    decreases vars.len() - i,
{
    if i < 0 || i >= vars.len() {
        0
    } else if vars[i].discriminant == d {
        i
    } else {
        first_index_from(vars, d, i + 1)
    }
}

/// The variant index a raw discriminant decodes to: the first variant
/// declared with that discriminant, or the first variant of all as the
/// fallback.
pub open spec fn decode_index(vars: Seq<EnumVariant>, d: int) -> int {
    first_index_from(vars, d, 0)
}

/// Whether some variant carries discriminant `d`.
pub open spec fn has_discriminant(vars: Seq<EnumVariant>, d: int) -> bool {
    exists|i: int| 0 <= i < vars.len() && (#[trigger] vars[i].discriminant) == d
}

/// What `first_index_from` finds: the least matching index at or after `i`
/// when one exists, and zero otherwise.
pub proof fn lemma_first_index_from(vars: Seq<EnumVariant>, d: int, i: int)
    requires
        0 <= i <= vars.len(),
    ensures
        (exists|j: int| i <= j < vars.len() && (#[trigger] vars[j].discriminant) == d) ==> {
            let r = first_index_from(vars, d, i);
            &&& i <= r < vars.len()
            &&& vars[r].discriminant == d
            &&& forall|j: int| i <= j < r ==> (#[trigger] vars[j].discriminant) != d
        },
        !(exists|j: int| i <= j < vars.len() && (#[trigger] vars[j].discriminant) == d)
            ==> first_index_from(vars, d, i) == 0,
    decreases vars.len() - i,
{
    if i < vars.len() {
        lemma_first_index_from(vars, d, i + 1);
    }
}

/// A validated enum specifier: the variants in declaration order, the bit
/// width derived from the variant count, the narrowest raw storage width for
/// it, and the decode table from raw discriminant to variant index. Built
/// once per enum type at its declaration and immutable thereafter.
#[derive(Debug)]
pub struct EnumSpecifierDescriptor {
    pub variants: Vec<EnumVariant>,
    pub bits: usize,
    pub raw_width: usize,
    pub decode: Vec<usize>,
}

impl EnumSpecifierDescriptor {
    /// A valid descriptor: a power-of-two variant count matching the bit
    /// width, every discriminant in range, the narrowest raw storage width,
    /// and a decode entry per possible raw value.
    pub open spec fn wf(self) -> bool {
        &&& 1 <= self.variants@.len()
        &&& self.bits < 64
        &&& pow2(self.bits as nat) == self.variants@.len()
        &&& self.raw_width == spec_narrowest_raw_width(self.bits as int)
        &&& forall|i: int|
            0 <= i < self.variants@.len() ==> (#[trigger] self.variants@[i].discriminant)
                < self.variants@.len()
        &&& self.decode@.len() == self.variants@.len()
        &&& forall|d: int|
            0 <= d < self.variants@.len() ==> (#[trigger] self.decode@[d]) == decode_index(
                self.variants@,
                d,
            )
    }

    /// The number of variants.
    pub fn len(&self) -> (n: usize)
        ensures
            n == self.variants@.len(),
    {
        self.variants.len()
    }
}

/// Validates an enumeration and derives its specifier: the bit width is the
/// exact base-two logarithm of the variant count (`VariantCountNotPowerOfTwo`
/// when none exists, a count of zero included), every discriminant must lie
/// below the count (`DiscriminantOutOfRange` otherwise), and the raw storage
/// width is the narrowest that fits, as in the specifier registry.
pub fn derive_enum_specifier(variants: Vec<EnumVariant>) -> (r: Result<
    EnumSpecifierDescriptor,
    ValidationError,
>)
    ensures
        r matches Ok(d) ==> d.wf() && d.variants@ == variants@ && pow2(d.bits as nat)
            == variants@.len(),
        r matches Ok(_) <==> is_pow2(variants@.len() as int) && (forall|i: int|
            0 <= i < variants@.len() ==> (#[trigger] variants@[i].discriminant)
                < variants@.len()),
        r matches Err(e) && e == ValidationError::VariantCountNotPowerOfTwo <==> !is_pow2(
            variants@.len() as int,
        ),
        r matches Err(e) && e == ValidationError::DiscriminantOutOfRange <==> is_pow2(
            variants@.len() as int,
        ) && (exists|i: int|
            0 <= i < variants@.len() && (#[trigger] variants@[i].discriminant)
                >= variants@.len()),
{
    let count = variants.len();
    let log_result = perfect_log2(count);
    let bits_log = match log_result {
        Ok(b) => b,
        Err(_) => {
            return Err(ValidationError::VariantCountNotPowerOfTwo);
        },
    };
    let bits = bits_log as usize;
    let mut i: usize = 0;
    while i < count
        invariant
            i <= count,
            count == variants@.len(),
            is_pow2(variants@.len() as int),
            variants@.len() == pow2(bits as nat),
            bits < 64,
            forall|j: int|
                0 <= j < i ==> (#[trigger] variants@[j].discriminant) < variants@.len(),
        decreases count - i,
    {
        if variants[i].discriminant >= count {
            proof {
                assert(variants@[i as int].discriminant >= variants@.len());
            }
            return Err(ValidationError::DiscriminantOutOfRange);
        }
        i += 1;
    }
    let raw_width = crate::specifier::narrowest_raw_width(bits);
    let mut decode: Vec<usize> = Vec::new();
    let mut d: usize = 0;
    while d < count
        invariant
            d <= count,
            count == variants@.len(),
            is_pow2(variants@.len() as int),
            variants@.len() == pow2(bits as nat),
            bits < 64,
            raw_width == spec_narrowest_raw_width(bits as int),
            forall|j: int|
                0 <= j < count ==> (#[trigger] variants@[j].discriminant) < variants@.len(),
            decode@.len() == d,
            forall|dd: int| 0 <= dd < d ==> (#[trigger] decode@[dd]) == 0,
        decreases count - d,
    {
        decode.push(0);
        d += 1;
    }
    let mut i = count;
    while i > 0
        invariant
            i <= count,
            count == variants@.len(),
            is_pow2(variants@.len() as int),
            variants@.len() == pow2(bits as nat),
            bits < 64,
            raw_width == spec_narrowest_raw_width(bits as int),
            decode@.len() == count,
            forall|j: int|
                0 <= j < count ==> (#[trigger] variants@[j].discriminant) < variants@.len(),
            forall|dd: int|
                0 <= dd < count ==> (#[trigger] decode@[dd]) == first_index_from(
                    variants@,
                    dd,
                    i as int,
                ),
        decreases i,
    {
        i -= 1;
        let dv = variants[i].discriminant;
        decode[dv] = i;
        proof {
            assert forall|dd: int| 0 <= dd < count implies (#[trigger] decode@[dd])
                == first_index_from(variants@, dd, i as int) by {
                if dd == dv {
                    assert(decode@[dd] == i);
                } else {
                    assert(first_index_from(variants@, dd, i as int) == first_index_from(
                        variants@,
                        dd,
                        i + 1,
                    ));
                }
            }
        }
    }
    proof {
        vstd::arithmetic::power2::lemma_pow2_pos(bits as nat);
    }
    Ok(EnumSpecifierDescriptor { variants, bits, raw_width, decode })
}

} // verus!
