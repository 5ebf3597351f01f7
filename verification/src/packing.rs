//! The mathematical model of a packed byte buffer.
//!
//! A buffer is a sequence of bytes; bit `i` of the buffer is bit `i % 8` of
//! byte `i / 8`, so a field of `bits` bits at bit offset `offset` occupies
//! buffer bits `offset .. offset + bits`, least significant first. The spec
//! functions here give every contract its vocabulary: `buf_bit` for a single
//! bit, `field_val` for the value a field holds, and `sets_field` for the
//! effect of a masked write.

use vstd::prelude::*;

verus! {

use vstd::arithmetic::power2::{pow2, lemma_pow2_unfold, lemma_pow2_pos, lemma2_to64_rest};
use vstd::arithmetic::div_mod::{lemma_small_mod, lemma_mod_bound, lemma_fundamental_div_mod_converse};
use vstd::bits::{low_bits_mask, lemma_u64_low_bits_mask_is_mod, lemma_u64_shl_is_mul, lemma_u64_pow2_no_overflow};

/// Bit `k` of a 64-bit word (false for `k >= 64`).
pub open spec fn u64_bit(w: u64, k: u64) -> bool {
    k < 64 && ((w >> k) & 1) == 1
}

/// A 64-bit mask whose low `b` bits are ones.
pub open spec fn mask64(b: u64) -> u64 {
    if b >= 64 {
        u64::MAX
    } else {
        ((1u64 << b) - 1) as u64
    }
}

/// Bit `i` of a byte buffer: bit `i % 8` of byte `i / 8` (false past the end).
pub open spec fn buf_bit(data: Seq<u8>, i: int) -> bool {
    0 <= i && i < 8 * data.len() && u64_bit(data[i / 8] as u64, (i % 8) as u64)
}

/// The value held by the `bits` buffer bits starting at `offset`,
/// least significant bit first.
pub open spec fn field_val(data: Seq<u8>, offset: int, bits: int) -> nat
    decreases bits,
{
    if bits <= 0 {
        0
    } else {
        (if buf_bit(data, offset) {
            1nat
        } else {
            0nat
        }) + 2 * field_val(data, offset + 1, bits - 1)
    }
}

/// `post` is `pre` with the field at `offset`/`bits` overwritten by the low
/// `bits` bits of `x` and every other bit untouched.
pub open spec fn sets_field(pre: Seq<u8>, post: Seq<u8>, offset: int, bits: int, x: u64) -> bool {
    &&& post.len() == pre.len()
    &&& forall|i: int|
        offset <= i < offset + bits ==> (#[trigger] buf_bit(post, i) == u64_bit(
            x,
            (i - offset) as u64,
        ))
    &&& forall|i: int|
        i < offset || offset + bits <= i ==> (#[trigger] buf_bit(post, i) == buf_bit(pre, i))
}

/// Bits of a bitwise or.
pub proof fn lemma_bit_or(a: u64, b: u64, k: u64)
    requires
        k < 64,
    ensures
        u64_bit(a | b, k) == (u64_bit(a, k) || u64_bit(b, k)),
{
    assert((((a | b) >> k) & 1 == 1) == (((a >> k) & 1 == 1) || ((b >> k) & 1 == 1)))
        by (bit_vector)
        requires
            k < 64,
    ;
}

/// Bits of a bitwise and.
pub proof fn lemma_bit_and(a: u64, b: u64, k: u64)
    requires
        k < 64,
    ensures
        u64_bit(a & b, k) == (u64_bit(a, k) && u64_bit(b, k)),
{
    assert((((a & b) >> k) & 1 == 1) == (((a >> k) & 1 == 1) && ((b >> k) & 1 == 1)))
        by (bit_vector)
        requires
            k < 64,
    ;
}

/// Bits of a left shift: bit `k` of `a << s` is bit `k - s` of `a`.
pub proof fn lemma_bit_shl(a: u64, s: u64, k: u64)
    requires
        s < 64,
        k < 64,
    ensures
        u64_bit(a << s, k) == (s <= k && u64_bit(a, ((k - s) as u64))),
{
    assert((((a << s) >> k) & 1 == 1) == (s <= k && ((a >> ((k - s) as u64)) & 1 == 1))) by (bit_vector)
        requires
            s < 64 && k < 64,
    ;
}

/// Bits of a right shift: bit `k` of `a >> s` is bit `k + s` of `a`.
pub proof fn lemma_bit_shr(a: u64, s: u64, k: u64)
    requires
        s < 64,
        k < 64,
    ensures
        ((k + s) as u64) < 64 ==> u64_bit(a >> s, k) == u64_bit(a, ((k + s) as u64)),
        ((k + s) as u64) >= 64 ==> !u64_bit(a >> s, k),
{
    assert((((k + s) as u64) < 64 ==> ((((a >> s) >> k) & 1 == 1) == ((a >> ((k + s) as u64)) & 1 == 1)))
        && (((k + s) as u64) >= 64 ==> ((a >> s) >> k) & 1 == 0)) by (bit_vector)
        requires
            s < 64 && k < 64,
    ;
}

/// Bits of the low-ones mask: bit `k` of `mask64(b)` holds exactly below `b`.
pub proof fn lemma_bit_mask64(b: u64, k: u64)
    requires
        k < 64,
    ensures
        u64_bit(mask64(b), k) == (k < b),
{
    if b >= 64 {
        assert(((u64::MAX >> k) & 1 == 1)) by (bit_vector)
            requires
                k < 64,
        ;
    } else {
        assert(((((1u64 << b) - 1) as u64 >> k) & 1 == 1) == (k < b)) by (bit_vector)
            requires
                k < 64 && b < 64,
        ;
    }
}

/// Truncation to a byte keeps the low eight bits and clears the rest.
pub proof fn lemma_bit_cast_u8(w: u64, k: u64)
    requires
        k < 64,
    ensures
        k < 8 ==> u64_bit((w as u8) as u64, k) == u64_bit(w, k),
        k >= 8 ==> !u64_bit((w as u8) as u64, k),
{
    assert((k < 8 ==> ((((w as u8) as u64) >> k) & 1 == 1) == ((w >> k) & 1 == 1)) && (k >= 8
        ==> (((w as u8) as u64) >> k) & 1 == 0)) by (bit_vector)
        requires
            k < 64,
    ;
}

/// The zero word has no bits set.
pub proof fn lemma_zero_bit(k: u64)
    requires
        k < 64,
    ensures
        !u64_bit(0u64, k),
{
    assert((0u64 >> k) & 1 == 0) by (bit_vector);
}

/// One step of assembling a little-endian window: oring a byte shifted to
/// position `s` sets exactly that byte's eight bits and keeps the rest.
pub proof fn lemma_read_step(w: u64, b: u64, s: u64, k: u64)
    requires
        b < 256,
        s <= 56,
        k < 64,
    ensures
        u64_bit(w | (b << s), k) == (u64_bit(w, k) || (s <= k && k < s + 8 && u64_bit(
            b,
            ((k - s) as u64),
        ))),
{
    assert((((w | (b << s)) >> k) & 1 == 1) == ((((w >> k) & 1) == 1) || (s <= k && k < s + 8 && ((
    b >> ((k - s) as u64)) & 1) == 1))) by (bit_vector)
        requires
            b < 256 && s <= 56 && k < 64,
    ;
}

/// The executable low-ones mask.
pub fn ones_mask(b: u64) -> (r: u64)
    requires
        b <= 64,
    ensures
        r == mask64(b),
{
    if b >= 64 {
        u64::MAX
    } else {
        proof {
            assert(b < 64 ==> (1u64 << b) >= 1) by (bit_vector);
        }
        (1u64 << b) - 1
    }
}

/// The mask agrees with the arithmetic power: `mask64(b) == pow2(b) - 1`.
pub proof fn lemma_mask64_value(b: u64)
    requires
        b <= 64,
    ensures
        mask64(b) as nat == pow2(b as nat) - 1,
{
    if b == 64 {
        lemma2_to64_rest();
    } else {
        lemma_u64_pow2_no_overflow(b as nat);
        lemma_u64_shl_is_mul(1u64, b);
    }
}

/// A word is unchanged by the `b`-bit mask exactly when it is below `pow2(b)`.
pub proof fn lemma_mask64_keeps_iff_fits(x: u64, b: u64)
    requires
        b <= 64,
    ensures
        (x & mask64(b)) == x <==> (x as nat) < pow2(b as nat),
{
    lemma_mask64_value(b);
    if b == 64 {
        assert(x & 0xffff_ffff_ffff_ffffu64 == x) by (bit_vector);
    } else {
        lemma_u64_low_bits_mask_is_mod(x, b as nat);
        lemma_u64_pow2_no_overflow(b as nat);
        let p = pow2(b as nat);
        assert(mask64(b) == low_bits_mask(b as nat) as u64);
        assert(x & mask64(b) == x % (p as u64));
        if (x as nat) < p {
            lemma_small_mod(x as nat, p);
            assert(x % (p as u64) == x);
        } else {
            lemma_mod_bound(x as int, p as int);
            assert(x % (p as u64) < p);
        }
    }
}

/// A field's value depends only on the bits the field occupies.
pub proof fn lemma_field_val_congruence(d1: Seq<u8>, d2: Seq<u8>, offset: int, bits: int)
    requires
        forall|i: int| offset <= i < offset + bits ==> #[trigger] buf_bit(d1, i) == buf_bit(d2, i),
    ensures
        field_val(d1, offset, bits) == field_val(d2, offset, bits),
    decreases bits,
{
    if bits > 0 {
        assert(buf_bit(d1, offset) == buf_bit(d2, offset));
        lemma_field_val_congruence(d1, d2, offset + 1, bits - 1);
    }
}

/// A field's value is below `pow2` of its width.
pub proof fn lemma_field_val_bound(data: Seq<u8>, offset: int, bits: int)
    requires
        bits >= 0,
    ensures
        field_val(data, offset, bits) < pow2(bits as nat),
    decreases bits,
{
    if bits == 0 {
        assert(pow2(0) == 1) by {
            vstd::arithmetic::power2::lemma2_to64();
        }
    } else {
        lemma_field_val_bound(data, offset + 1, bits - 1);
        lemma_pow2_unfold(bits as nat);
    }
}

/// A word whose low `bits` bits match the field, masked to that width,
/// equals the field's value.
pub proof fn lemma_field_val_of_word(data: Seq<u8>, offset: int, bits: u64, r: u64)
    requires
        bits <= 64,
        forall|k: u64| k < bits ==> (#[trigger] u64_bit(r, k)) == buf_bit(data, offset + k),
    ensures
        (r & mask64(bits)) as nat == field_val(data, offset, bits as int),
    decreases bits,
{
    if bits == 0 {
        assert(r & mask64(0) == 0) by (bit_vector);
    } else {
        let r1 = r >> 1u64;
        assert forall|k: u64| k < bits - 1 implies (#[trigger] u64_bit(r1, k)) == buf_bit(
            data,
            offset + 1 + k,
        ) by {
            lemma_bit_shr(r, 1, k);
            assert(u64_bit(r, ((k + 1) as u64)) == buf_bit(data, offset + ((k + 1) as u64)));
        }
        lemma_field_val_of_word(data, offset + 1, (bits - 1) as u64, r1);
        assert((r & mask64(bits)) == (if u64_bit(r, 0) {
            1u64
        } else {
            0u64
        }) + ((r >> 1u64) & mask64(((bits - 1) as u64))) * 2) by (bit_vector)
            requires
                1 <= bits <= 64,
        ;
        assert(u64_bit(r, 0) == buf_bit(data, offset));
    }
}

/// Writing a field puts exactly the written value in it: after a write
/// of `x` (representable in the field's width), the field reads back as `x`.
pub proof fn lemma_set_round_trip(pre: Seq<u8>, post: Seq<u8>, offset: int, bits: u64, x: u64)
    requires
        bits <= 64,
        sets_field(pre, post, offset, bits as int, x),
        (x as nat) < pow2(bits as nat),
    ensures
        field_val(post, offset, bits as int) == x,
{
    assert forall|k: u64| k < bits implies (#[trigger] u64_bit(x, k)) == buf_bit(
        post,
        offset + k,
    ) by {
        assert(buf_bit(post, offset + k) == u64_bit(x, ((offset + k - offset) as u64)));
    }
    lemma_field_val_of_word(post, offset, bits, x);
    lemma_mask64_keeps_iff_fits(x, bits);
}

/// Writing one field leaves the value of every disjoint field unchanged.
pub proof fn lemma_set_non_interference(
    pre: Seq<u8>,
    post: Seq<u8>,
    offset: int,
    bits: int,
    x: u64,
    offset2: int,
    bits2: int,
)
    requires
        sets_field(pre, post, offset, bits, x),
        offset2 + bits2 <= offset || offset + bits <= offset2,
    ensures
        field_val(post, offset2, bits2) == field_val(pre, offset2, bits2),
{
    assert forall|i: int| offset2 <= i < offset2 + bits2 implies #[trigger] buf_bit(post, i)
        == buf_bit(pre, i) by {
        assert(i < offset || offset + bits <= i);
    }
    lemma_field_val_congruence(post, pre, offset2, bits2);
}

/// A buffer bit index splits into a byte index and an index within the byte.
pub proof fn lemma_bit_split(base: int, k: int)
    requires
        0 <= base,
        0 <= k,
    ensures
        (8 * base + k) / 8 == base + k / 8,
        (8 * base + k) % 8 == k % 8,
{
    vstd::arithmetic::div_mod::lemma_fundamental_div_mod(k, 8);
    lemma_fundamental_div_mod_converse(8 * base + k, 8, base + k / 8, k % 8);
}

/// A bit index below `8 * j` lies in a byte below `j`.
pub proof fn lemma_div8_below(k: int, j: int)
    requires
        0 <= k < 8 * j,
    ensures
        k / 8 < j,
{
    vstd::arithmetic::div_mod::lemma_div_is_ordered(k, 8 * j - 1, 8);
    lemma_fundamental_div_mod_converse(8 * j - 1, 8, j - 1, 7);
}

/// Bit positions within one byte of the buffer: byte and intra-byte index.
pub proof fn lemma_bit_position(idx: int, m: int)
    requires
        0 <= m < 8,
        0 <= idx,
    ensures
        (8 * idx + m) / 8 == idx,
        (8 * idx + m) % 8 == m,
{
    lemma_fundamental_div_mod_converse(8 * idx + m, 8, idx, m);
}

} // verus!
