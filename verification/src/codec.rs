//! The accessor codec: per-field masked reads and writes over a packed byte
//! buffer.
//!
//! An `Access` value carries the four parameters that determine one field's
//! placement — bit width, bit offset, the structure's total bit size, and the
//! raw storage-unit width (8, 16, 32 or 64 bits). From them it derives the
//! byte window, the intra-byte offset, the boundary-crossing flag and the
//! masks, and implements `get` and `set` over the buffer. A field whose
//! occupied bytes exceed one storage unit's worth ("crossing") is read and
//! written in two steps: a storage-unit-sized low window and a single
//! overflow byte.

use vstd::prelude::*;

verus! {

use vstd::arithmetic::power2::pow2;
use vstd::arithmetic::div_mod::{
    lemma_fundamental_div_mod,
    lemma_fundamental_div_mod_converse,
    lemma_div_is_ordered,
    lemma_div_is_ordered_by_denominator,
    lemma_div_multiples_vanish,
};
use crate::packing::{buf_bit, field_val, sets_field, mask64, u64_bit};
use crate::specifier::spec_narrowest_raw_width;

/// One field's placement parameters: bit width (1 to 64), bit offset within
/// the structure, the structure's total bit size, and the raw storage-unit
/// width in bits. Built once per field from a validated layout plan.
#[derive(Clone, Copy, PartialEq, Eq, Structural, Debug)]
pub struct Access {
    pub bits: usize,
    pub offset: usize,
    pub total: usize,
    pub raw_width: usize,
}

impl Access {
    /// The storage unit's width in bytes.
    pub open spec fn w_bytes(self) -> int {
        self.raw_width as int / 8
    }

    /// First byte of the read/write window: the byte of `offset` when the
    /// natural storage-unit window fits before the end of the buffer,
    /// otherwise the window is pulled back to `offset / raw_width`.
    pub open spec fn spec_byte_begin(self) -> int {
        if self.offset + self.raw_width <= self.total {
            self.offset as int / 8
        } else {
            self.offset as int / self.raw_width as int
        }
    }

    /// Last byte the field occupies.
    pub open spec fn spec_byte_end(self) -> int {
        (self.offset + self.bits - 1) / 8
    }

    /// Whether the field's occupied bytes exceed one storage unit's worth.
    pub open spec fn spec_crosses(self) -> bool {
        self.spec_byte_end() - self.spec_byte_begin() + 1 > self.w_bytes()
    }

    /// Bit position of the field's least significant bit within the window.
    pub open spec fn spec_intra(self) -> int {
        self.offset - 8 * self.spec_byte_begin()
    }

    /// When crossing: how many of the field's high bits live in the byte
    /// after the storage-unit window.
    pub open spec fn spec_overflow_bits(self) -> int {
        self.bits - (self.raw_width - self.spec_intra())
    }

    /// The `raw_width`-bit mask of `bits` ones shifted left by the
    /// intra-window offset.
    pub open spec fn spec_low_mask(self) -> u64 {
        (mask64(self.bits as u64) << (self.spec_intra() as u64)) & mask64(self.raw_width as u64)
    }

    /// When crossing: the byte mask of `overflow_bits` ones, unshifted.
    pub open spec fn spec_high_mask(self) -> u8 {
        mask64(self.spec_overflow_bits() as u64) as u8
    }

    /// Well-formed placement: width in range, narrowest raw storage unit,
    /// byte-aligned total, field inside the structure, and the occupied
    /// window exceeding the storage unit by at most the one overflow byte.
    pub open spec fn wf(self) -> bool {
        &&& 1 <= self.bits <= 64
        &&& self.raw_width == spec_narrowest_raw_width(self.bits as int)
        &&& self.total % 8 == 0
        &&& self.offset + self.bits <= self.total
        &&& self.spec_intra() + self.bits <= self.raw_width + 8
    }

    /// Arithmetic consequences of well-formedness that every accessor
    /// operation leans on.
    pub proof fn lemma_facts(self)
        requires
            self.wf(),
        ensures
            8 <= self.raw_width <= 64,
            self.raw_width == 8 * self.w_bytes(),
            1 <= self.w_bytes() <= 8,
            0 <= self.spec_intra() < self.raw_width,
            8 * self.spec_byte_begin() + self.spec_intra() == self.offset,
            0 <= self.spec_byte_begin() <= self.spec_byte_end(),
            8 * self.spec_byte_end() + 8 <= self.total,
            self.offset + self.bits <= 8 * (self.spec_byte_end() + 1),
            self.offset + self.bits > 8 * self.spec_byte_end(),
            self.spec_byte_end() - self.spec_byte_begin() + 1 <= self.w_bytes() + 1,
            self.spec_crosses() <==> self.spec_intra() + self.bits > self.raw_width,
            self.spec_crosses() ==> self.spec_byte_end() == self.spec_byte_begin()
                + self.w_bytes(),
            self.spec_crosses() ==> 1 <= self.spec_overflow_bits() <= 8,
            self.spec_crosses() ==> 1 <= self.spec_intra(),
            !self.spec_crosses() ==> self.spec_intra() + self.bits <= 8 * (self.spec_byte_end()
                - self.spec_byte_begin() + 1),
            !self.spec_crosses() ==> 8 * (self.spec_byte_end() - self.spec_byte_begin() + 1)
                <= self.raw_width,
    {
        let o = self.offset as int;
        let b = self.bits as int;
        let v = self.raw_width as int;
        let t = self.total as int;
        let bb = self.spec_byte_begin();
        let be = self.spec_byte_end();
        let w = self.w_bytes();

        assert(v == 8 || v == 16 || v == 32 || v == 64);
        assert(v == 8 * w);

        lemma_fundamental_div_mod(o, 8);
        lemma_fundamental_div_mod(o + b - 1, 8);

        // The intra-window offset is in range.
        if o + v <= t {
            assert(bb == o / 8);
            assert(self.spec_intra() == o % 8);
        } else {
            lemma_fundamental_div_mod(o, v);
            lemma_div_is_ordered_by_denominator(o, 8, v);
            assert(8 * bb <= 8 * (o / 8));
            if v == 8 {
                assert(self.spec_intra() == o % 8);
            } else {
                // The raw width is the narrowest unit, so a field with a
                // 16-bit or wider unit is wider than 8 bits.
                assert(b >= 9);
                assert(self.spec_intra() <= v + 8 - b);
            }
        }

        // The first window byte does not pass the field's first byte.
        assert(8 * bb <= o + b - 1);
        lemma_div_is_ordered(8 * bb, o + b - 1, 8);
        lemma_div_multiples_vanish(bb, 8);
        assert(bb <= be);

        // The last occupied byte lies inside the buffer.
        assert(t >= 8);
        lemma_fundamental_div_mod(t, 8);
        lemma_div_is_ordered(o + b - 1, t - 1, 8);
        lemma_fundamental_div_mod_converse(t - 1, 8, t / 8 - 1, 7);
        assert(be <= t / 8 - 1);

        // The occupied window exceeds the storage unit by at most one byte.
        assert(o + b - 1 <= 8 * (bb + w) + 7);
        lemma_div_is_ordered(o + b - 1, 8 * (bb + w) + 7, 8);
        lemma_fundamental_div_mod_converse(8 * (bb + w) + 7, 8, bb + w, 7);
        assert(be <= bb + w);

        // Crossing happens exactly when the field runs past the unit.
        if self.spec_intra() + b > v {
            assert(o + b - 1 >= 8 * (bb + w));
            lemma_div_is_ordered(8 * (bb + w), o + b - 1, 8);
            lemma_div_multiples_vanish(bb + w, 8);
            assert(be >= bb + w);
        }
        if self.spec_crosses() {
            assert(be == bb + w);
            assert(o + b - 1 >= 8 * be);
        }
    }

    /// Whether this placement is well formed: the executable check of `wf`.
    pub fn is_well_formed(&self) -> (r: bool)
        ensures
            r == self.wf(),
    {
        if !(1 <= self.bits && self.bits <= 64) {
            return false;
        }
        if self.raw_width != crate::specifier::narrowest_raw_width(self.bits) {
            return false;
        }
        if self.total % 8 != 0 {
            return false;
        }
        if !(self.bits <= self.total && self.offset <= self.total - self.bits) {
            return false;
        }
        let bb = if self.raw_width <= self.total && self.offset <= self.total - self.raw_width {
            self.offset / 8
        } else {
            self.offset / self.raw_width
        };
        proof {
            lemma_fundamental_div_mod(self.offset as int, 8);
            lemma_div_is_ordered_by_denominator(self.offset as int, 8, self.raw_width as int);
            assert(bb == self.spec_byte_begin());
            assert(8 * (bb as int) <= self.offset);
        }
        let intra = self.offset - 8 * bb;
        intra <= self.raw_width + 8 - self.bits
    }

    /// First byte of the read/write window.
    pub fn byte_begin(&self) -> (r: usize)
        requires
            self.wf(),
        ensures
            r == self.spec_byte_begin(),
    {
        if self.raw_width <= self.total && self.offset <= self.total - self.raw_width {
            self.offset / 8
        } else {
            self.offset / self.raw_width
        }
    }

    /// Last byte the field occupies.
    pub fn byte_end(&self) -> (r: usize)
        requires
            self.wf(),
        ensures
            r == self.spec_byte_end(),
    {
        (self.offset + self.bits - 1) / 8
    }

    /// Whether reading or writing the field takes two masked accesses.
    pub fn crosses(&self) -> (r: bool)
        requires
            self.wf(),
        ensures
            r == self.spec_crosses(),
    {
        proof {
            self.lemma_facts();
        }
        self.byte_end() - self.byte_begin() + 1 > self.raw_width / 8
    }

    /// Bit position of the field's least significant bit within the window.
    pub fn intra_offset(&self) -> (r: usize)
        requires
            self.wf(),
        ensures
            r == self.spec_intra(),
    {
        proof {
            self.lemma_facts();
        }
        self.offset - 8 * self.byte_begin()
    }

    /// When crossing: the count of field bits in the overflow byte.
    pub fn overflow_bits(&self) -> (r: usize)
        requires
            self.wf(),
            self.spec_crosses(),
        ensures
            r == self.spec_overflow_bits(),
    {
        proof {
            self.lemma_facts();
        }
        self.bits - (self.raw_width - self.intra_offset())
    }

    /// The `raw_width`-bit mask selecting the field's bits in the window.
    pub fn low_mask(&self) -> (r: u64)
        requires
            self.wf(),
        ensures
            r == self.spec_low_mask(),
    {
        proof {
            self.lemma_facts();
        }
        let intra = self.intra_offset();
        (crate::packing::ones_mask(self.bits as u64) << (intra as u64)) & crate::packing::ones_mask(
            self.raw_width as u64,
        )
    }

    /// When crossing: the byte mask selecting the overflow bits.
    pub fn high_mask(&self) -> (r: u8)
        requires
            self.wf(),
            self.spec_crosses(),
        ensures
            r == self.spec_high_mask(),
            r as u64 == mask64(self.spec_overflow_bits() as u64),
    {
        proof {
            self.lemma_facts();
        }
        let ov = self.overflow_bits() as u64;
        let m = crate::packing::ones_mask(ov);
        proof {
            assert(ov <= 8 ==> mask64(ov) < 256) by (bit_vector);
        }
        m as u8
    }

    /// Reads the field: masks the window (and, when crossing, the overflow
    /// byte) and shifts the field's bits down. The result is exactly the
    /// value the field holds.
    pub fn get(&self, data: &Vec<u8>) -> (r: u64)
        requires
            self.wf(),
            8 * data@.len() == self.total,
        ensures
            r as nat == field_val(data@, self.offset as int, self.bits as int),
            (r as nat) < pow2(self.bits as nat),
    {
        proof {
            self.lemma_facts();
        }
        let bb = self.byte_begin();
        let be = self.byte_end();
        let t = self.intra_offset() as u64;
        let lm = self.low_mask();
        let b64 = self.bits as u64;
        let v64 = self.raw_width as u64;
        if !self.crosses() {
            let nw = be - bb + 1;
            let w = read_window(data, bb, nw);
            let r = (w & lm) >> t;
            proof {
                assert(((w & ((mask64(b64) << t) & mask64(v64))) >> t) & mask64(b64) == (w & ((
                mask64(b64) << t) & mask64(v64))) >> t) by (bit_vector)
                    requires
                        t + b64 <= v64 && v64 <= 64 && 1 <= b64,
                ;
                assert forall|k: u64| k < b64 implies (#[trigger] u64_bit(r, k)) == buf_bit(
                    data@,
                    self.offset + k,
                ) by {
                    crate::packing::lemma_bit_shr(w & lm, t, k);
                    crate::packing::lemma_bit_and(w, lm, (t + k) as u64);
                    crate::packing::lemma_bit_shl(mask64(b64), t, (t + k) as u64);
                    crate::packing::lemma_bit_and(mask64(b64) << t, mask64(v64), (t + k) as u64);
                    crate::packing::lemma_bit_mask64(b64, k);
                    crate::packing::lemma_bit_mask64(v64, (t + k) as u64);
                }
                crate::packing::lemma_field_val_of_word(data@, self.offset as int, b64, r);
                crate::packing::lemma_field_val_bound(
                    data@,
                    self.offset as int,
                    self.bits as int,
                );
            }
            r
        } else {
            let wb = self.raw_width / 8;
            let w = read_window(data, bb, wb);
            let low = (w & lm) >> t;
            let hb = data[be];
            let hm = self.high_mask();
            let u = (self.raw_width - self.intra_offset()) as u64;
            let r = low | (((hb as u64) & (hm as u64)) << u);
            proof {
                let ov = self.spec_overflow_bits() as u64;
                let hb64 = hb as u64;
                assert(((((w & ((mask64(b64) << t) & mask64(v64))) >> t) | ((hb64 & mask64(((b64
                    + t - v64) as u64))) << ((v64 - t) as u64))) & mask64(b64)) == (((w & ((mask64(
                b64) << t) & mask64(v64))) >> t) | ((hb64 & mask64(((b64 + t - v64) as u64))) << ((
                v64 - t) as u64)))) by (bit_vector)
                    requires
                        1 <= t && t < v64 && v64 <= 64 && b64 <= 64 && t + b64 > v64 && t + b64
                            <= v64 + 8,
                ;
                assert(r & mask64(b64) == r);
                assert forall|k: u64| k < b64 implies (#[trigger] u64_bit(r, k)) == buf_bit(
                    data@,
                    self.offset + k,
                ) by {
                    crate::packing::lemma_bit_or(low, (hb64 & (hm as u64)) << u, k);
                    crate::packing::lemma_bit_shr(w & lm, t, k);
                    if t + k < 64 {
                        crate::packing::lemma_bit_and(w, lm, (t + k) as u64);
                        crate::packing::lemma_bit_shl(mask64(b64), t, (t + k) as u64);
                        crate::packing::lemma_bit_and(
                            mask64(b64) << t,
                            mask64(v64),
                            (t + k) as u64,
                        );
                        crate::packing::lemma_bit_mask64(b64, k);
                        crate::packing::lemma_bit_mask64(v64, (t + k) as u64);
                    }
                    crate::packing::lemma_bit_shl(hb64 & (hm as u64), u, k);
                    if u <= k {
                        crate::packing::lemma_bit_and(hb64, hm as u64, (k - u) as u64);
                        crate::packing::lemma_bit_mask64(ov, (k - u) as u64);
                        crate::packing::lemma_bit_position(be as int, (k - u) as int);
                        assert(self.offset + k == 8 * (be as int) + ((k - u) as int));
                    }
                }
                crate::packing::lemma_field_val_of_word(data@, self.offset as int, b64, r);
                crate::packing::lemma_field_val_bound(
                    data@,
                    self.offset as int,
                    self.bits as int,
                );
            }
            r
        }
    }

    /// Writes the field: a masked read-modify-write of the window (and, when
    /// crossing, of the overflow byte). Exactly the field's bits change, and
    /// the field then holds `x`.
    pub fn set(&self, data: &mut Vec<u8>, x: u64)
        requires
            self.wf(),
            8 * old(data)@.len() == self.total,
            (x as nat) < pow2(self.bits as nat),
        ensures
            final(data)@.len() == old(data)@.len(),
            sets_field(old(data)@, final(data)@, self.offset as int, self.bits as int, x),
            field_val(final(data)@, self.offset as int, self.bits as int) == x,
    {
        proof {
            self.lemma_facts();
            crate::packing::lemma_mask64_keeps_iff_fits(x, self.bits as u64);
        }
        let bb = self.byte_begin();
        let be = self.byte_end();
        let t = self.intra_offset() as u64;
        let lm = self.low_mask();
        let ghost b64 = self.bits as u64;
        let ghost v64 = self.raw_width as u64;
        let ghost pre = data@;
        let ghost o = self.offset as int;
        if !self.crosses() {
            let nw = be - bb + 1;
            let w = read_window(data, bb, nw);
            let neww = (w & !lm) | (x << t);
            write_window(data, bb, nw, neww);
            proof {
                assert forall|i: int| o <= i < o + self.bits implies (#[trigger] buf_bit(data@, i))
                    == u64_bit(x, (i - o) as u64) by {
                    let jj: u64 = (i - 8 * (bb as int)) as u64;
                    assert(8 * (bb as int) + jj == i);
                    assert(buf_bit(data@, 8 * (bb as int) + jj) == u64_bit(neww, jj));
                    lemma_set_word_bit(w, x, t, b64, v64, jj);
                }
                assert forall|i: int| i < o || o + self.bits <= i implies (#[trigger] buf_bit(
                    data@,
                    i,
                )) == buf_bit(pre, i) by {
                    if 0 <= i < 8 * pre.len() {
                        if 8 * (bb as int) <= i < 8 * (bb as int) + 8 * (nw as int) {
                            let jj: u64 = (i - 8 * (bb as int)) as u64;
                            assert(8 * (bb as int) + jj == i);
                            assert(buf_bit(data@, 8 * (bb as int) + jj) == u64_bit(neww, jj));
                            lemma_set_word_bit(w, x, t, b64, v64, jj);
                            assert(u64_bit(w, jj) == buf_bit(pre, 8 * (bb as int) + jj));
                        } else {
                            crate::packing::lemma_div8_below(i, pre.len() as int);
                            if i < 8 * (bb as int) {
                                crate::packing::lemma_div8_below(i, bb as int);
                            } else {
                                lemma_div_is_ordered(8 * ((bb + nw) as int), i, 8);
                                lemma_div_multiples_vanish((bb + nw) as int, 8);
                            }
                            assert(data@[i / 8] == pre[i / 8]);
                        }
                    }
                }
                crate::packing::lemma_set_round_trip(pre, data@, o, b64, x);
            }
        } else {
            let wb = self.raw_width / 8;
            let w = read_window(data, bb, wb);
            let vmask = crate::packing::ones_mask(self.raw_width as u64);
            let neww = (w & !lm) | ((x << t) & vmask);
            write_window(data, bb, wb, neww);
            let ghost mid = data@;
            let hb = data[be];
            let hm = self.high_mask();
            let u = (self.raw_width - self.intra_offset()) as u64;
            let nb = #[verifier::truncate] ((((hb as u64) & !(hm as u64)) | ((x >> u) & (
            hm as u64))) as u8);
            data[be] = nb;
            proof {
                let ov = self.spec_overflow_bits() as u64;
                let hb64 = hb as u64;
                let nbe = (hb64 & !mask64(ov)) | ((x >> u) & mask64(ov));
                assert(mid[be as int] == pre[be as int]);
                assert(hb64 < 256) by (bit_vector)
                    requires
                        hb64 == (hb as u64),
                ;
                assert forall|i: int| o <= i < o + self.bits implies (#[trigger] buf_bit(data@, i))
                    == u64_bit(x, (i - o) as u64) by {
                    if i < 8 * (be as int) {
                        let jj: u64 = (i - 8 * (bb as int)) as u64;
                        assert(8 * (bb as int) + jj == i);
                        crate::packing::lemma_div8_below(i, be as int);
                        assert(data@[i / 8] == mid[i / 8]);
                        assert(buf_bit(mid, 8 * (bb as int) + jj) == u64_bit(neww, jj));
                        lemma_set_cross_low_bit(w, x, t, b64, v64, jj);
                    } else {
                        let m: u64 = (i - 8 * (be as int)) as u64;
                        crate::packing::lemma_bit_position(be as int, m as int);
                        assert(8 * (be as int) + m == i);
                        crate::packing::lemma_bit_cast_u8(nbe, m);
                        lemma_set_high_byte_bit(hb64, x, u, ov, m);
                        assert(u64_bit(hb64, m) == u64_bit(mid[be as int] as u64, m));
                    }
                }
                assert forall|i: int| i < o || o + self.bits <= i implies (#[trigger] buf_bit(
                    data@,
                    i,
                )) == buf_bit(pre, i) by {
                    if 0 <= i < 8 * pre.len() {
                        if 8 * (bb as int) <= i < 8 * (be as int) {
                            let jj: u64 = (i - 8 * (bb as int)) as u64;
                            assert(8 * (bb as int) + jj == i);
                            crate::packing::lemma_div8_below(i, be as int);
                            assert(data@[i / 8] == mid[i / 8]);
                            assert(buf_bit(mid, 8 * (bb as int) + jj) == u64_bit(neww, jj));
                            lemma_set_cross_low_bit(w, x, t, b64, v64, jj);
                            assert(u64_bit(w, jj) == buf_bit(pre, 8 * (bb as int) + jj));
                        } else if 8 * (be as int) <= i < 8 * (be as int) + 8 {
                            let m: u64 = (i - 8 * (be as int)) as u64;
                            crate::packing::lemma_bit_position(be as int, m as int);
                            assert(8 * (be as int) + m == i);
                            crate::packing::lemma_bit_cast_u8(nbe, m);
                            lemma_set_high_byte_bit(hb64, x, u, ov, m);
                            assert(u64_bit(hb64, m) == u64_bit(pre[be as int] as u64, m));
                        } else {
                            crate::packing::lemma_div8_below(i, pre.len() as int);
                            if i < 8 * (bb as int) {
                                crate::packing::lemma_div8_below(i, bb as int);
                            } else {
                                lemma_div_is_ordered(8 * ((be + 1) as int), i, 8);
                                lemma_div_multiples_vanish((be + 1) as int, 8);
                            }
                            assert(mid[i / 8] == pre[i / 8]);
                            assert(data@[i / 8] == pre[i / 8]);
                        }
                    }
                }
                crate::packing::lemma_set_round_trip(pre, data@, o, b64, x);
            }
        }
    }
}

/// One masked read-modify-write over a window that holds the whole field:
/// bits under the mask take the value's bits, the rest keep the window's.
proof fn lemma_set_word_bit(w: u64, x: u64, t: u64, b: u64, v: u64, j: u64)
    requires
        1 <= b,
        t + b <= v,
        v <= 64,
        j < 64,
        x & mask64(b) == x,
    ensures
        u64_bit((w & !((mask64(b) << t) & mask64(v))) | (x << t), j) == (if t <= j && j < t + b {
            u64_bit(x, ((j - t) as u64))
        } else {
            u64_bit(w, j)
        }),
{
    assert((((((w & !((mask64(b) << t) & mask64(v))) | (x << t)) >> j) & 1) == 1) == (if t <= j
        && j < t + b {
        ((x >> ((j - t) as u64)) & 1) == 1
    } else {
        ((w >> j) & 1) == 1
    })) by (bit_vector)
        requires
            1 <= b && t + b <= v && v <= 64 && j < 64 && x & mask64(b) == x,
    ;
}

/// The low step of a crossing write: window bits from the intra offset up to
/// the unit's top take the value's low bits, the rest keep the window's.
proof fn lemma_set_cross_low_bit(w: u64, x: u64, t: u64, b: u64, v: u64, j: u64)
    requires
        1 <= t,
        t < v,
        v <= 64,
        b <= 64,
        t + b >= v,
        j < 64,
    ensures
        u64_bit((w & !((mask64(b) << t) & mask64(v))) | ((x << t) & mask64(v)), j) == (if t <= j
            && j < v {
            u64_bit(x, ((j - t) as u64))
        } else {
            u64_bit(w, j)
        }),
{
    assert((((((w & !((mask64(b) << t) & mask64(v))) | ((x << t) & mask64(v))) >> j) & 1) == 1)
        == (if t <= j && j < v {
        ((x >> ((j - t) as u64)) & 1) == 1
    } else {
        ((w >> j) & 1) == 1
    })) by (bit_vector)
        requires
            1 <= t && t < v && v <= 64 && b <= 64 && t + b >= v && j < 64,
    ;
}

/// The high step of a crossing write: the overflow byte's low bits take the
/// value's bits from the unit's top upward, its other bits stay.
proof fn lemma_set_high_byte_bit(hb: u64, x: u64, u: u64, ov: u64, m: u64)
    requires
        hb < 256,
        1 <= u < 64,
        1 <= ov <= 8,
        u + ov <= 64,
        m < 64,
    ensures
        u64_bit((hb & !mask64(ov)) | ((x >> u) & mask64(ov)), m) == (if m < ov {
            u64_bit(x, ((u + m) as u64))
        } else {
            u64_bit(hb, m)
        }),
{
    assert(((((hb & !mask64(ov)) | ((x >> u) & mask64(ov))) >> m) & 1 == 1) == (if m < ov {
        ((x >> ((u + m) as u64)) & 1) == 1
    } else {
        ((hb >> m) & 1) == 1
    })) by (bit_vector)
        requires
            hb < 256 && 1 <= u < 64 && 1 <= ov <= 8 && u + ov <= 64 && m < 64,
    ;
}

/// Reads the `nbytes`-byte window starting at byte `begin` as one
/// little-endian word: bit `k` of the result is buffer bit `8 * begin + k`.
fn read_window(data: &Vec<u8>, begin: usize, nbytes: usize) -> (w: u64)
    requires
        begin + nbytes <= data.len(),
        nbytes <= 8,
    ensures
        forall|k: u64|
            k < 64 ==> ((#[trigger] u64_bit(w, k)) <==> (k < 8 * nbytes && buf_bit(
                data@,
                8 * (begin as int) + k,
            ))),
{
    let mut w: u64 = 0;
    let mut j: usize = 0;
    proof {
        assert forall|k: u64| k < 64 implies !(#[trigger] u64_bit(0u64, k)) by {
            crate::packing::lemma_zero_bit(k);
        }
    }
    while j < nbytes
        invariant
            j <= nbytes,
            nbytes <= 8,
            begin + nbytes <= data.len(),
            forall|k: u64|
                k < 64 ==> ((#[trigger] u64_bit(w, k)) <==> (k < 8 * j && buf_bit(
                    data@,
                    8 * (begin as int) + k,
                ))),
        decreases nbytes - j,
    {
        let byte = data[begin + j];
        let s: u64 = 8 * (j as u64);
        let prev = w;
        w = w | ((byte as u64) << s);
        proof {
            assert forall|k: u64|
                k < 64 implies ((#[trigger] u64_bit(w, k)) <==> (k < 8 * (j + 1) && buf_bit(
                data@,
                8 * (begin as int) + k,
            ))) by {
                crate::packing::lemma_read_step(prev, byte as u64, s, k);
                if s <= k && k < s + 8 {
                    crate::packing::lemma_bit_position((begin + j) as int, (k - s) as int);
                    assert(8 * (begin as int) + k == 8 * ((begin + j) as int) + ((k - s) as int));
                }
            }
        }
        j += 1;
    }
    w
}

/// Writes the low `8 * nbytes` bits of `w` over the window starting at byte
/// `begin`, little-endian, leaving every byte outside the window unchanged.
fn write_window(data: &mut Vec<u8>, begin: usize, nbytes: usize, w: u64)
    requires
        begin + nbytes <= old(data).len(),
        nbytes <= 8,
    ensures
        final(data)@.len() == old(data)@.len(),
        forall|bi: int|
            0 <= bi < old(data)@.len() && !(begin <= bi < begin + nbytes)
                ==> final(data)@[bi] == old(data)@[bi],
        forall|k: u64|
            k < 8 * nbytes ==> ((#[trigger] buf_bit(final(data)@, 8 * (begin as int) + k))
                <==> u64_bit(w, k)),
{
    let mut j: usize = 0;
    while j < nbytes
        invariant
            j <= nbytes,
            nbytes <= 8,
            begin + nbytes <= data.len(),
            data@.len() == old(data)@.len(),
            forall|bi: int|
                0 <= bi < old(data)@.len() && !(begin <= bi < begin + j) ==> data@[bi] == old(
                    data,
                )@[bi],
            forall|k: u64|
                k < 8 * j ==> ((#[trigger] buf_bit(data@, 8 * (begin as int) + k)) <==> u64_bit(
                    w,
                    k,
                )),
        decreases nbytes - j,
    {
        let s: u64 = 8 * (j as u64);
        let byte: u8 = #[verifier::truncate] ((w >> s) as u8);
        let ghost pre = data@;
        data[begin + j] = byte;
        proof {
            assert forall|k: u64|
                k < 8 * (j + 1) implies ((#[trigger] buf_bit(data@, 8 * (begin as int) + k))
                <==> u64_bit(w, k)) by {
                if k < 8 * j {
                    crate::packing::lemma_bit_split(begin as int, k as int);
                    crate::packing::lemma_div8_below(k as int, j as int);
                    assert(data@[(begin as int) + (k as int) / 8] == pre[(begin as int) + (k as int) / 8]);
                    assert(buf_bit(data@, 8 * (begin as int) + k) == buf_bit(
                        pre,
                        8 * (begin as int) + k,
                    ));
                } else {
                    crate::packing::lemma_bit_position((begin + j) as int, (k - s) as int);
                    assert(8 * (begin as int) + k == 8 * ((begin + j) as int) + ((k - s) as int));
                    crate::packing::lemma_bit_cast_u8(w >> s, (k - s) as u64);
                    crate::packing::lemma_bit_shr(w, s, (k - s) as u64);
                }
            }
        }
        j += 1;
    }
}

} // verus!
