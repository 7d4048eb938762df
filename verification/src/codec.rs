//! The bit-range codec: reading and writing a bit range `[start, end)` of a
//! byte store, byte by byte, with cross-boundary masks and merges.
//!
//! Extraction walks the touched bytes accumulating into a 64-bit value;
//! insertion rewrites each touched byte through [`merge_byte`], which
//! preserves every bit outside the addressed range.

use vstd::prelude::*;
use vstd::arithmetic::power2::{pow2, lemma_pow2_adds, lemma_pow2_pos, lemma2_to64};
use vstd::arithmetic::div_mod::{
    lemma_div_denominator, lemma_fundamental_div_mod, lemma_fundamental_div_mod_converse,
    lemma_mod_division_less_than_divisor, lemma_mod_mod,
};
use vstd::arithmetic::mul::{lemma_mul_inequality, lemma_mul_is_commutative};
use vstd::bits::{lemma_u64_pow2_no_overflow, lemma_u64_shl_is_mul};
use crate::bits::{bit_at, bits_value};

verus! {

/// `1u64 << sh` is `pow2(sh)` for a shift below 64.
proof fn lemma_shift_is_pow2(sh: u64)
    requires
        sh < 64,
    ensures
        (1u64 << sh) as int == pow2(sh as nat),
        1u64 << sh >= 1,
{
    lemma_u64_pow2_no_overflow(sh as nat);
    lemma_u64_shl_is_mul(1u64, sh);
}

/// Writes `w` into bits `[s, e)` of byte `b` (bit 0 being the byte's
/// most-significant bit), preserving the bits outside that range.
///
/// The three clauses say: the leading `s` bits keep `b`'s values, the
/// middle `e - s` bits take `w`, and the trailing `8 - e` bits keep `b`'s
/// values.
pub fn merge_byte(b: u8, s: usize, e: usize, w: u64) -> (r: u8)
    requires
        s <= e <= 8,
        (w as int) < pow2((e - s) as nat),
    ensures
        r as int / pow2((8 - s) as nat) as int == b as int / pow2((8 - s) as nat) as int,
        (r as int % pow2((8 - s) as nat) as int) / pow2((8 - e) as nat) as int == w as int,
        r as int % pow2((8 - e) as nat) as int == b as int % pow2((8 - e) as nat) as int,
{
    let v = b as u64;
    let sh_s: u64 = s as u64;
    let sh_p: u64 = (8 - s) as u64;
    let sh_q: u64 = (8 - e) as u64;
    let sh_w: u64 = (e - s) as u64;
    proof {
        lemma_shift_is_pow2(sh_s);
        lemma_shift_is_pow2(sh_p);
        lemma_shift_is_pow2(sh_q);
        lemma_shift_is_pow2(sh_w);
    }
    let ones_s = (1u64 << sh_s) - 1;
    let ones_p = (1u64 << sh_p) - 1;
    let ones_q = (1u64 << sh_q) - 1;
    let x = v & (ones_s << sh_p);
    let m = w << sh_q;
    let y = v & ones_q;
    let r64 = x | m | y;
    proof {
        let p = pow2((8 - s) as nat) as int;
        let q = pow2((8 - e) as nat) as int;
        let wid = pow2((e - s) as nat) as int;
        lemma_pow2_pos((8 - s) as nat);
        lemma_pow2_pos((8 - e) as nat);
        lemma_pow2_pos((e - s) as nat);
        lemma_pow2_adds((8 - e) as nat, (e - s) as nat);
        assert(p == q * wid);

        // x is v with its trailing 8 - s bits cleared.
        assert(x + (v & ones_p) == v) by (bit_vector)
            requires
                sh_s == s as u64,
                sh_p == (8 - s) as u64,
                s <= 8,
                v < 256,
                ones_s + 1 == 1u64 << sh_s,
                ones_p + 1 == 1u64 << sh_p,
                x == v & (ones_s << sh_p),
        ;
        assert(v & ones_p == v as int % p) by {
            vstd::bits::lemma_u64_low_bits_mask_is_mod(v, (8 - s) as nat);
        }
        let h = v as int / p;
        assert(x == h * p) by {
            lemma_fundamental_div_mod(v as int, p);
            lemma_mul_is_commutative(h, p);
        }

        // m places w in the middle; y keeps the trailing bits of v.
        assert(w * q <= (wid - 1) * q) by {
            lemma_mul_inequality(w as int, wid - 1, q);
        }
        assert((wid - 1) * q == p - q) by (nonlinear_arith)
            requires
                p == q * wid,
        ;
        assert(m == w * q) by {
            lemma_u64_shl_is_mul(w, sh_q);
        }
        assert(y == v as int % q) by {
            vstd::bits::lemma_u64_low_bits_mask_is_mod(v, (8 - e) as nat);
        }

        // The three parts occupy disjoint bit ranges, so OR is addition.
        assert(r64 == x + m + y) by (bit_vector)
            requires
                sh_s == s as u64,
                sh_p == (8 - s) as u64,
                sh_q == (8 - e) as u64,
                sh_w == (e - s) as u64,
                s <= e,
                e <= 8,
                v < 256,
                w < 1u64 << sh_w,
                ones_s + 1 == 1u64 << sh_s,
                ones_q + 1 == 1u64 << sh_q,
                x == v & (ones_s << sh_p),
                m == w << sh_q,
                y == v & ones_q,
                r64 == (x | m | y),
        ;
        let rem = w * q + v as int % q;
        assert(r64 == h * p + rem);

        // Slice the sum back apart with the fundamental division identity.
        assert(rem < p) by {
            lemma_mod_division_less_than_divisor(v as int, q);
            lemma_mul_inequality(w as int, wid - 1, q);
            assert((wid - 1) * q == p - q) by (nonlinear_arith)
                requires
                    p == q * wid,
            ;
        }
        assert(r64 as int / p == h && r64 as int % p == rem) by {
            lemma_mul_is_commutative(h, p);
            lemma_fundamental_div_mod_converse(r64 as int, p, h, rem);
        }
        assert(rem / q == w as int && rem % q == v as int % q) by {
            lemma_mod_division_less_than_divisor(v as int, q);
            lemma_mul_is_commutative(w as int, q);
            lemma_fundamental_div_mod_converse(rem, q, w as int, v as int % q);
        }
        assert(r64 as int % q == v as int % q) by {
            lemma_mod_mod(r64 as int, q, wid);
        }
        // The result fits a byte: r64 < p * (h + 1) <= p * pow2(s) == 256.
        assert(pow2(8) == 256) by {
            lemma2_to64();
        }
        lemma_pow2_adds((8 - s) as nat, s as nat);
        assert(h < pow2(s as nat)) by {
            crate::bits::lemma_div_pow2_bound(v as int, 8, (8 - s) as nat);
        }
        assert(p * (h + 1) <= 256) by (nonlinear_arith)
            requires
                0 < p,
                h + 1 <= pow2(s as nat),
                p * pow2(s as nat) == 256,
        ;
        assert(h * p + p <= 256) by (nonlinear_arith)
            requires
                p * (h + 1) <= 256,
        ;
        assert(r64 < 256);
    }
    r64 as u8
}

/// Reads the bit range `[start, end)` of `data` as an unsigned 64-bit
/// value: the first byte masked to its trailing `8 - start % 8` bits, each
/// whole byte shifted in, and the final partial byte's leading bits
/// appended.
pub fn get_bits(data: &Vec<u8>, start: usize, end: usize) -> (r: u64)
    requires
        start < end,
        end - start <= 64,
        end <= data.len() * 8,
    ensures
        r as int == bits_value(data@, start as int, end as int),
{
    let si = start / 8;
    let ei = end / 8;
    let sp = start % 8;
    let ep = end % 8;
    proof {
        lemma_fundamental_div_mod(start as int, 8);
        lemma_fundamental_div_mod(end as int, 8);
        assert(start == 8 * si + sp && end == 8 * ei + ep);
        assert(si < data.len());
    }
    let sh_p: u64 = (8 - sp) as u64;
    proof {
        lemma_shift_is_pow2(sh_p);
    }
    let ones_p = (1u64 << sh_p) - 1;
    let first = (data[si] as u64) & ones_p;
    proof {
        vstd::bits::lemma_u64_low_bits_mask_is_mod(data[si as int] as u64, (8 - sp) as nat);
        lemma_pow2_pos((8 - sp) as nat);
        assert(first as int == data@[si as int] as int % pow2((8 - sp) as nat) as int);
    }
    if si == ei {
        let sh_e: u64 = (8 - ep) as u64;
        proof {
            lemma_shift_is_pow2(sh_e);
        }
        let r = first >> sh_e;
        proof {
            vstd::bits::lemma_u64_shr_is_div(first, sh_e);
            crate::bits::lemma_byte_bits_value(data@, si as int, sp as int, ep as int);
        }
        r
    } else {
        let mut ans = first;
        let ghost whole = data@;
        proof {
            crate::bits::lemma_byte_bits_value(data@, si as int, sp as int, 8);
            assert(pow2(0) == 1 && pow2(8) == 256) by {
                lemma2_to64();
            }
            vstd::arithmetic::div_mod::lemma_div_basics(first as int);
            assert(ans as int == bits_value(data@, start as int, 8 * (si + 1)));
        }
        let mut ix = si + 1;
        while ix < ei
            invariant
                si + 1 <= ix <= ei,
                data@ == whole,
                start == 8 * si + sp,
                end == 8 * ei + ep,
                sp < 8,
                ep < 8,
                start < end,
                end - start <= 64,
                end <= data.len() * 8,
                ans as int == bits_value(data@, start as int, 8 * ix),
                (ans as int) < pow2((8 * ix - start) as nat),
            decreases ei - ix,
        {
            let byte = data[ix] as u64;
            proof {
                assert(8 * ix + 8 <= 8 * ei && 8 * ei <= end);
                assert(ix < data.len());
                assert(pow2(8) == 256) by {
                    lemma2_to64();
                }
                lemma_pow2_adds((8 * ix - start) as nat, 8);
                assert(ans * 256 < pow2((8 * ix + 8 - start) as nat)) by (nonlinear_arith)
                    requires
                        (ans as int) < pow2((8 * ix - start) as nat),
                        pow2((8 * ix + 8 - start) as nat) == pow2((8 * ix - start) as nat) * 256,
                ;
                assert(pow2((8 * ix + 8 - start) as nat) <= pow2(64)) by {
                    if 8 * ix + 8 - start < 64 {
                        vstd::arithmetic::power2::lemma_pow2_strictly_increases(
                            (8 * ix + 8 - start) as nat,
                            64,
                        );
                    }
                }
                assert(pow2(64) == 0x10000000000000000) by {
                    vstd::arithmetic::power2::lemma2_to64_rest();
                }
                lemma_u64_shl_is_mul(ans, 8);
            }
            let shifted = ans << 8u64;
            let merged = shifted | byte;
            proof {
                assert(merged == shifted + byte) by (bit_vector)
                    requires
                        shifted == ans << 8u64,
                        byte < 256,
                        merged == (shifted | byte),
                ;
                crate::bits::lemma_bits_value_split(data@, start as int, 8 * ix, 8 * ix + 8);
                crate::bits::lemma_byte_bits_value(data@, ix as int, 0, 8);
                lemma_small_mod_byte(data@[ix as int]);
                vstd::arithmetic::div_mod::lemma_div_basics(data@[ix as int] as int);
                assert(pow2(0) == 1 && pow2(8) == 256) by {
                    lemma2_to64();
                }
                assert(bits_value(data@, 8 * ix, 8 * ix + 8) == byte);
                assert(merged as int == bits_value(data@, start as int, 8 * (ix + 1)));
            }
            ans = merged;
            ix = ix + 1;
        }
        if ei < data.len() {
            let sh_e: u64 = (8 - ep) as u64;
            let ep_u: u64 = ep as u64;
            proof {
                lemma_shift_is_pow2(sh_e);
                lemma_shift_is_pow2(ep_u);
                lemma_pow2_pos((8 - ep) as nat);
                lemma_pow2_pos(ep as nat);
            }
            let tail = (data[ei] as u64) >> sh_e;
            proof {
                vstd::bits::lemma_u64_shr_is_div(data@[ei as int] as u64, sh_e);
                assert(pow2(8) == 256) by {
                    lemma2_to64();
                }
                assert((tail as int) < pow2(ep as nat)) by {
                    crate::bits::lemma_div_pow2_bound(data@[ei as int] as int, 8, (8 - ep) as nat);
                    lemma_pow2_adds((8 - ep) as nat, ep as nat);
                }
                crate::bits::lemma_byte_bits_value(data@, ei as int, 0, ep as int);
                lemma_small_mod_byte(data@[ei as int]);
                assert(tail as int == bits_value(data@, 8 * ei, end as int));
                // Shifting ans by ep cannot overflow.
                lemma_pow2_adds((8 * ei - start) as nat, ep as nat);
                assert(ans * pow2(ep as nat) + tail < pow2((end - start) as nat)) by (nonlinear_arith)
                    requires
                        (ans as int) < pow2((8 * ei - start) as nat),
                        (tail as int) < pow2(ep as nat),
                        0 < pow2(ep as nat),
                        pow2((end - start) as nat) == pow2((8 * ei - start) as nat) * pow2(
                            ep as nat,
                        ),
                ;
                assert(pow2((end - start) as nat) <= pow2(64)) by {
                    if ((end - start) as nat) < 64 {
                        vstd::arithmetic::power2::lemma_pow2_strictly_increases(
                            (end - start) as nat,
                            64,
                        );
                    }
                }
                assert(pow2(64) == 0x10000000000000000) by {
                    vstd::arithmetic::power2::lemma2_to64_rest();
                }
                lemma_u64_shl_is_mul(ans, ep_u);
            }
            let shifted = ans << ep_u;
            let merged = shifted | tail;
            proof {
                assert(merged == shifted + tail) by (bit_vector)
                    requires
                        shifted == ans << ep_u,
                        ep_u < 8,
                        tail < (1u64 << ep_u),
                        merged == (shifted | tail),
                ;
                crate::bits::lemma_bits_value_split(data@, start as int, 8 * ei, end as int);
            }
            merged
        } else {
            proof {
                assert(8 * ei <= end && end <= 8 * data.len());
                assert(ep == 0 && end == 8 * ei);
            }
            ans
        }
    }
}

/// Writes the `end - start` low bits of `v` into the bit range
/// `[start, end)` of `data`: the leading remainder of `v` is merged into
/// the first partial byte, each interior byte takes its 8-bit slice of
/// `v`, and the trailing bits of `v` are merged into the final partial
/// byte. Every bit outside the range keeps its old value.
pub fn set_bits(data: &mut Vec<u8>, v: u64, start: usize, end: usize)
    requires
        start < end,
        end - start <= 64,
        end <= old(data).len() * 8,
        (v as int) < pow2((end - start) as nat),
    ensures
        final(data)@.len() == old(data)@.len(),
        bits_value(final(data)@, start as int, end as int) == v as int,
        forall|i: int|
            0 <= i < start as int || end as int <= i < 8 * final(data)@.len() ==> bit_at(
                final(data)@,
                i,
            ) == bit_at(old(data)@, i),
{
    let ghost orig = data@;
    let si = start / 8;
    let ei = end / 8;
    let sp = start % 8;
    let ep = end % 8;
    let size = end - start;
    proof {
        lemma_fundamental_div_mod(start as int, 8);
        lemma_fundamental_div_mod(end as int, 8);
        assert(start == 8 * si + sp && end == 8 * ei + ep);
        assert(si < data.len());
        assert(ei <= data.len());
    }
    if si == ei {
        let nb = merge_byte(data[si], sp, ep, v);
        data.set(si, nb);
        proof {
            crate::bits::lemma_byte_bits_value(data@, si as int, sp as int, ep as int);
            lemma_set_bits_frame(orig, data@, start as int, end as int, si as int, ei as int);
        }
    } else {
        proof {
            assert(8 - sp <= size);
            assert((v as int / pow2((size - (8 - sp)) as nat) as int) < pow2((8 - sp) as nat)) by {
                crate::bits::lemma_div_pow2_bound(
                    v as int,
                    size as nat,
                    (size - (8 - sp)) as nat,
                );
            }
        }
        let sh1: u64 = (size - (8 - sp)) as u64;
        proof {
            lemma_shift_is_pow2(sh1);
            vstd::bits::lemma_u64_shr_is_div(v, sh1);
        }
        let vh = v >> sh1;
        let nb = merge_byte(data[si], sp, 8, vh);
        data.set(si, nb);
        let ghost d1 = data@;
        proof {
            assert(pow2(0) == 1 && pow2(8) == 256) by {
                lemma2_to64();
            }
            vstd::arithmetic::div_mod::lemma_div_basics(
                nb as int % pow2((8 - sp) as nat) as int,
            );
            crate::bits::lemma_byte_bits_value(data@, si as int, sp as int, 8);
            assert(bits_value(data@, start as int, 8 * (si + 1)) == vh as int);
        }
        let mut d: usize = 8 - sp;
        let mut ix = si + 1;
        while ix < ei
            invariant
                si + 1 <= ix <= ei,
                si < ei,
                d == 8 * ix - start,
                start == 8 * si + sp,
                end == 8 * ei + ep,
                sp < 8,
                ep < 8,
                start < end,
                size == end - start,
                size <= 64,
                end <= data.len() * 8,
                ei <= data.len(),
                data@.len() == d1.len(),
                (v as int) < pow2(size as nat),
                forall|k: int| 0 <= k < d1.len() && !(si + 1 <= k < ix) ==> data@[k] == d1[k],
                bits_value(data@, start as int, 8 * ix) == v as int / pow2((size - d) as nat) as int,
            decreases ei - ix,
        {
            let ghost prev = data@;
            proof {
                assert(8 * ix + 8 <= 8 * ei && 8 * ei <= end);
                assert(d + 8 <= size);
                assert(1 <= size - d && size - d <= 63);
            }
            let sh_md: u64 = (size - d) as u64;
            let sh_lo: u64 = (size - (d + 8)) as u64;
            proof {
                lemma_shift_is_pow2(sh_md);
                lemma_shift_is_pow2(sh_lo);
            }
            let m = (1u64 << sh_md) - 1;
            let m2 = 255u64 << sh_lo;
            let v2 = v & m;
            let v3 = v2 & m2;
            let v4 = v3 >> sh_lo;
            proof {
                let plo = pow2((size - (d + 8)) as nat) as int;
                let pmd = pow2((size - d) as nat) as int;
                lemma_pow2_pos((size - (d + 8)) as nat);
                lemma_pow2_pos((size - d) as nat);
                assert(pow2(8) == 256) by {
                    lemma2_to64();
                }
                assert(v2 == v as int % pmd) by {
                    vstd::bits::lemma_u64_low_bits_mask_is_mod(v, (size - d) as nat);
                }
                assert(v4 == (v2 >> sh_lo) & 255) by (bit_vector)
                    requires
                        sh_lo < 64,
                        m2 == 255u64 << sh_lo,
                        v3 == v2 & m2,
                        v4 == v3 >> sh_lo,
                ;
                assert((v2 >> sh_lo) as int == v2 as int / plo) by {
                    vstd::bits::lemma_u64_shr_is_div(v2, sh_lo);
                }
                assert((v2 >> sh_lo) & 255 == (v2 >> sh_lo) as int % 256) by {
                    vstd::bits::lemma_u64_low_bits_mask_is_mod(v2 >> sh_lo, 8);
                    vstd::bits::lemma_low_bits_mask_values();
                }
                lemma_pow2_adds((size - (d + 8)) as nat, 8);
                assert((v2 as int / plo) == (v as int / plo) % 256) by {
                    crate::bits::lemma_mid_slice_is_div_mod(v as int, plo, 256);
                }
                assert(v4 == (v as int / plo) % 256);
                lemma_mod_division_less_than_divisor(v as int / plo, 256);
            }
            data.set(ix, v4 as u8);
            proof {
                let plo = pow2((size - (d + 8)) as nat) as int;
                let pmd = pow2((size - d) as nat) as int;
                lemma_pow2_pos((size - (d + 8)) as nat);
                lemma_pow2_pos((size - d) as nat);
                assert(pow2(0) == 1 && pow2(8) == 256) by {
                    lemma2_to64();
                }
                // Bits before 8 * ix are untouched by this write.
                assert(bits_value(data@, start as int, 8 * ix) == bits_value(
                    prev,
                    start as int,
                    8 * ix,
                )) by {
                    assert forall|i: int| start as int <= i < 8 * ix implies bit_at(data@, i)
                        == bit_at(prev, i) by {
                        assert(i / 8 < ix) by {
                            lemma_fundamental_div_mod(i, 8);
                        }
                        crate::bits::lemma_bit_at_byte_congruence(data@, prev, i);
                    }
                    crate::bits::lemma_bits_value_congruence(data@, prev, start as int, 8 * ix);
                }
                crate::bits::lemma_bits_value_split(data@, start as int, 8 * ix, 8 * ix + 8);
                crate::bits::lemma_byte_bits_value(data@, ix as int, 0, 8);
                lemma_small_mod_byte(data@[ix as int]);
                vstd::arithmetic::div_mod::lemma_div_basics(data@[ix as int] as int);
                assert(bits_value(data@, 8 * ix, 8 * ix + 8) == v4 as int);
                // (v / pmd) * 256 + (v / plo) % 256 == v / plo.
                let q = v as int / plo;
                assert(q / 256 == v as int / pmd) by {
                    lemma_pow2_adds((size - (d + 8)) as nat, 8);
                    lemma_div_denominator(v as int, plo, 256);
                }
                assert(q == (q / 256) * 256 + q % 256) by {
                    lemma_fundamental_div_mod(q, 256);
                    lemma_mul_is_commutative(256, q / 256);
                }
                assert(bits_value(data@, start as int, 8 * (ix + 1)) == v as int / plo);
            }
            d = d + 8;
            ix = ix + 1;
        }
        let ghost after_loop = data@;
        proof {
            assert(d == size - ep);
        }
        if ep > 0 {
            let sh_e: u64 = ep as u64;
            proof {
                lemma_shift_is_pow2(sh_e);
                lemma_pow2_pos(ep as nat);
            }
            let mask_e = (1u64 << sh_e) - 1;
            let w_f = v & mask_e;
            proof {
                assert(w_f == v as int % pow2(ep as nat) as int) by {
                    vstd::bits::lemma_u64_low_bits_mask_is_mod(v, ep as nat);
                }
                lemma_mod_division_less_than_divisor(v as int, pow2(ep as nat) as int);
                assert(ei < data.len());
            }
            let ghost before_tail = data@;
            let nb2 = merge_byte(data[ei], 0, ep, w_f);
            data.set(ei, nb2);
            proof {
                let pe = pow2(ep as nat) as int;
                // Bits before 8 * ei are untouched by the tail write.
                assert(bits_value(data@, start as int, 8 * ei) == bits_value(
                    before_tail,
                    start as int,
                    8 * ei,
                )) by {
                    assert forall|i: int| start as int <= i < 8 * ei implies bit_at(data@, i)
                        == bit_at(before_tail, i) by {
                        assert(i / 8 < ei) by {
                            lemma_fundamental_div_mod(i, 8);
                        }
                        crate::bits::lemma_bit_at_byte_congruence(data@, before_tail, i);
                    }
                    crate::bits::lemma_bits_value_congruence(
                        data@,
                        before_tail,
                        start as int,
                        8 * ei,
                    );
                }
                crate::bits::lemma_bits_value_split(data@, start as int, 8 * ei, end as int);
                crate::bits::lemma_byte_bits_value(data@, ei as int, 0, ep as int);
                lemma_small_mod_byte(data@[ei as int]);
                assert(bits_value(data@, 8 * ei, end as int) == w_f as int);
                assert(v as int == (v as int / pe) * pe + v as int % pe) by {
                    lemma_fundamental_div_mod(v as int, pe);
                    lemma_mul_is_commutative(pe, v as int / pe);
                }
                assert(bits_value(data@, start as int, end as int) == v as int);
            }
        } else {
            proof {
                assert(pow2(0) == 1) by {
                    lemma2_to64();
                }
                vstd::arithmetic::div_mod::lemma_div_basics(v as int);
                assert(bits_value(data@, start as int, end as int) == v as int);
            }
        }
        proof {
            assert(orig.len() == old(data)@.len());
            assert(d1.len() == orig.len());
            assert(data@.len() == orig.len());
            assert forall|k: int| 0 <= k < orig.len() && (k < si || k > ei) implies data@[k]
                == orig[k] by {
                assert(after_loop[k] == d1[k]);
                assert(d1[k] == orig[k]);
            }
            assert(data@[si as int] == d1[si as int]);
            assert(d1[si as int] == nb);
            if ei < data.len() {
                if ep > 0 {
                    assert(after_loop[ei as int] == d1[ei as int]);
                    assert(d1[ei as int] == orig[ei as int]);
                } else {
                    assert(data@[ei as int] == d1[ei as int]);
                    assert(d1[ei as int] == orig[ei as int]);
                }
            }
            lemma_set_bits_frame(orig, data@, start as int, end as int, si as int, ei as int);
        }
    }
}

/// After a write of `[start, end)` that changed only bytes `si ..= ei`,
/// kept the leading `start % 8` bits of byte `si` and (when `end % 8 > 0`)
/// the trailing bits of byte `ei`, every bit outside the range is
/// unchanged.
proof fn lemma_set_bits_frame(
    orig: Seq<u8>,
    now: Seq<u8>,
    start: int,
    end: int,
    si: int,
    ei: int,
)
    requires
        0 <= start < end,
        end <= 8 * orig.len(),
        now.len() == orig.len(),
        si == start / 8,
        ei == end / 8,
        forall|k: int| 0 <= k < orig.len() && (k < si || k > ei) ==> now[k] == orig[k],
        now[si] as int / pow2((8 - start % 8) as nat) as int == orig[si] as int / pow2(
            (8 - start % 8) as nat,
        ) as int,
        end % 8 > 0 && ei < orig.len() ==> now[ei] as int % pow2((8 - end % 8) as nat) as int
            == orig[ei] as int % pow2((8 - end % 8) as nat) as int,
        end % 8 == 0 && ei < orig.len() ==> now[ei] == orig[ei],
    ensures
        forall|i: int|
            0 <= i < start || end <= i < 8 * now.len() ==> bit_at(now, i) == bit_at(orig, i),
{
    let sp = start % 8;
    let ep = end % 8;
    lemma_fundamental_div_mod(start, 8);
    lemma_fundamental_div_mod(end, 8);
    assert forall|i: int| 0 <= i < start || end <= i < 8 * now.len() implies bit_at(now, i)
        == bit_at(orig, i) by {
        let k = i / 8;
        let j = i % 8;
        lemma_fundamental_div_mod(i, 8);
        assert(0 <= j < 8);
        assert(i == 8 * k + j);
        if 0 <= i < start {
            if k < si {
                crate::bits::lemma_bit_at_byte_congruence(now, orig, i);
            } else {
                assert(k == si && j < sp);
                crate::bits::lemma_bit_at_byte(now, k, j);
                crate::bits::lemma_bit_at_byte(orig, k, j);
                crate::bits::lemma_byte_high_bits_agree(now[k], orig[k], sp, j);
            }
        } else {
            assert(k < now.len());
            if k > ei {
                crate::bits::lemma_bit_at_byte_congruence(now, orig, i);
            } else {
                assert(k == ei && j >= ep);
                if ep > 0 {
                    crate::bits::lemma_bit_at_byte(now, k, j);
                    crate::bits::lemma_bit_at_byte(orig, k, j);
                    crate::bits::lemma_byte_low_bits_agree(now[k], orig[k], ep, j);
                } else {
                    crate::bits::lemma_bit_at_byte_congruence(now, orig, i);
                }
            }
        }
    }
}

/// A byte is its own remainder modulo 256.
proof fn lemma_small_mod_byte(b: u8)
    ensures
        b as int % pow2(8) as int == b as int,
{
    assert(pow2(8) == 256) by {
        lemma2_to64();
    }
    vstd::arithmetic::div_mod::lemma_small_mod(b as nat, 256);
}

} // verus!
