//! Mathematical model of a bit-addressed byte store.
//!
//! A packed struct is a sequence of bytes read and written through bit
//! ranges. Bit 0 of the store is the most-significant bit of byte 0; the
//! value of a bit range `[start, end)` is the unsigned integer whose
//! most-significant bit is the bit at `start`.

use vstd::prelude::*;
use vstd::arithmetic::power2::{pow2, lemma_pow2_adds, lemma_pow2_pos};
use vstd::arithmetic::div_mod::{
    lemma_breakdown, lemma_div_denominator, lemma_fundamental_div_mod,
    lemma_mod_division_less_than_divisor, lemma_mod_mod,
};
use vstd::arithmetic::mul::lemma_mul_is_associative;

verus! {

/// Bit `i` of the store, with bit 0 the most-significant bit of byte 0.
/// Always 0 or 1.
pub open spec fn bit_at(data: Seq<u8>, i: int) -> int {
    (data[i / 8] as int / pow2((7 - (i % 8)) as nat) as int) % 2
}

/// Unsigned value of the bit range `[start, end)`, most-significant bit
/// first.
pub open spec fn bits_value(data: Seq<u8>, start: int, end: int) -> int
    decreases end - start,
{
    if start >= end {
        0
    } else {
        bits_value(data, start, end - 1) * 2 + bit_at(data, end - 1)
    }
}

/// A bit is 0 or 1.
pub proof fn lemma_bit_at_range(data: Seq<u8>, i: int)
    ensures
        0 <= bit_at(data, i) <= 1,
{
    let p = pow2((7 - (i % 8)) as nat) as int;
    lemma_pow2_pos((7 - (i % 8)) as nat);
    lemma_mod_division_less_than_divisor(data[i / 8] as int / p, 2);
}

/// A bit range's value is bounded by the range's width.
pub proof fn lemma_bits_value_bound(data: Seq<u8>, start: int, end: int)
    requires
        start <= end,
    ensures
        0 <= bits_value(data, start, end) < pow2((end - start) as nat),
    decreases end - start,
{
    if start >= end {
        assert(pow2(0) == 1) by {
            vstd::arithmetic::power2::lemma2_to64();
        }
    } else {
        lemma_bits_value_bound(data, start, end - 1);
        lemma_bit_at_range(data, end - 1);
        lemma_pow2_adds((end - 1 - start) as nat, 1);
        assert(pow2(1) == 2) by {
            vstd::arithmetic::power2::lemma2_to64();
        }
    }
}

/// Splitting a bit range at `mid` splits its value.
pub proof fn lemma_bits_value_split(data: Seq<u8>, start: int, mid: int, end: int)
    requires
        start <= mid <= end,
    ensures
        bits_value(data, start, end) == bits_value(data, start, mid) * pow2((end - mid) as nat)
            + bits_value(data, mid, end),
    decreases end - mid,
{
    if mid == end {
        assert(pow2(0) == 1) by {
            vstd::arithmetic::power2::lemma2_to64();
        }
        assert(bits_value(data, mid, end) == 0);
        assert(pow2((end - mid) as nat) == 1);
        assert(bits_value(data, start, mid) * pow2((end - mid) as nat) == bits_value(
            data,
            start,
            mid,
        )) by (nonlinear_arith)
            requires
                pow2((end - mid) as nat) == 1,
        ;
        assert(bits_value(data, start, end) == bits_value(data, start, mid) * pow2(
            (end - mid) as nat,
        ) + bits_value(data, mid, end));
    } else {
        lemma_bits_value_split(data, start, mid, end - 1);
        lemma_pow2_adds((end - 1 - mid) as nat, 1);
        assert(pow2(1) == 2) by {
            vstd::arithmetic::power2::lemma2_to64();
        }
        let a = bits_value(data, start, mid);
        let b = bits_value(data, mid, end - 1);
        let c = bit_at(data, end - 1);
        let p = pow2((end - 1 - mid) as nat) as int;
        lemma_mul_is_associative(a, p, 2);
        assert(pow2((end - mid) as nat) as int == p * 2);
        assert(bits_value(data, start, end - 1) == a * p + b);
        assert(bits_value(data, start, end) == (a * p + b) * 2 + c);
        assert((a * p + b) * 2 == (a * p) * 2 + b * 2) by (nonlinear_arith);
        assert(bits_value(data, mid, end) == b * 2 + c);
        assert(bits_value(data, start, end) == a * (p * 2) + (b * 2 + c));
        assert(bits_value(data, start, end) == bits_value(data, start, mid) * pow2(
            (end - mid) as nat,
        ) + bits_value(data, mid, end));
    }
}

/// Two stores that agree on every bit of a range agree on its value.
pub proof fn lemma_bits_value_congruence(d1: Seq<u8>, d2: Seq<u8>, start: int, end: int)
    requires
        forall|i: int| start <= i < end ==> bit_at(d1, i) == bit_at(d2, i),
    ensures
        bits_value(d1, start, end) == bits_value(d2, start, end),
    decreases end - start,
{
    if start < end {
        lemma_bits_value_congruence(d1, d2, start, end - 1);
    }
}

/// A bit depends only on the byte that holds it, so stores that agree on
/// the bytes under a range agree on every bit of it.
pub proof fn lemma_bit_at_byte_congruence(d1: Seq<u8>, d2: Seq<u8>, i: int)
    requires
        d1[i / 8] == d2[i / 8],
    ensures
        bit_at(d1, i) == bit_at(d2, i),
{
}

/// The value of a bit range lying within byte `k` is a shifted slice of
/// that byte: the low `8 - sp` bits of `data[k]`, with the trailing
/// `8 - ep` bits discarded.
pub proof fn lemma_byte_bits_value(data: Seq<u8>, k: int, sp: int, ep: int)
    requires
        0 <= sp <= ep <= 8,
    ensures
        bits_value(data, 8 * k + sp, 8 * k + ep) == (data[k] as int % pow2((8 - sp) as nat) as int)
            / pow2((8 - ep) as nat) as int,
    decreases ep - sp,
{
    let x = data[k] as int;
    lemma_pow2_pos((8 - sp) as nat);
    lemma_pow2_pos((8 - ep) as nat);
    let y = x % pow2((8 - sp) as nat) as int;
    lemma_mod_division_less_than_divisor(x, pow2((8 - sp) as nat) as int);
    if sp == ep {
        assert(y / pow2((8 - ep) as nat) as int == 0) by {
            vstd::arithmetic::div_mod::lemma_basic_div(y, pow2((8 - ep) as nat) as int);
        }
    } else {
        lemma_byte_bits_value(data, k, sp, ep - 1);
        let pe = pow2((8 - ep) as nat) as int;
        let pe1 = pow2((9 - ep) as nat) as int;
        lemma_pow2_pos((9 - ep) as nat);
        lemma_pow2_adds((8 - ep) as nat, 1);
        assert(pow2(1) == 2) by {
            vstd::arithmetic::power2::lemma2_to64();
        }
        assert(pe1 == pe * 2);

        // The new bit: position 8k + ep - 1 lies in byte k.
        let i = 8 * k + ep - 1;
        assert(i / 8 == k && i % 8 == ep - 1) by {
            lemma_fundamental_div_mod_converse_auto(i, k, ep - 1);
        }
        assert(bit_at(data, i) == (x / pe) % 2);

        // q = y / pe; its halves: q / 2 == y / pe1.
        lemma_div_denominator(y, pe, 2);
        assert((y / pe) / 2 == y / (pe * 2));
        // q % 2 agrees with (x / pe) % 2 because pow2(8 - sp) is a
        // multiple of 2 * pe.
        let z = pow2((ep - sp) as nat) as int;
        lemma_pow2_pos((ep - sp) as nat);
        lemma_pow2_adds((8 - ep) as nat, (ep - sp) as nat);
        assert(pow2((8 - sp) as nat) as int == pe * z);
        lemma_breakdown(x, pe, z);
        assert(y == pe * ((x / pe) % z) + x % pe);
        assert(y / pe == (x / pe) % z) by {
            lemma_mod_division_less_than_divisor(x, pe);
            vstd::arithmetic::div_mod::lemma_hoist_over_denominator((x % pe), (x / pe) % z, pe as nat);
            vstd::arithmetic::div_mod::lemma_basic_div(x % pe, pe);
        }
        assert(((x / pe) % z) % 2 == (x / pe) % 2) by {
            let zh = pow2((ep - sp - 1) as nat) as int;
            lemma_pow2_pos((ep - sp - 1) as nat);
            lemma_pow2_adds(1, (ep - sp - 1) as nat);
            assert(z == 2 * zh);
            lemma_mod_mod(x / pe, 2, zh);
        }
        // Assemble: value(sp, ep) == value(sp, ep-1) * 2 + bit.
        assert(y / pe == (y / pe1) * 2 + (y / pe) % 2) by {
            lemma_fundamental_div_mod(y / pe, 2);
        }
    }
}

/// `i == 8k + r` with `0 <= r < 8` pins `i / 8` and `i % 8`.
pub proof fn lemma_fundamental_div_mod_converse_auto(i: int, k: int, r: int)
    requires
        i == 8 * k + r,
        0 <= r < 8,
    ensures
        i / 8 == k,
        i % 8 == r,
{
    vstd::arithmetic::div_mod::lemma_fundamental_div_mod_converse(i, 8, k, r);
}

/// Bit `j` of byte `k`, written over the byte's value.
pub proof fn lemma_bit_at_byte(data: Seq<u8>, k: int, j: int)
    requires
        0 <= j < 8,
    ensures
        bit_at(data, 8 * k + j) == (data[k] as int / pow2((7 - j) as nat) as int) % 2,
{
    lemma_fundamental_div_mod_converse_auto(8 * k + j, k, j);
}

/// Bits before position `sp` of a byte depend only on the byte's value
/// shifted right past `8 - sp`: two bytes with the same high part have the
/// same leading bits.
pub proof fn lemma_byte_high_bits_agree(n: u8, o: u8, sp: int, j: int)
    requires
        0 <= j < sp <= 8,
        n as int / pow2((8 - sp) as nat) as int == o as int / pow2((8 - sp) as nat) as int,
    ensures
        (n as int / pow2((7 - j) as nat) as int) % 2 == (o as int / pow2((7 - j) as nat) as int)
            % 2,
{
    let pa = pow2((8 - sp) as nat) as int;
    let pb = pow2((sp - 1 - j) as nat) as int;
    lemma_pow2_pos((8 - sp) as nat);
    lemma_pow2_pos((sp - 1 - j) as nat);
    lemma_pow2_adds((8 - sp) as nat, (sp - 1 - j) as nat);
    lemma_div_denominator(n as int, pa, pb);
    lemma_div_denominator(o as int, pa, pb);
    assert(n as int / pow2((7 - j) as nat) as int == (n as int / pa) / pb);
    assert(o as int / pow2((7 - j) as nat) as int == (o as int / pa) / pb);
}

/// Bits at positions `ep` and beyond of a byte depend only on the byte's
/// value modulo `pow2(8 - ep)`: two bytes with the same low part have the
/// same trailing bits.
pub proof fn lemma_byte_low_bits_agree(n: u8, o: u8, ep: int, j: int)
    requires
        0 <= ep <= j < 8,
        n as int % pow2((8 - ep) as nat) as int == o as int % pow2((8 - ep) as nat) as int,
    ensures
        (n as int / pow2((7 - j) as nat) as int) % 2 == (o as int / pow2((7 - j) as nat) as int)
            % 2,
{
    let q = pow2((7 - j) as nat) as int;
    let z = pow2((j - ep + 1) as nat) as int;
    lemma_pow2_pos((7 - j) as nat);
    lemma_pow2_pos((j - ep + 1) as nat);
    lemma_pow2_adds((7 - j) as nat, (j - ep + 1) as nat);
    lemma_mid_slice_is_div_mod(n as int, q, z);
    lemma_mid_slice_is_div_mod(o as int, q, z);
    let zh = pow2((j - ep) as nat) as int;
    lemma_pow2_pos((j - ep) as nat);
    lemma_pow2_adds(1, (j - ep) as nat);
    assert(pow2(1) == 2) by {
        vstd::arithmetic::power2::lemma2_to64();
    }
    assert(z == 2 * zh);
    lemma_mod_mod(n as int / q, 2, zh);
    lemma_mod_mod(o as int / q, 2, zh);
}

/// Slicing the middle out of a value: `(x % (q * z)) / q == (x / q) % z`
/// for nonnegative `x` and positive `q`, `z`.
pub proof fn lemma_mid_slice_is_div_mod(x: int, q: int, z: int)
    requires
        0 <= x,
        0 < q,
        0 < z,
    ensures
        (x % (q * z)) / q == (x / q) % z,
{
    lemma_breakdown(x, q, z);
    let w = (x / q) % z;
    let r = x % q;
    let y = x % (q * z);
    assert(y == q * w + r);
    vstd::arithmetic::mul::lemma_mul_is_commutative(q, w);
    assert(y == r + w * q);
    lemma_mod_division_less_than_divisor(x, q);
    assert(r / q == 0) by {
        vstd::arithmetic::div_mod::lemma_basic_div(r, q);
    }
    assert(r / q + w == (r + w * q) / q) by {
        vstd::arithmetic::div_mod::lemma_hoist_over_denominator(r, w, q as nat);
    }
    assert(y / q == w);
}

/// Dividing a bounded value by a power of two tightens the bound:
/// `x < pow2(a)` gives `x / pow2(b) < pow2(a - b)`.
pub proof fn lemma_div_pow2_bound(x: int, a: nat, b: nat)
    requires
        0 <= x < pow2(a),
        b <= a,
    ensures
        0 <= x / pow2(b) as int,
        (x / pow2(b) as int) < pow2((a - b) as nat),
    decreases b,
{
    lemma_pow2_pos(b);
    lemma_pow2_pos((a - b) as nat);
    lemma_pow2_adds(b, (a - b) as nat);
    vstd::arithmetic::div_mod::lemma_multiply_divide_lt(x, pow2(b) as int, pow2((a - b) as nat) as int);
    vstd::arithmetic::div_mod::lemma_div_pos_is_pos(x, pow2(b) as int);
}

/// A store of zero bytes has value zero on every range.
pub proof fn lemma_bits_value_zero(data: Seq<u8>, start: int, end: int)
    requires
        forall|k: int| 0 <= k < data.len() ==> data[k] == 0,
        0 <= start <= end <= 8 * data.len(),
    ensures
        bits_value(data, start, end) == 0,
    decreases end - start,
{
    if start < end {
        lemma_bits_value_zero(data, start, end - 1);
        let i = end - 1;
        assert(0 <= i / 8 < data.len()) by {
            lemma_fundamental_div_mod(i, 8);
        }
        assert(data[i / 8] == 0);
        lemma_pow2_pos((7 - (i % 8)) as nat);
    }
}

} // verus!
