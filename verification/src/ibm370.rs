//! IBM System/370 hexadecimal floating point.
//!
//! A numeric field of a transport file is an eight-byte big-endian hexadecimal
//! float: one sign bit, a seven-bit exponent of 16 biased by 64, and a 56-bit
//! fraction of fourteen hexadecimal digits with no hidden bit. Its value is
//! `0.d1 d2 ... d14 (base 16) * 16^(exponent - 64)`.
//!
//! The decoder returns the value as the bit pattern of the nearest IEEE-754
//! binary64 number (`f64::from_bits` turns it into a float), or a missing-value
//! tag for the reserved patterns.

use vstd::arithmetic::power2::{
    lemma2_to64, lemma2_to64_rest, lemma_pow2_adds, lemma_pow2_pos, lemma_pow2_unfold, pow2,
};
use vstd::prelude::*;

verus! {

/// The missing-value tag of a numeric field.
#[derive(Clone, Copy, Debug, PartialEq, Eq, Structural)]
pub enum IbmMissing {
    /// The generic missing value (`.` or `_`).
    Dot,
    /// A named missing value, carrying its letter (`b'A'..=b'Z'`).
    Letter(u8),
    /// Not missing: the field holds a number.
    Present,
}

/// Bytes 1 to 7 of an eight-byte field are all zero.
pub open spec fn tail_is_zero(bytes: Seq<u8>) -> bool {
    forall|i: int| 1 <= i < 8 ==> bytes[i] == 0
}

/// The sign: bit 7 of byte 0.
pub open spec fn ibm_negative(bytes: Seq<u8>) -> bool {
    bytes[0] >= 0x80
}

/// The biased exponent of 16: bits 0 to 6 of byte 0.
pub open spec fn ibm_exponent(bytes: Seq<u8>) -> nat {
    (bytes[0] % 0x80) as nat
}

/// The 56-bit fraction as an integer: bytes 1 to 7, big-endian. The fraction's
/// value is this number over `16^14`.
pub open spec fn ibm_fraction(bytes: Seq<u8>) -> nat {
    (bytes[1] * 0x1_0000_0000_0000 + bytes[2] * 0x100_0000_0000 + bytes[3] * 0x1_0000_0000
        + bytes[4] * 0x100_0000 + bytes[5] * 0x1_0000 + bytes[6] * 0x100 + bytes[7]) as nat
}

/// The `k`-th hexadecimal digit of the fraction, `1 <= k <= 14`, most
/// significant first.
pub open spec fn hex_digit(bytes: Seq<u8>, k: int) -> nat {
    if k % 2 == 1 {
        (bytes[(k + 1) / 2] / 16) as nat
    } else {
        (bytes[k / 2] % 16) as nat
    }
}

/// Number of bits needed to write `x`: 0 for 0, else the index of the highest
/// set bit plus one.
pub open spec fn bit_length(x: nat) -> nat
    decreases x,
{
    if x == 0 {
        0
    } else {
        1 + bit_length(x / 2)
    }
}

/// `x / 8`, rounded to the nearest integer, ties to the even one.
pub open spec fn round_eighth_half_even(x: nat) -> nat {
    let q = x / 8;
    let r = x % 8;
    if r > 4 || (r == 4 && q % 2 == 1) {
        q + 1
    } else {
        q
    }
}

/// The bit pattern of the binary64 number nearest to
/// `(-1)^negative * fraction / 16^14 * 16^(exponent - 64)`, ties to even.
///
/// The fraction is shifted left until its highest bit is bit 55, the three
/// lowest bits are rounded away, and the exponent of 2 of the leading bit,
/// `4 * (exponent - 64) - 56 + bit_length(fraction) - 1`, is biased by 1023.
/// A significand that rounds up to `2^53` carries into the exponent field.
pub open spec fn binary64_bits(negative: bool, exponent: nat, fraction: nat) -> nat {
    let sign = if negative {
        0x8000_0000_0000_0000nat
    } else {
        0nat
    };
    if fraction == 0 {
        sign
    } else {
        let n = bit_length(fraction);
        let significand = round_eighth_half_even(fraction * pow2((56 - n) as nat));
        let biased = 4 * exponent + n + 710;
        (sign + biased * 0x10_0000_0000_0000 + significand - 0x10_0000_0000_0000) as nat
    }
}

/// What an eight-byte field decodes to: the binary64 bit pattern of its value,
/// or `None` with the missing-value tag. Fewer than eight bytes decode to
/// nothing; of more than eight only the first eight are read.
pub open spec fn ibm64_decoded(bytes: Seq<u8>) -> (Option<u64>, IbmMissing) {
    if bytes.len() < 8 {
        (None, IbmMissing::Present)
    } else if tail_is_zero(bytes) && (bytes[0] == 0x2E || bytes[0] == 0x5F) {
        (None, IbmMissing::Dot)
    } else if tail_is_zero(bytes) && 0x41 <= bytes[0] <= 0x5A {
        (None, IbmMissing::Letter(bytes[0]))
    } else if tail_is_zero(bytes) && bytes[0] == 0 {
        (Some(0u64), IbmMissing::Present)
    } else {
        (
            Some(
                binary64_bits(ibm_negative(bytes), ibm_exponent(bytes), ibm_fraction(bytes)) as u64,
            ),
            IbmMissing::Present,
        )
    }
}

/// `2^(k-1) <= x < 2^k` exactly when `x` has `k` bits.
pub proof fn lemma_bit_length_bounds(x: nat, k: nat)
    requires
        k >= 1,
        pow2((k - 1) as nat) <= x < pow2(k),
    ensures
        bit_length(x) == k,
    decreases k,
{
    lemma2_to64();
    lemma_pow2_unfold(k);
    if k == 1 {
        assert(x == 1);
        assert(bit_length(1) == 1 + bit_length(0)) by {
            reveal_with_fuel(bit_length, 2);
        }
    } else {
        lemma_pow2_unfold((k - 1) as nat);
        lemma_bit_length_bounds(x / 2, (k - 1) as nat);
    }
}

/// A number of `k` bits lies in `[2^(k-1), 2^k)`.
pub proof fn lemma_bit_length_range(x: nat)
    requires
        x > 0,
    ensures
        bit_length(x) >= 1,
        pow2((bit_length(x) - 1) as nat) <= x < pow2(bit_length(x)),
    decreases x,
{
    lemma2_to64();
    if x == 1 {
        reveal_with_fuel(bit_length, 2);
    } else {
        lemma_bit_length_range(x / 2);
        lemma_pow2_unfold(bit_length(x));
        lemma_pow2_unfold(bit_length(x / 2));
    }
}

/// Eight zero bytes are the number zero, not a missing value.
pub proof fn lemma_zero_is_zero(bytes: Seq<u8>)
    requires
        bytes.len() == 8,
        forall|i: int| 0 <= i < 8 ==> bytes[i] == 0,
    ensures
        ibm64_decoded(bytes) == (Some(0u64), IbmMissing::Present),
{
}

/// A letter `A` to `Z` before seven zero bytes is the missing value named by
/// that letter; `.` or `_` before seven zero bytes is the generic one.
pub proof fn lemma_missing_values(bytes: Seq<u8>)
    requires
        bytes.len() == 8,
        tail_is_zero(bytes),
    ensures
        0x41 <= bytes[0] <= 0x5A ==> ibm64_decoded(bytes) == (
            None::<u64>,
            IbmMissing::Letter(bytes[0]),
        ),
        bytes[0] == 0x2E || bytes[0] == 0x5F ==> ibm64_decoded(bytes) == (
            None::<u64>,
            IbmMissing::Dot,
        ),
{
}

/// The fraction is the fourteen hexadecimal digits: the `k`-th is worth
/// `16^(14-k)` in the integer, which is `16^-k` in the value.
pub proof fn lemma_fraction_digits(bytes: Seq<u8>)
    requires
        bytes.len() >= 8,
    ensures
        ibm_fraction(bytes) == hex_digit(bytes, 1) * 0x10_0000_0000_0000 + hex_digit(bytes, 2)
            * 0x1_0000_0000_0000 + hex_digit(bytes, 3) * 0x1000_0000_0000 + hex_digit(bytes, 4)
            * 0x100_0000_0000 + hex_digit(bytes, 5) * 0x10_0000_0000 + hex_digit(bytes, 6)
            * 0x1_0000_0000 + hex_digit(bytes, 7) * 0x1000_0000 + hex_digit(bytes, 8) * 0x100_0000
            + hex_digit(bytes, 9) * 0x10_0000 + hex_digit(bytes, 10) * 0x1_0000 + hex_digit(
            bytes,
            11,
        ) * 0x1000 + hex_digit(bytes, 12) * 0x100 + hex_digit(bytes, 13) * 0x10 + hex_digit(
            bytes,
            14,
        ),
        forall|k: int| 1 <= k <= 14 ==> hex_digit(bytes, k) < 16,
{
}

/// The magnitude of a hexadecimal float, `fraction / 16^14 * 16^(exponent - 64)`,
/// times `2^364`, which makes it an integer.
pub open spec fn hex_magnitude_scaled(exponent: nat, fraction: nat) -> nat {
    fraction * pow2(4 * exponent + 52)
}

/// The sign bit of a binary64 bit pattern.
pub open spec fn binary64_negative(bits: nat) -> bool {
    bits >= 0x8000_0000_0000_0000
}

/// The exponent field of a binary64 bit pattern.
pub open spec fn binary64_exponent(bits: nat) -> nat {
    bits / 0x10_0000_0000_0000 % 0x800
}

/// The mantissa field of a binary64 bit pattern.
pub open spec fn binary64_mantissa(bits: nat) -> nat {
    bits % 0x10_0000_0000_0000
}

/// The unit in the last place of a binary64 number, `2^(exponent - 1075)`,
/// times `2^364`. It is an integer where the exponent field is at least 711.
pub open spec fn binary64_ulp_scaled(bits: nat) -> nat {
    pow2((binary64_exponent(bits) - 711) as nat)
}

/// The magnitude of a normal binary64 number,
/// `(2^52 + mantissa) * 2^(exponent - 1075)`, times `2^364`.
pub open spec fn binary64_magnitude_scaled(bits: nat) -> nat {
    (0x10_0000_0000_0000 + binary64_mantissa(bits)) * binary64_ulp_scaled(bits)
}

/// The decoded number is the hexadecimal float, rounded to binary64.
///
/// For every fraction but zero the bit pattern is that of a normal binary64
/// number of the same sign, which differs from the exact value by at most
/// half a unit in the last place, and not at all where the fraction has no
/// more than 53 significant bits.
pub proof fn lemma_binary64_is_nearest(negative: bool, exponent: nat, fraction: nat)
    requires
        exponent < 0x80,
        0 < fraction < 0x100_0000_0000_0000,
    ensures
        binary64_bits(negative, exponent, fraction) <= u64::MAX,
        binary64_negative(binary64_bits(negative, exponent, fraction)) == negative,
        711 <= binary64_exponent(binary64_bits(negative, exponent, fraction)) <= 1275,
        2 * (binary64_magnitude_scaled(binary64_bits(negative, exponent, fraction))
            - hex_magnitude_scaled(exponent, fraction)) <= binary64_ulp_scaled(
            binary64_bits(negative, exponent, fraction),
        ),
        2 * (hex_magnitude_scaled(exponent, fraction) - binary64_magnitude_scaled(
            binary64_bits(negative, exponent, fraction),
        )) <= binary64_ulp_scaled(binary64_bits(negative, exponent, fraction)),
        bit_length(fraction) <= 53 ==> binary64_magnitude_scaled(
            binary64_bits(negative, exponent, fraction),
        ) == hex_magnitude_scaled(exponent, fraction),
{
    lemma2_to64();
    lemma2_to64_rest();
    let n = bit_length(fraction);
    lemma_bit_length_range(fraction);
    if n > 56 {
        vstd::arithmetic::power2::lemma_pow2_strictly_increases(56, (n - 1) as nat);
    }
    let shift = (56 - n) as nat;
    let low = pow2((n - 1) as nat);
    let high = pow2(n);
    let scale = pow2(shift);
    lemma_pow2_pos(shift);
    lemma_pow2_adds((n - 1) as nat, shift);
    lemma_pow2_adds(n, shift);
    let normal = fraction * scale;
    assert(low * scale <= normal < high * scale) by (nonlinear_arith)
        requires
            low <= fraction < high,
            scale > 0,
            normal == fraction * scale,
    ;
    let q = normal / 8;
    let r = normal % 8;
    let significand = round_eighth_half_even(normal);
    let biased = 4 * exponent + n + 710;
    let sign = if negative {
        0x8000_0000_0000_0000nat
    } else {
        0nat
    };
    let bits = binary64_bits(negative, exponent, fraction);
    assert(bits == sign + biased * 0x10_0000_0000_0000 + significand - 0x10_0000_0000_0000);
    let unit = pow2((4 * exponent + n - 1) as nat);
    lemma_pow2_pos((4 * exponent + n - 1) as nat);
    lemma_pow2_unfold((4 * exponent + n) as nat);
    let ulp = binary64_ulp_scaled(bits);
    let rounded = binary64_magnitude_scaled(bits);
    if significand == 0x20_0000_0000_0000 {
        assert(binary64_exponent(bits) == biased + 1);
        assert(binary64_mantissa(bits) == 0);
        assert(ulp == 2 * unit);
        assert(rounded == significand * unit) by (nonlinear_arith)
            requires
                rounded == 0x10_0000_0000_0000 * ulp,
                ulp == 2 * unit,
                significand == 0x20_0000_0000_0000,
        ;
    } else {
        assert(binary64_exponent(bits) == biased);
        assert(binary64_mantissa(bits) == significand - 0x10_0000_0000_0000);
        assert(ulp == unit);
    }
    let exact = hex_magnitude_scaled(exponent, fraction);
    let base = pow2(4 * exponent + 52);
    lemma_pow2_adds(3, 4 * exponent + 52);
    lemma_pow2_adds(shift, (4 * exponent + n - 1) as nat);
    assert(8 * exact == normal * unit) by (nonlinear_arith)
        requires
            exact == fraction * base,
            normal == fraction * scale,
            8 * base == scale * unit,
    ;
    let up: int = significand - q;
    assert(8 * rounded - 8 * exact == (8 * up - r) * unit) by (nonlinear_arith)
        requires
            rounded == significand * unit,
            8 * exact == normal * unit,
            normal == 8 * q + r,
            up == significand - q,
    ;
    assert(8 * rounded - 8 * exact <= 4 * unit && 8 * exact - 8 * rounded <= 4 * unit)
        by (nonlinear_arith)
        requires
            8 * rounded - 8 * exact == (8 * up - r) * unit,
            -4 <= 8 * up - r <= 4,
            unit > 0,
    ;
    if n <= 53 {
        let rest = pow2((shift - 3) as nat);
        lemma_pow2_adds(3, (shift - 3) as nat);
        assert(normal == 8 * (fraction * rest)) by (nonlinear_arith)
            requires
                normal == fraction * scale,
                scale == 8 * rest,
        ;
        assert(r == 0);
        assert((8 * up - r) * unit == 0) by (nonlinear_arith)
            requires
                up == 0,
                r == 0,
        ;
    }
}

fn tail_all_zero(bytes: &[u8]) -> (r: bool)
    requires
        bytes@.len() >= 8,
    ensures
        r == tail_is_zero(bytes@),
{
    let mut i: usize = 1;
    while i < 8
        invariant
            1 <= i <= 8,
            bytes@.len() >= 8,
            forall|j: int| 1 <= j < i ==> bytes@[j] == 0,
        decreases 8 - i,
    {
        if bytes[i] != 0 {
            return false;
        }
        i += 1;
    }
    true
}

fn fraction_of(bytes: &[u8]) -> (f: u64)
    requires
        bytes@.len() >= 8,
    ensures
        f == ibm_fraction(bytes@),
        f < 0x100_0000_0000_0000,
{
    let f: u64 = (bytes[1] as u64) * 0x1_0000_0000_0000 + (bytes[2] as u64) * 0x100_0000_0000 + (
    bytes[3] as u64) * 0x1_0000_0000 + (bytes[4] as u64) * 0x100_0000 + (bytes[5] as u64) * 0x1_0000
        + (bytes[6] as u64) * 0x100 + (bytes[7] as u64);
    f
}

/// Rounds a hexadecimal float to binary64.
pub fn binary64_from_hex(negative: bool, exponent: u8, fraction: u64) -> (bits: u64)
    requires
        exponent < 0x80,
        fraction < 0x100_0000_0000_0000,
    ensures
        bits == binary64_bits(negative, exponent as nat, fraction as nat),
{
    let sign: u64 = if negative {
        0x8000_0000_0000_0000
    } else {
        0
    };
    if fraction == 0 {
        return sign;
    }
    proof {
        lemma2_to64();
        lemma2_to64_rest();
        lemma_bit_length_range(fraction as nat);
        if bit_length(fraction as nat) > 56 {
            lemma_pow2_unfold(bit_length(fraction as nat));
            vstd::arithmetic::power2::lemma_pow2_strictly_increases(
                56,
                (bit_length(fraction as nat) - 1) as nat,
            );
        }
        assert(fraction * pow2(0) == fraction) by (nonlinear_arith)
            requires
                pow2(0) == 1,
        ;
    }
    let mut m: u64 = fraction;
    let mut n: u64 = 56;
    while m < 0x80_0000_0000_0000
        invariant
            0 < m < 0x100_0000_0000_0000,
            1 <= n <= 56,
            bit_length(fraction as nat) <= n,
            m == fraction * pow2((56 - n) as nat),
            bit_length(m as nat) == bit_length(fraction as nat) + 56 - n,
        decreases 0x100_0000_0000_0000 - m,
    {
        proof {
            lemma2_to64();
            lemma2_to64_rest();
            lemma_pow2_unfold((56 - n + 1) as nat);
            assert(fraction * (2 * pow2((56 - n) as nat)) == 2 * (fraction * pow2((56 - n) as nat)))
                by (nonlinear_arith);
            assert((2 * m) as nat / 2 == m);
            lemma_bit_length_range(m as nat);
            if bit_length(m as nat) >= 56 {
                vstd::arithmetic::power2::lemma_pow2_strictly_increases(
                    54,
                    (bit_length(m as nat) - 1) as nat,
                );
            }
        }
        m = m * 2;
        n = n - 1;
    }
    proof {
        lemma2_to64();
        lemma2_to64_rest();
        lemma_bit_length_bounds(m as nat, 56);
    }
    let q: u64 = m / 8;
    let r: u64 = m % 8;
    let significand: u64 = if r > 4 || (r == 4 && q % 2 == 1) {
        q + 1
    } else {
        q
    };
    let biased: u64 = 4 * (exponent as u64) + n + 710;
    sign + biased * 0x10_0000_0000_0000 + significand - 0x10_0000_0000_0000
}

/// Decodes an eight-byte IBM/370 hexadecimal float.
///
/// Returns the binary64 bit pattern of the value, or `None` with the tag of
/// the missing value that the field holds. The reserved patterns are tested
/// first: a first byte of `.` or `_`, or of a letter `A` to `Z`, before seven
/// zero bytes; eight zero bytes are the number zero.
pub fn ibm64_to_f64(bytes: &[u8]) -> (r: (Option<u64>, IbmMissing))
    ensures
        r == ibm64_decoded(bytes@),
{
    if bytes.len() < 8 {
        return (None, IbmMissing::Present);
    }
    let b0 = bytes[0];
    if tail_all_zero(bytes) {
        if b0 == 0x2E || b0 == 0x5F {
            return (None, IbmMissing::Dot);
        }
        if 0x41 <= b0 && b0 <= 0x5A {
            return (None, IbmMissing::Letter(b0));
        }
        if b0 == 0 {
            return (Some(0), IbmMissing::Present);
        }
    }
    let negative = b0 >= 0x80;
    let exponent: u8 = b0 % 0x80;
    let fraction = fraction_of(bytes);
    (Some(binary64_from_hex(negative, exponent, fraction)), IbmMissing::Present)
}

} // verus!
