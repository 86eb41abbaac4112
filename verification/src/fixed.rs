//! Signed fixed-point scalars with 32 fractional bits.
//!
//! Every quantity of the pipeline (coordinates, depths, colour channels,
//! matrix entries) is a `Fixed`: a 64-bit integer `raw` that stands for the
//! number `raw / 2^32`. All arithmetic saturates at the ends of the 64-bit
//! range, and products and quotients round towards negative infinity, so each
//! operation is a total function with an exact mathematical meaning.

use vstd::arithmetic::div_mod::lemma_div_multiples_vanish;
use vstd::arithmetic::div_mod::lemma_fundamental_div_mod;
use vstd::arithmetic::div_mod::lemma_fundamental_div_mod_converse;
use vstd::arithmetic::power2::{lemma2_to64, pow2};
use vstd::prelude::*;

verus! {

/// Number of fractional bits of a `Fixed`.
pub const FRAC_BITS: u32 = 32;

/// The raw value of the number one, `2^32`.
pub const SCALE: i64 = 0x1_0000_0000;

/// The nearest 64-bit integer to `v`.
pub open spec fn clamp(v: int) -> i64 {
    if v < i64::MIN {
        i64::MIN
    } else if v > i64::MAX {
        i64::MAX
    } else {
        v as i64
    }
}

/// A fixed-point number: `raw` counts units of `2^-32`.
#[derive(Clone, Copy, Debug, PartialEq, Eq, Structural)]
pub struct Fixed {
    pub raw: i64,
}

/// Quotient rounded towards negative infinity, for a positive divisor.
fn floor_div(n: i128, d: i128) -> (q: i128)
    requires
        d > 0,
        n > i128::MIN,
    ensures
        q == n / d,
{
    if n >= 0 {
        n / d
    } else {
        let m: i128 = -n;
        let q0: i128 = m / d;
        let r0: i128 = m % d;
        proof {
            lemma_fundamental_div_mod(m as int, d as int);
            assert(0 <= q0 <= m) by (nonlinear_arith)
                requires
                    m == d * q0 + r0,
                    0 <= r0 < d,
                    m >= 0,
                    d > 0,
            ;
            if r0 == 0 {
                assert(n == (-q0) * d + 0) by (nonlinear_arith)
                    requires
                        m == d * q0 + r0,
                        r0 == 0,
                        n == -m,
                ;
                lemma_fundamental_div_mod_converse(n as int, d as int, -q0, 0);
            } else {
                assert(n == (-q0 - 1) * d + (d - r0)) by (nonlinear_arith)
                    requires
                        m == d * q0 + r0,
                        n == -m,
                ;
                lemma_fundamental_div_mod_converse(n as int, d as int, -q0 - 1, d - r0);
            }
        }
        if r0 == 0 {
            -q0
        } else {
            -q0 - 1
        }
    }
}

/// Saturating conversion of a wide integer to a raw value.
fn saturate(v: i128) -> (r: i64)
    ensures
        r == clamp(v as int),
{
    if v < i64::MIN as i128 {
        i64::MIN
    } else if v > i64::MAX as i128 {
        i64::MAX
    } else {
        v as i64
    }
}

impl Fixed {
    /// The fixed-point number that stands for the integer `n`.
    pub open spec fn from_int(n: int) -> Fixed {
        Fixed { raw: clamp(n * SCALE) }
    }

    /// Saturating sum.
    pub open spec fn add_spec(self, rhs: Fixed) -> Fixed {
        Fixed { raw: clamp(self.raw + rhs.raw) }
    }

    /// Saturating difference.
    pub open spec fn sub_spec(self, rhs: Fixed) -> Fixed {
        Fixed { raw: clamp(self.raw - rhs.raw) }
    }

    /// Saturating product, rounded down to a multiple of `2^-32`.
    pub open spec fn mul_spec(self, rhs: Fixed) -> Fixed {
        Fixed { raw: clamp((self.raw * rhs.raw) / (SCALE as int)) }
    }

    /// Saturating quotient, rounded down to a multiple of `2^-32`.
    ///
    /// A non-zero number divided by zero saturates in the direction of its
    /// sign; zero divided by zero is zero.
    pub open spec fn div_spec(self, rhs: Fixed) -> Fixed {
        if rhs.raw > 0 {
            Fixed { raw: clamp((self.raw * SCALE) / (rhs.raw as int)) }
        } else if rhs.raw < 0 {
            Fixed { raw: clamp(((-self.raw) * SCALE) / (-rhs.raw)) }
        } else if self.raw > 0 {
            Fixed { raw: i64::MAX }
        } else if self.raw < 0 {
            Fixed { raw: i64::MIN }
        } else {
            Fixed { raw: 0 }
        }
    }

    /// The least whole number that is not below `self`, saturating.
    pub open spec fn ceil_spec(self) -> Fixed {
        Fixed { raw: clamp(((self.raw + SCALE - 1) / (SCALE as int)) * SCALE) }
    }

    /// The greatest integer that is not above `self`.
    pub open spec fn floor_int(self) -> int {
        (self.raw as int) / (SCALE as int)
    }

    /// The least integer that is not below `self`.
    pub open spec fn ceil_int(self) -> int {
        (self.raw + SCALE - 1) / (SCALE as int)
    }

    /// The non-negative remainder of `self` modulo the magnitude of `rhs`;
    /// zero where `rhs` is zero.
    pub open spec fn rem_euclid_spec(self, rhs: Fixed) -> Fixed {
        if rhs.raw > 0 {
            Fixed { raw: clamp((self.raw as int) % (rhs.raw as int)) }
        } else if rhs.raw < 0 {
            Fixed { raw: clamp((self.raw as int) % (-rhs.raw)) }
        } else {
            Fixed { raw: 0 }
        }
    }

    /// `self` as an index: its integer part, with everything below zero
    /// mapped to zero.
    pub open spec fn to_u32_spec(self) -> u32 {
        if self.raw < 0 {
            0
        } else {
            self.floor_int() as u32
        }
    }

    /// `self * 255` as a byte: rounded down and limited to `0..=255`.
    pub open spec fn to_u8_spec(self) -> u8 {
        let scaled = (self.raw * 255) / (SCALE as int);
        if scaled < 0 {
            0
        } else if scaled > 255 {
            255
        } else {
            scaled as u8
        }
    }

    /// The number with the given raw value.
    pub fn from_raw(raw: i64) -> (r: Fixed)
        ensures
            r.raw == raw,
    {
        Fixed { raw }
    }

    /// Zero.
    pub fn zero() -> (r: Fixed)
        ensures
            r == Fixed::from_int(0),
    {
        Fixed { raw: 0 }
    }

    /// One.
    pub fn one() -> (r: Fixed)
        ensures
            r == Fixed::from_int(1),
    {
        Fixed { raw: SCALE }
    }

    /// The integer `n` as a fixed-point number, saturating.
    pub fn from_u32(n: u32) -> (r: Fixed)
        ensures
            r == Fixed::from_int(n as int),
    {
        let wide: i128 = (n as i128) * 0x1_0000_0000;
        Fixed { raw: saturate(wide) }
    }

    /// The integer `n` as a fixed-point number, saturating.
    pub fn from_u64(n: u64) -> (r: Fixed)
        ensures
            r == Fixed::from_int(n as int),
    {
        let wide: i128 = (n as i128) * 0x1_0000_0000;
        Fixed { raw: saturate(wide) }
    }

    /// Saturating sum.
    pub fn add(self, rhs: Fixed) -> (r: Fixed)
        ensures
            r == self.add_spec(rhs),
    {
        Fixed { raw: saturate(self.raw as i128 + rhs.raw as i128) }
    }

    /// Saturating difference.
    pub fn sub(self, rhs: Fixed) -> (r: Fixed)
        ensures
            r == self.sub_spec(rhs),
    {
        Fixed { raw: saturate(self.raw as i128 - rhs.raw as i128) }
    }

    /// Saturating product, rounded down.
    pub fn mul(self, rhs: Fixed) -> (r: Fixed)
        ensures
            r == self.mul_spec(rhs),
    {
        let a: i128 = self.raw as i128;
        let b: i128 = rhs.raw as i128;
        assert(-0x4000_0000_0000_0000_0000_0000_0000_0000 <= a * b
            <= 0x4000_0000_0000_0000_0000_0000_0000_0000) by (nonlinear_arith)
            requires
                -0x8000_0000_0000_0000 <= a <= 0x8000_0000_0000_0000,
                -0x8000_0000_0000_0000 <= b <= 0x8000_0000_0000_0000,
        ;
        let wide: i128 = a * b;
        Fixed { raw: saturate(floor_div(wide, SCALE as i128)) }
    }

    /// Saturating quotient, rounded down.
    pub fn div(self, rhs: Fixed) -> (r: Fixed)
        ensures
            r == self.div_spec(rhs),
    {
        let a: i128 = self.raw as i128;
        let b: i128 = rhs.raw as i128;
        if b > 0 {
            Fixed { raw: saturate(floor_div(a * 0x1_0000_0000, b)) }
        } else if b < 0 {
            Fixed { raw: saturate(floor_div((-a) * 0x1_0000_0000, -b)) }
        } else if a > 0 {
            Fixed { raw: i64::MAX }
        } else if a < 0 {
            Fixed { raw: i64::MIN }
        } else {
            Fixed { raw: 0 }
        }
    }

    /// The least whole number that is not below `self`, saturating.
    pub fn ceil(self) -> (r: Fixed)
        ensures
            r == self.ceil_spec(),
    {
        let shifted: i128 = self.raw as i128 + (SCALE as i128 - 1);
        let units: i128 = floor_div(shifted, SCALE as i128);
        Fixed { raw: saturate(units * 0x1_0000_0000) }
    }

    /// The non-negative remainder of `self` modulo the magnitude of `rhs`;
    /// zero where `rhs` is zero.
    pub fn rem_euclid(self, rhs: Fixed) -> (r: Fixed)
        ensures
            r == self.rem_euclid_spec(rhs),
    {
        let a: i128 = self.raw as i128;
        let b: i128 = rhs.raw as i128;
        if b == 0 {
            Fixed { raw: 0 }
        } else {
            let m: i128 = if b > 0 {
                b
            } else {
                -b
            };
            let q: i128 = floor_div(a, m);
            proof {
                lemma_fundamental_div_mod(a as int, m as int);
                assert(-0x8000_0000_0000_0000 <= q <= 0x8000_0000_0000_0000) by (nonlinear_arith)
                    requires
                        a == m * q + (a as int % m as int),
                        0 <= (a as int % m as int) < m,
                        -0x8000_0000_0000_0000 <= a < 0x8000_0000_0000_0000,
                        0 < m <= 0x8000_0000_0000_0000,
                ;
                assert(-0x4000_0000_0000_0000_0000_0000_0000_0000 <= q * m
                    <= 0x4000_0000_0000_0000_0000_0000_0000_0000) by (nonlinear_arith)
                    requires
                        -0x8000_0000_0000_0000 <= q <= 0x8000_0000_0000_0000,
                        0 < m <= 0x8000_0000_0000_0000,
                ;
                assert(q * m == m * q) by (nonlinear_arith);
            }
            Fixed { raw: saturate(a - q * m) }
        }
    }

    /// Whether `self` is strictly below `rhs`.
    pub fn lt(self, rhs: Fixed) -> (r: bool)
        ensures
            r == (self.raw < rhs.raw),
    {
        self.raw < rhs.raw
    }

    /// `self` as an index: its integer part, with everything below zero
    /// mapped to zero.
    pub fn to_u32(self) -> (r: u32)
        ensures
            r == self.to_u32_spec(),
    {
        if self.raw < 0 {
            0
        } else {
            (self.raw / SCALE) as u32
        }
    }

    /// `self * 255` as a byte: rounded down and limited to `0..=255`.
    pub fn to_u8(self) -> (r: u8)
        ensures
            r == self.to_u8_spec(),
    {
        let scaled: i128 = floor_div((self.raw as i128) * 255, SCALE as i128);
        if scaled < 0 {
            0
        } else if scaled > 255 {
            255
        } else {
            scaled as u8
        }
    }
}

/// The raw value of one is two to the power of the fractional bits.
pub proof fn lemma_scale()
    ensures
        SCALE as int == pow2(FRAC_BITS as nat),
{
    lemma2_to64();
}

/// A number other than zero divided by itself is one.
pub proof fn lemma_div_self(x: Fixed)
    requires
        x.raw != 0,
    ensures
        x.div_spec(x) == Fixed::from_int(1),
{
    if x.raw > 0 {
        lemma_div_multiples_vanish(SCALE as int, x.raw as int);
    } else {
        lemma_div_multiples_vanish(SCALE as int, -x.raw);
    }
}

/// Dividing by one changes nothing.
pub proof fn lemma_div_one(x: Fixed)
    ensures
        x.div_spec(Fixed::from_int(1)) == x,
{
    lemma_div_multiples_vanish(x.raw as int, SCALE as int);
    assert(x.raw * SCALE == SCALE * x.raw) by (nonlinear_arith);
}

/// Zero divided by anything is zero.
pub proof fn lemma_zero_div(d: Fixed)
    ensures
        Fixed::from_int(0).div_spec(d) == Fixed::from_int(0),
{
    if d.raw > 0 {
        assert((0 * SCALE) / (d.raw as int) == 0) by (nonlinear_arith)
            requires
                d.raw > 0,
        ;
    } else if d.raw < 0 {
        assert(((-0) * SCALE) / (-d.raw) == 0) by (nonlinear_arith)
            requires
                d.raw < 0,
        ;
    }
}

/// Multiplying by one changes nothing.
pub proof fn lemma_mul_one(e: Fixed)
    ensures
        Fixed::from_int(1).mul_spec(e) == e,
        e.mul_spec(Fixed::from_int(1)) == e,
{
    lemma_div_multiples_vanish(e.raw as int, SCALE as int);
    assert(e.raw * SCALE == SCALE * e.raw) by (nonlinear_arith);
}

/// Multiplying by zero gives zero.
pub proof fn lemma_mul_zero(e: Fixed)
    ensures
        Fixed::from_int(0).mul_spec(e) == Fixed::from_int(0),
        e.mul_spec(Fixed::from_int(0)) == Fixed::from_int(0),
{
    assert(0 * e.raw == 0 && e.raw * 0 == 0) by (nonlinear_arith);
}

/// The ceiling of a number lies less than one above it, and is the whole
/// number `ceil_int` unless that is out of range.
pub proof fn lemma_ceil(a: Fixed)
    ensures
        a.raw <= a.ceil_spec().raw,
        a.ceil_spec().raw - a.raw < SCALE,
        a.ceil_int() * SCALE <= i64::MAX ==> a.ceil_spec().raw == a.ceil_int() * SCALE,
        a.ceil_int() * SCALE > i64::MAX ==> a.ceil_spec().raw == i64::MAX,
        a.ceil_int() * SCALE >= a.raw,
        a.ceil_int() * SCALE - a.raw < SCALE,
{
}

} // verus!
