//! IEEE 754 binary64 numbers, held by their bits.
//!
//! Script values such as rates, targets and timeouts are binary64 numbers. The
//! library carries them by their 64 bits, so that nothing is lost, and computes
//! on them with integers: which are positive or finite, and what a conversion
//! to an integer type gives. A conversion drops the fraction and saturates, and
//! takes what is not a number to zero.

use vstd::arithmetic::power2::pow2;
use vstd::prelude::*;

verus! {

/// A binary64 number. Two are equal here when their bits are.
#[derive(Debug, Clone, Copy, PartialEq, Eq, Structural)]
pub struct Binary64 {
    pub bits: u64,
}

/// Whether the sign bit is set.
pub open spec fn is_negative(x: Binary64) -> bool {
    x.bits >= 0x8000_0000_0000_0000
}

/// The eleven bits of the biased exponent.
pub open spec fn exponent(x: Binary64) -> nat {
    ((x.bits % 0x8000_0000_0000_0000) / 0x10_0000_0000_0000) as nat
}

/// The fifty-two bits of the fraction.
pub open spec fn fraction(x: Binary64) -> nat {
    (x.bits % 0x10_0000_0000_0000) as nat
}

pub open spec fn is_nan(x: Binary64) -> bool {
    exponent(x) == 2047 && fraction(x) != 0
}

/// Neither an infinity nor a value that is not a number.
pub open spec fn is_finite(x: Binary64) -> bool {
    exponent(x) != 2047
}

/// Greater than zero.
pub open spec fn is_positive(x: Binary64) -> bool {
    !is_nan(x) && !is_negative(x) && (exponent(x) != 0 || fraction(x) != 0)
}

/// Not less than one.
pub open spec fn is_at_least_one(x: Binary64) -> bool {
    !is_nan(x) && !is_negative(x) && exponent(x) >= 1023
}

/// The integral part of the magnitude of a finite number: the significand
/// scaled by the unbiased exponent, with the fraction dropped.
pub open spec fn whole(x: Binary64) -> nat {
    if exponent(x) < 1023 {
        0
    } else if exponent(x) <= 1075 {
        (0x10_0000_0000_0000 + fraction(x)) as nat / pow2((1075 - exponent(x)) as nat)
    } else {
        (0x10_0000_0000_0000 + fraction(x)) as nat * pow2((exponent(x) - 1075) as nat)
    }
}

/// Conversion to an unsigned integer type whose largest value is `max`.
pub open spec fn saturated(x: Binary64, max: nat) -> nat {
    if is_nan(x) || is_negative(x) {
        0
    } else if !is_finite(x) || whole(x) > max {
        max
    } else {
        whole(x)
    }
}

impl Binary64 {
    pub fn finite(self) -> (r: bool)
        ensures
            r == is_finite(self),
    {
        (self.bits % 0x8000_0000_0000_0000) / 0x10_0000_0000_0000 != 2047
    }

    pub fn positive(self) -> (r: bool)
        ensures
            r == is_positive(self),
    {
        let e: u64 = (self.bits % 0x8000_0000_0000_0000) / 0x10_0000_0000_0000;
        let f: u64 = self.bits % 0x10_0000_0000_0000;
        !(e == 2047 && f != 0) && self.bits < 0x8000_0000_0000_0000 && (e != 0 || f != 0)
    }

    pub fn at_least_one(self) -> (r: bool)
        ensures
            r == is_at_least_one(self),
    {
        let e: u64 = (self.bits % 0x8000_0000_0000_0000) / 0x10_0000_0000_0000;
        let f: u64 = self.bits % 0x10_0000_0000_0000;
        !(e == 2047 && f != 0) && self.bits < 0x8000_0000_0000_0000 && e >= 1023
    }

    /// The number as a `u64`.
    pub fn to_u64(self) -> (r: u64)
        ensures
            r == saturated(self, u64::MAX as nat),
    {
        let e: u64 = (self.bits % 0x8000_0000_0000_0000) / 0x10_0000_0000_0000;
        let f: u64 = self.bits % 0x10_0000_0000_0000;
        if (e == 2047 && f != 0) || self.bits >= 0x8000_0000_0000_0000 || e < 1023 {
            return 0;
        }
        let m: u64 = 0x10_0000_0000_0000 + f;
        if e <= 1075 {
            let s: u64 = 1075 - e;
            proof {
                vstd::bits::lemma_u64_shr_is_div(m, s);
                vstd::arithmetic::power2::lemma_pow2_pos(s as nat);
                vstd::arithmetic::div_mod::lemma_div_is_ordered_by_denominator(
                    m as int,
                    1,
                    pow2(s as nat) as int,
                );
            }
            m >> s
        } else if e <= 1086 {
            let s: u64 = e - 1075;
            proof {
                lemma_scaled(m, s as nat);
                vstd::bits::lemma_u64_shl_is_mul(m, s);
            }
            m << s
        } else {
            if e != 2047 {
                proof {
                    lemma_large(m, (e - 1075) as nat);
                }
            }
            u64::MAX
        }
    }

    /// The number as a `u32`.
    pub fn to_u32(self) -> (r: u32)
        ensures
            r == saturated(self, u32::MAX as nat),
    {
        let n: u64 = self.to_u64();
        if n > u32::MAX as u64 {
            u32::MAX
        } else {
            n as u32
        }
    }

    /// The number as a `u16`.
    pub fn to_u16(self) -> (r: u16)
        ensures
            r == saturated(self, u16::MAX as nat),
    {
        let n: u64 = self.to_u64();
        if n > u16::MAX as u64 {
            u16::MAX
        } else {
            n as u16
        }
    }
}

proof fn lemma_scaled(m: u64, s: nat)
    requires
        m < 0x20_0000_0000_0000,
        s <= 11,
    ensures
        m * pow2(s) <= u64::MAX,
{
    vstd::arithmetic::power2::lemma2_to64();
    if s < 11 {
        vstd::arithmetic::power2::lemma_pow2_strictly_increases(s, 11);
    }
    let p = pow2(s) as int;
    assert(m * p <= u64::MAX) by (nonlinear_arith)
        requires
            m < 0x20_0000_0000_0000,
            0 <= p <= 2048,
    ;
}

proof fn lemma_large(m: u64, s: nat)
    requires
        m >= 0x10_0000_0000_0000,
        s >= 12,
    ensures
        m * pow2(s) > u64::MAX,
{
    vstd::arithmetic::power2::lemma2_to64();
    if s > 12 {
        vstd::arithmetic::power2::lemma_pow2_strictly_increases(12, s);
    }
    let p = pow2(s) as int;
    assert(m * p > u64::MAX) by (nonlinear_arith)
        requires
            m >= 0x10_0000_0000_0000,
            p >= 4096,
    ;
}

// ── laws ──

/// The bits are the sign, the exponent and the fraction, one after the other.
pub proof fn law_bits_are_sign_exponent_and_fraction(x: Binary64)
    ensures
        exponent(x) < 2048,
        fraction(x) < 0x10_0000_0000_0000,
        x.bits == (if is_negative(x) {
            0x8000_0000_0000_0000int
        } else {
            0
        }) + exponent(x) * 0x10_0000_0000_0000 + fraction(x),
{
}

/// The numbers that are not negative are ordered as their bits: above zero come the
/// positive ones, from one on those that are at least one, and infinity is the last.
pub proof fn law_bits_order_the_numbers(x: Binary64)
    ensures
        is_positive(x) <==> 0 < x.bits <= 0x7ff0_0000_0000_0000,
        is_at_least_one(x) <==> 0x3ff0_0000_0000_0000 <= x.bits <= 0x7ff0_0000_0000_0000,
        is_finite(x) <==> x.bits % 0x8000_0000_0000_0000 < 0x7ff0_0000_0000_0000,
        is_nan(x) <==> x.bits % 0x8000_0000_0000_0000 > 0x7ff0_0000_0000_0000,
{
}

/// A number that is not negative is `significand * 2^(exponent - 1075)`, and its
/// conversion is the greatest integer that is not above it, unless that is too
/// large.
pub proof fn law_conversion_drops_the_fraction(x: Binary64, max: nat)
    requires
        is_finite(x),
        !is_negative(x),
    ensures
        exponent(x) < 1023 ==> saturated(x, max) == 0,
        1023 <= exponent(x) <= 1075 && saturated(x, max) < max ==> {
            let unit = pow2((1075 - exponent(x)) as nat);
            let significand = 0x10_0000_0000_0000 + fraction(x);
            &&& saturated(x, max) * unit <= significand
            &&& significand < (saturated(x, max) + 1) * unit
        },
        exponent(x) >= 1075 && saturated(x, max) < max ==> saturated(x, max) == (
        0x10_0000_0000_0000 + fraction(x)) * pow2((exponent(x) - 1075) as nat),
        saturated(x, max) <= max,
        saturated(x, max) == max ==> whole(x) >= max,
{
    if 1023 <= exponent(x) <= 1075 && saturated(x, max) < max {
        let unit = pow2((1075 - exponent(x)) as nat) as int;
        let m = (0x10_0000_0000_0000 + fraction(x)) as int;
        vstd::arithmetic::power2::lemma_pow2_pos((1075 - exponent(x)) as nat);
        vstd::arithmetic::div_mod::lemma_fundamental_div_mod(m, unit);
        vstd::arithmetic::div_mod::lemma_mod_bound(m, unit);
        let q = m / unit;
        assert(q * unit == unit * q) by (nonlinear_arith);
        assert((q + 1) * unit == unit * q + unit) by (nonlinear_arith);
    }
    if exponent(x) == 1075 {
        vstd::arithmetic::power2::lemma2_to64();
    }
}

/// What is negative or not a number converts to zero, and infinity to the largest
/// value.
pub proof fn law_conversion_of_other_values(x: Binary64, max: nat)
    ensures
        is_negative(x) || is_nan(x) ==> saturated(x, max) == 0,
        !is_negative(x) && !is_nan(x) && !is_finite(x) ==> saturated(x, max) == max,
{
}

} // verus!
