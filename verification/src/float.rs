//! A floating-point number with total equality and a hash.

use vstd::prelude::*;
use vstd::arithmetic::power2::{lemma2_to64, lemma_pow2_strictly_increases, pow2};
use vstd::bits::{lemma_u64_shl_is_mul, lemma_u64_shr_is_div};
use crate::hasher::feed;

verus! {

/// A 64-bit floating-point number, held by its IEEE 754 bit pattern.
///
/// Two numbers are equal when their bit patterns are, so that a NaN equals
/// itself. The pattern can be read and written freely: every pattern is a
/// number.
#[derive(Clone, Copy, Debug, PartialEq, Eq, Structural)]
pub struct F64(pub u64);

/// The sign bit is set: the number is negative, or a negative zero or NaN.
pub open spec fn sign_bit(bits: u64) -> bool {
    bits >= 0x8000_0000_0000_0000
}

/// The biased exponent, 0 to 2047.
pub open spec fn exponent(bits: u64) -> int {
    (bits as int / 0x10_0000_0000_0000) % 0x800
}

/// The 52 fraction bits.
pub open spec fn fraction(bits: u64) -> int {
    bits as int % 0x10_0000_0000_0000
}

/// The number with the bit pattern `bits`, truncated toward zero to an
/// unsigned 64-bit integer.
///
/// A normal number is `(2^52 + fraction) * 2^(exponent - 1075)`. What is
/// negative or below one gives 0, a NaN gives 0, and what is too large,
/// infinity included, gives the largest integer.
pub open spec fn truncated(bits: u64) -> u64 {
    let e = exponent(bits);
    let m = 0x10_0000_0000_0000 + fraction(bits);
    if sign_bit(bits) || e < 1023 {
        0
    } else if e == 2047 {
        if fraction(bits) == 0 {
            u64::MAX
        } else {
            0
        }
    } else if e >= 1087 {
        u64::MAX
    } else if e >= 1075 {
        (m * pow2((e - 1075) as nat)) as u64
    } else {
        (m / pow2((1075 - e) as nat) as int) as u64
    }
}

impl F64 {
    /// The number truncated toward zero to an unsigned integer, saturating
    /// at both ends; the hash of the number is the hash of this integer, so
    /// that numbers which differ only behind the point share a hash.
    pub fn truncate(self) -> (r: u64)
        ensures
            r == truncated(self.0),
    {
        let bits: u64 = self.0;
        let e: u64 = (bits >> 52) & 0x7ff;
        let f: u64 = bits & 0xf_ffff_ffff_ffff;
        assert(e == (bits / 0x10_0000_0000_0000) % 0x800) by (bit_vector)
            requires
                e == (bits >> 52) & 0x7ff,
        ;
        assert(f == bits % 0x10_0000_0000_0000) by (bit_vector)
            requires
                f == bits & 0xf_ffff_ffff_ffff,
        ;
        assert((bits >> 63 != 0) == (bits >= 0x8000_0000_0000_0000)) by (bit_vector);
        if bits >> 63 != 0 || e < 1023 {
            0
        } else if e == 2047 {
            if f == 0 {
                u64::MAX
            } else {
                0
            }
        } else if e >= 1087 {
            u64::MAX
        } else {
            let m: u64 = f + 0x10_0000_0000_0000;
            if e >= 1075 {
                let shift: u64 = e - 1075;
                proof {
                    lemma2_to64();
                    if shift < 11 {
                        lemma_pow2_strictly_increases(shift as nat, 11);
                    }
                    let p: int = pow2(shift as nat) as int;
                    assert(m * p <= u64::MAX) by (nonlinear_arith)
                        requires
                            0 <= m < 0x20_0000_0000_0000,
                            0 <= p <= 0x800,
                    ;
                    lemma_u64_shl_is_mul(m, shift);
                }
                m << shift
            } else {
                let shift: u64 = 1075 - e;
                proof {
                    lemma_u64_shr_is_div(m, shift);
                }
                m >> shift
            }
        }
    }
}

impl core::hash::Hash for F64 {
    /// Feeds the truncated number to the hasher.
    fn hash<S: core::hash::Hasher>(&self, state: &mut S) {
        feed(state, self.truncate());
    }
}

} // verus!
