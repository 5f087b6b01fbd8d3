//! Exact reading of IEEE 754 binary32 bit patterns as rates.

use crate::error::PlanError;
use crate::fraction::{
    frac, gcd, lemma_frac_eq, lemma_frac_le, lemma_frac_whole, lemma_gcd_factors,
    lemma_unrepresentable, representable,
};
use crate::ratio::Ratio;
use vstd::arithmetic::power2::{
    lemma2_to64, lemma_pow2_adds, lemma_pow2_pos, lemma_pow2_strictly_increases,
    lemma_pow2_unfold, pow2,
};
use vstd::prelude::*;

verus! {

/// Whether the sign bit of the pattern is set.
pub open spec fn sign_bit(bits: u32) -> bool {
    bits >= 0x8000_0000
}

/// The eight-bit exponent field of the pattern.
pub open spec fn exponent_field(bits: u32) -> nat {
    ((bits / 0x80_0000) % 256) as nat
}

/// The 23-bit fraction field of the pattern.
pub open spec fn fraction_field(bits: u32) -> nat {
    (bits % 0x80_0000) as nat
}

/// Whether the pattern is a number: neither an infinity nor a NaN.
pub open spec fn is_finite(bits: u32) -> bool {
    exponent_field(bits) != 255
}

/// The integer significand: the fraction field, with the hidden bit for a
/// normal number.
pub open spec fn significand(bits: u32) -> nat {
    if exponent_field(bits) == 0 {
        fraction_field(bits)
    } else {
        0x80_0000 + fraction_field(bits)
    }
}

/// The power of two by which the significand is scaled.
pub open spec fn scale(bits: u32) -> int {
    if exponent_field(bits) == 0 {
        -149
    } else {
        exponent_field(bits) - 150
    }
}

/// The magnitude of a finite pattern: `significand * 2^scale`.
pub open spec fn magnitude(bits: u32) -> real {
    if scale(bits) >= 0 {
        frac((significand(bits) * pow2(scale(bits) as nat)) as int, 1)
    } else {
        frac(significand(bits) as int, pow2((-scale(bits)) as nat) as int)
    }
}

/// Whether the pattern is a finite number greater than zero whose value is
/// the quotient of two 64-bit integers.
pub open spec fn is_valid_rate(bits: u32) -> bool {
    &&& !sign_bit(bits)
    &&& is_finite(bits)
    &&& significand(bits) > 0
    &&& representable(magnitude(bits))
}

/// An odd number that divides a power of two is 1.
proof fn lemma_odd_divisor(g: nat, y: nat, k: nat)
    requires
        g % 2 == 1,
        g * y == pow2(k),
    ensures
        g == 1,
    decreases k,
{
    if k == 0 {
        lemma2_to64();
        assert(g == 1) by (nonlinear_arith)
            requires
                g * y == 1,
        ;
    } else {
        lemma_pow2_unfold(k);
        let a: nat = g / 2;
        assert(g * y == 2 * (a * y) + y) by (nonlinear_arith)
            requires
                g == 2 * a + 1,
        ;
        let h: nat = y / 2;
        assert(g * h == pow2((k - 1) as nat)) by (nonlinear_arith)
            requires
                y == 2 * h,
                g * y == 2 * pow2((k - 1) as nat),
        ;
        lemma_odd_divisor(g, h, (k - 1) as nat);
    }
}

/// An odd number shares no factor with a power of two.
proof fn lemma_odd_is_coprime(m: nat, k: nat)
    requires
        m % 2 == 1,
    ensures
        gcd(m, pow2(k)) == 1,
{
    let g: nat = gcd(m, pow2(k));
    let (x, y) = lemma_gcd_factors(m, pow2(k));
    let a: nat = g / 2;
    if g % 2 == 0 {
        assert(m == 2 * (a * x)) by (nonlinear_arith)
            requires
                m == g * x,
                g == 2 * a,
        ;
    }
    lemma_odd_divisor(g, y, k);
}

/// `pow2(128)` is one more than the largest 128-bit number.
proof fn lemma_pow2_128()
    ensures
        pow2(64) == 0x1_0000_0000_0000_0000,
        pow2(128) == 0x1_0000_0000_0000_0000_0000_0000_0000_0000,
{
    lemma2_to64();
    lemma_pow2_adds(64, 64);
    assert(pow2(64) * pow2(64) == 0x1_0000_0000_0000_0000_0000_0000_0000_0000)
        by (nonlinear_arith)
        requires
            pow2(64) == 0x1_0000_0000_0000_0000,
    ;
}

/// A pattern with a significand above zero has a magnitude above zero.
proof fn lemma_positive_magnitude(bits: u32)
    requires
        significand(bits) > 0,
    ensures
        magnitude(bits) > 0 as real,
{
    let m: int = significand(bits) as int;
    if scale(bits) >= 0 {
        let unit: int = pow2(scale(bits) as nat) as int;
        lemma_pow2_pos(scale(bits) as nat);
        assert(m * unit > 0) by (nonlinear_arith)
            requires
                m > 0,
                unit > 0,
        ;
        lemma_frac_le(0, 1, m * unit, 1);
        lemma_frac_whole(0);
    } else {
        let unit: int = pow2((-scale(bits)) as nat) as int;
        lemma_pow2_pos((-scale(bits)) as nat);
        lemma_frac_le(0, 1, m, unit);
        lemma_frac_whole(0);
    }
}

/// The power of two with exponent `k`.
pub fn pow2_u128(k: u32) -> (r: u128)
    requires
        k < 128,
    ensures
        r == pow2(k as nat),
{
    let mut r: u128 = 1;
    let mut i: u32 = 0;
    proof {
        lemma2_to64();
    }
    while i < k
        invariant
            i <= k,
            k < 128,
            r == pow2(i as nat),
        decreases k - i,
    {
        proof {
            lemma_pow2_unfold((i + 1) as nat);
            lemma_pow2_128();
            if i + 1 < 128 {
                lemma_pow2_strictly_increases((i + 1) as nat, 128);
            }
        }
        r = r * 2;
        i += 1;
    }
    r
}

/// Reads a binary32 bit pattern as a rate. The rate is the exact value of
/// the pattern; a pattern that is negative, zero, an infinity or a NaN, or
/// whose value is not the quotient of two 64-bit integers, is an invalid
/// rate.
pub fn rate_from_bits(bits: u32) -> (r: Result<Ratio, PlanError>)
    ensures
        r is Ok <==> is_valid_rate(bits),
        r matches Ok(x) ==> x.wf() && x@ == magnitude(bits) && x@ > 0 as real,
        r matches Err(e) ==> e == PlanError::InvalidRate,
{
    if bits >= 0x8000_0000 {
        return Err(PlanError::InvalidRate);
    }
    let e: u32 = (bits / 0x80_0000) % 256;
    let f: u32 = bits % 0x80_0000;
    if e == 255 {
        return Err(PlanError::InvalidRate);
    }
    let found = if e >= 150 {
        let up: u32 = e - 150;
        let m: u128 = 0x80_0000 + f as u128;
        let unit: u128 = pow2_u128(up);
        proof {
            lemma_pow2_128();
            lemma2_to64();
            lemma_pow2_adds(24, 104);
            if up < 104 {
                lemma_pow2_strictly_increases(up as nat, 104);
            }
            assert(m * unit < 0x1_0000_0000_0000_0000_0000_0000_0000_0000) by (nonlinear_arith)
                requires
                    0 <= m < 0x100_0000,
                    0 <= unit <= pow2(104),
                    0x100_0000 * pow2(104) == 0x1_0000_0000_0000_0000_0000_0000_0000_0000,
            ;
        }
        Ratio::from_wide(m * unit, 1)
    } else {
        let start: u32 = if e == 0 {
            149
        } else {
            150 - e
        };
        let first: u64 = if e == 0 {
            f as u64
        } else {
            0x80_0000 + f as u64
        };
        if first == 0 {
            return Err(PlanError::InvalidRate);
        }
        let mut m: u64 = first;
        let mut down: u32 = start;
        proof {
            lemma2_to64();
            assert(first == m * pow2((start - down) as nat)) by (nonlinear_arith)
                requires
                    first == m,
                    pow2((start - down) as nat) == 1,
            ;
        }
        while down > 0 && m % 2 == 0
            invariant
                0 < m <= first,
                down <= start,
                first == m * pow2((start - down) as nat),
            decreases down,
        {
            proof {
                lemma_pow2_unfold((start - down + 1) as nat);
                let half: nat = (m / 2) as nat;
                let unit: nat = pow2((start - down) as nat);
                assert(half * (2 * unit) == m * unit) by (nonlinear_arith)
                    requires
                        m == 2 * half,
                ;
            }
            m = m / 2;
            down = down - 1;
        }
        proof {
            let gone: nat = pow2((start - down) as nat);
            lemma_pow2_adds((start - down) as nat, down as nat);
            lemma_pow2_pos(down as nat);
            lemma_pow2_pos(start as nat);
            lemma_frac_eq(first as int, pow2(start as nat) as int, m as int, pow2(down as nat) as int);
            assert(first * pow2(down as nat) == m * pow2(start as nat)) by (nonlinear_arith)
                requires
                    first == m * gone,
                    gone * pow2(down as nat) == pow2(start as nat),
            ;
            assert(magnitude(bits) == frac(m as int, pow2(down as nat) as int));
        }
        if down >= 64 {
            proof {
                lemma_odd_is_coprime(m as nat, down as nat);
                lemma_pow2_128();
                if down > 64 {
                    lemma_pow2_strictly_increases(64, down as nat);
                }
                assert(pow2(down as nat) / 1 == pow2(down as nat));
                lemma_unrepresentable(m as nat, pow2(down as nat));
            }
            return Err(PlanError::InvalidRate);
        }
        let unit: u128 = pow2_u128(down);
        proof {
            lemma_pow2_128();
            lemma_pow2_strictly_increases(down as nat, 64);
            let n64: u64 = m;
            let d64: u64 = unit as u64;
            assert(d64 > 0 && magnitude(bits) == frac(n64 as int, d64 as int));
            assert(representable(magnitude(bits)));
        }
        Ratio::from_wide(m as u128, unit)
    };
    match found {
        None => Err(PlanError::InvalidRate),
        Some(x) => {
            proof {
                assert(significand(bits) > 0);
                lemma_positive_magnitude(bits);
            }
            Ok(x)
        },
    }
}

} // verus!
