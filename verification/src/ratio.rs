//! Exact non-negative rational numbers in lowest terms.

use crate::fraction::{
    frac, gcd, gcd_u128, lemma_frac_eq, lemma_frac_le, lemma_frac_whole, lemma_lowest_terms,
    lemma_product_fits, lemma_reduced_is_lowest, lemma_unrepresentable, representable,
};
use vstd::prelude::*;

verus! {

/// A non-negative rational number, kept in lowest terms with a positive
/// denominator, so that equal values have equal representations.
#[derive(Clone, Copy, Debug, PartialEq, Eq, Structural)]
pub struct Ratio {
    num: u64,
    den: u64,
}

impl View for Ratio {
    type V = real;

    /// The value of the ratio as a real number.
    open spec fn view(&self) -> real {
        frac(self.spec_numer() as int, self.spec_denom() as int)
    }
}

impl Ratio {
    /// The numerator.
    pub closed spec fn spec_numer(self) -> u64 {
        self.num
    }

    /// The denominator.
    pub closed spec fn spec_denom(self) -> u64 {
        self.den
    }

    /// The denominator is positive and shares no factor with the numerator.
    #[verifier::type_invariant]
    pub open spec fn wf(self) -> bool {
        &&& self.spec_denom() > 0
        &&& gcd(self.spec_numer() as nat, self.spec_denom() as nat) == 1
    }

    /// Two well-formed ratios of the same value are the same ratio.
    pub proof fn lemma_canonical(self, other: Ratio)
        requires
            self.wf(),
            other.wf(),
            self@ == other@,
        ensures
            self == other,
    {
        let a: nat = self.num as nat;
        let b: nat = self.den as nat;
        let c: nat = other.num as nat;
        let d: nat = other.den as nat;
        lemma_frac_eq(a as int, b as int, c as int, d as int);
        lemma_lowest_terms(a, b, c, d);
        assert(c == a && d == b) by (nonlinear_arith)
            requires
                c == 1 * a,
                d == 1 * b,
        ;
    }

    /// The ratio `num / den` in lowest terms; `None` exactly when `den` is 0.
    pub fn new(num: u64, den: u64) -> (r: Option<Ratio>)
        ensures
            r is None <==> den == 0,
            r matches Some(x) ==> x.wf() && x@ == frac(num as int, den as int),
            r matches Some(x) ==> x.spec_numer() == num as nat / gcd(num as nat, den as nat)
                && x.spec_denom() == den as nat / gcd(num as nat, den as nat),
    {
        if den == 0 {
            return None;
        }
        let g: u128 = gcd_u128(num as u128, den as u128);
        proof {
            lemma_reduced_is_lowest(num as nat, den as nat);
            let n2: nat = num as nat / g as nat;
            let d2: nat = den as nat / g as nat;
            assert(n2 <= num && d2 <= den) by (nonlinear_arith)
                requires
                    g > 0,
                    num == g * n2,
                    den == g * d2,
            ;
            lemma_frac_eq(n2 as int, d2 as int, num as int, den as int);
            assert(n2 * den == num * d2) by (nonlinear_arith)
                requires
                    num == g * n2,
                    den == g * d2,
            ;
        }
        let n: u64 = (num as u128 / g) as u64;
        let d: u64 = (den as u128 / g) as u64;
        Some(Ratio { num: n, den: d })
    }

    /// The whole number `n`.
    pub fn from_integer(n: u64) -> (r: Ratio)
        ensures
            r.wf(),
            r.spec_numer() == n,
            r.spec_denom() == 1,
            r@ == n as real,
    {
        proof {
            assert(gcd(n as nat, 1) == 1) by {
                assert(n as nat % 1 == 0);
                assert(gcd(1, 0) == 1);
            }
            lemma_frac_whole(n as int);
        }
        Ratio { num: n, den: 1 }
    }

    /// The ratio `n / d` of two wide integers in lowest terms. `None` exactly
    /// when `d` is 0 or no pair of 64-bit integers has that quotient.
    pub fn from_wide(n: u128, d: u128) -> (r: Option<Ratio>)
        ensures
            r is None <==> d == 0 || !representable(frac(n as int, d as int)),
            r matches Some(x) ==> x.wf() && x@ == frac(n as int, d as int),
            r matches Some(x) ==> x.spec_numer() == n as nat / gcd(n as nat, d as nat)
                && x.spec_denom() == d as nat / gcd(n as nat, d as nat),
    {
        if d == 0 {
            return None;
        }
        let g: u128 = gcd_u128(n, d);
        proof {
            lemma_reduced_is_lowest(n as nat, d as nat);
        }
        let n2: u128 = n / g;
        let d2: u128 = d / g;
        if n2 > u64::MAX as u128 || d2 > u64::MAX as u128 {
            proof {
                lemma_unrepresentable(n as nat, d as nat);
            }
            None
        } else {
            let x = Ratio { num: n2 as u64, den: d2 as u64 };
            proof {
                lemma_frac_eq(n2 as int, d2 as int, n as int, d as int);
                assert(n2 * d == n * d2) by (nonlinear_arith)
                    requires
                        n == g * n2,
                        d == g * d2,
                ;
                assert(x@ == frac(x.num as int, x.den as int));
            }
            Some(x)
        }
    }

    /// The numerator of the lowest terms.
    #[verifier::when_used_as_spec(spec_numer)]
    pub fn numer(self) -> (n: u64)
        ensures
            n == self.spec_numer(),
    {
        self.num
    }

    /// The denominator of the lowest terms; never 0.
    #[verifier::when_used_as_spec(spec_denom)]
    pub fn denom(self) -> (d: u64)
        ensures
            d == self.spec_denom(),
            d > 0,
    {
        proof {
            use_type_invariant(&self);
        }
        self.den
    }

    /// Whether the value is greater than zero.
    pub fn is_positive(self) -> (b: bool)
        ensures
            b == (self@ > 0 as real),
            b == (self.spec_numer() > 0),
    {
        proof {
            use_type_invariant(&self);
            lemma_frac_le(0, 1, self.num as int, self.den as int);
            lemma_frac_whole(0);
        }
        self.num > 0
    }

    /// Whether `self` is at most `other`.
    pub fn le(self, other: Ratio) -> (b: bool)
        ensures
            b == (self@ <= other@),
    {
        proof {
            use_type_invariant(&self);
            use_type_invariant(&other);
            lemma_frac_le(self.num as int, self.den as int, other.num as int, other.den as int);
            lemma_product_fits(self.num, other.den);
            lemma_product_fits(other.num, self.den);
        }
        self.num as u128 * other.den as u128 <= other.num as u128 * self.den as u128
    }
}

} // verus!
