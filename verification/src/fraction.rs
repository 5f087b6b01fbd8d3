//! Greatest common divisors and exact fractions of integers, read as reals.

use vstd::arithmetic::div_mod::{lemma_fundamental_div_mod, lemma_truncate_middle};
use vstd::prelude::*;

verus! {

/// The greatest common divisor, by Euclid's recurrence. `gcd(0, 0)` is 0.
pub open spec fn gcd(a: nat, b: nat) -> nat
    decreases b,
{
    if b == 0 {
        a
    } else {
        gcd(b, a % b)
    }
}

/// The quotient `n / d` as a real number.
pub open spec fn frac(n: int, d: int) -> real {
    n as real / d as real
}

/// A real is representable when it is the quotient of two 64-bit unsigned
/// integers, the second of them positive.
pub open spec fn representable(x: real) -> bool {
    exists|n: u64, d: u64| d > 0 && x == #[trigger] frac(n as int, d as int)
}

/// `gcd(a, b)` divides both of its arguments; the cofactors are returned.
pub proof fn lemma_gcd_factors(a: nat, b: nat) -> (w: (nat, nat))
    ensures
        a == gcd(a, b) * w.0,
        b == gcd(a, b) * w.1,
    decreases b,
{
    if b == 0 {
        (1, 0)
    } else {
        let q: nat = a / b;
        let r: nat = a % b;
        let (x, y) = lemma_gcd_factors(b, r);
        let g: nat = gcd(b, r);
        lemma_fundamental_div_mod(a as int, b as int);
        assert(a == g * (x * q + y)) by (nonlinear_arith)
            requires
                a == b * q + r,
                b == g * x,
                r == g * y,
        ;
        (x * q + y, x)
    }
}

/// The greatest common divisor of two numbers that are not both zero is
/// positive.
pub proof fn lemma_gcd_positive(a: nat, b: nat)
    requires
        a > 0 || b > 0,
    ensures
        gcd(a, b) > 0,
    decreases b,
{
    if b != 0 {
        lemma_gcd_positive(b, a % b);
    }
}

/// A common factor can be pulled out of a greatest common divisor.
pub proof fn lemma_gcd_scale(k: nat, a: nat, b: nat)
    requires
        k > 0,
    ensures
        gcd(k * a, k * b) == k * gcd(a, b),
    decreases b,
{
    if b == 0 {
        assert(k * b == 0) by (nonlinear_arith)
            requires
                b == 0,
        ;
    } else {
        lemma_truncate_middle(a as int, k as int, b as int);
        assert(k * b > 0);
        assert((k * a) % (k * b) == k * (a % b));
        lemma_gcd_scale(k, b, a % b);
    }
}

/// A fraction in lowest terms has the least numerator and denominator among
/// the fractions of its value: every other one is a common multiple of it.
pub proof fn lemma_lowest_terms(a: nat, b: nat, c: nat, d: nat)
    requires
        b > 0,
        d > 0,
        gcd(a, b) == 1,
        a * d == c * b,
    ensures
        gcd(c, d) >= 1,
        c == gcd(c, d) * a,
        d == gcd(c, d) * b,
{
    let k: nat = gcd(c, d);
    lemma_gcd_positive(c, d);
    lemma_gcd_scale(d, a, b);
    lemma_gcd_scale(b, c, d);
    assert(d * a == b * c && d * b == b * d) by (nonlinear_arith)
        requires
            a * d == c * b,
    ;
    assert(d == b * k) by (nonlinear_arith)
        requires
            d * 1 == b * k,
    ;
    assert(c == k * a && d == k * b) by (nonlinear_arith)
        requires
            b > 0,
            d == b * k,
            a * d == c * b,
    ;
}

/// Dividing both parts of a fraction by their greatest common divisor
/// leaves a fraction in lowest terms.
pub proof fn lemma_reduced_is_lowest(n: nat, d: nat)
    requires
        d > 0,
    ensures
        gcd(n, d) > 0,
        n == gcd(n, d) * (n / gcd(n, d)),
        d == gcd(n, d) * (d / gcd(n, d)),
        d / gcd(n, d) > 0,
        gcd(n / gcd(n, d), d / gcd(n, d)) == 1,
{
    let g: nat = gcd(n, d);
    lemma_gcd_positive(n, d);
    let (x, y) = lemma_gcd_factors(n, d);
    assert(n / g == x && d / g == y) by (nonlinear_arith)
        requires
            g > 0,
            n == g * x,
            d == g * y,
    ;
    assert(y > 0) by (nonlinear_arith)
        requires
            d > 0,
            d == g * y,
    ;
    lemma_gcd_scale(g, x, y);
    assert(gcd(x, y) == 1) by (nonlinear_arith)
        requires
            g > 0,
            g == g * gcd(x, y),
    ;
}

/// Two fractions with positive denominators are equal exactly when their
/// cross products are.
pub proof fn lemma_frac_eq(a: int, b: int, c: int, d: int)
    requires
        b > 0,
        d > 0,
    ensures
        (frac(a, b) == frac(c, d)) <==> (a * d == c * b),
{
    assert((a * d) as real == a as real * d as real) by (nonlinear_arith);
    assert((c * b) as real == c as real * b as real) by (nonlinear_arith);
    assert((a as real / b as real == c as real / d as real) <==> (a as real * d as real
        == c as real * b as real)) by (nonlinear_arith)
        requires
            b > 0,
            d > 0,
    ;
}

/// Two fractions with positive denominators are ordered as their cross
/// products are.
pub proof fn lemma_frac_le(a: int, b: int, c: int, d: int)
    requires
        b > 0,
        d > 0,
    ensures
        (frac(a, b) <= frac(c, d)) <==> (a * d <= c * b),
        (frac(a, b) < frac(c, d)) <==> (a * d < c * b),
{
    assert((a * d) as real == a as real * d as real) by (nonlinear_arith);
    assert((c * b) as real == c as real * b as real) by (nonlinear_arith);
    assert((a as real / b as real <= c as real / d as real) <==> (a as real * d as real
        <= c as real * b as real)) by (nonlinear_arith)
        requires
            b > 0,
            d > 0,
    ;
    lemma_frac_eq(a, b, c, d);
}

/// A fraction over 1 is its numerator.
pub proof fn lemma_frac_whole(n: int)
    ensures
        frac(n, 1) == n as real,
{
    assert(n as real / 1 as real == n as real) by (nonlinear_arith);
}

/// The product of two 64-bit numbers fits in 128 bits.
pub proof fn lemma_product_fits(x: u64, y: u64)
    ensures
        x * y <= u128::MAX,
{
    assert(x * y <= 0xffff_ffff_ffff_ffff * 0xffff_ffff_ffff_ffff) by (nonlinear_arith)
        requires
            0 <= x <= 0xffff_ffff_ffff_ffff,
            0 <= y <= 0xffff_ffff_ffff_ffff,
    ;
}

/// The product of two fractions.
pub proof fn lemma_frac_mul(a: int, b: int, c: int, d: int)
    requires
        b != 0,
        d != 0,
    ensures
        b * d != 0,
        frac(a, b) * frac(c, d) == frac(a * c, b * d),
{
    assert(b * d != 0) by (nonlinear_arith)
        requires
            b != 0,
            d != 0,
    ;
    assert((a * c) as real == a as real * c as real) by (nonlinear_arith);
    assert((b * d) as real == b as real * d as real) by (nonlinear_arith);
    assert((a as real / b as real) * (c as real / d as real) == (a as real * c as real) / (
    b as real * d as real)) by (nonlinear_arith)
        requires
            b != 0,
            d != 0,
    ;
}

/// The quotient of two fractions.
pub proof fn lemma_frac_div(a: int, b: int, c: int, d: int)
    requires
        b != 0,
        c != 0,
        d != 0,
    ensures
        b * c != 0,
        frac(a, b) / frac(c, d) == frac(a * d, b * c),
{
    assert(b * c != 0) by (nonlinear_arith)
        requires
            b != 0,
            c != 0,
    ;
    assert((a * d) as real == a as real * d as real) by (nonlinear_arith);
    assert((b * c) as real == b as real * c as real) by (nonlinear_arith);
    assert((a as real / b as real) / (c as real / d as real) == (a as real * d as real) / (
    b as real * c as real)) by (nonlinear_arith)
        requires
            b != 0,
            c != 0,
            d != 0,
    ;
}

/// A fraction whose lowest terms do not fit in 64 bits is not representable.
pub proof fn lemma_unrepresentable(n: nat, d: nat)
    requires
        d > 0,
        n / gcd(n, d) > u64::MAX || d / gcd(n, d) > u64::MAX,
    ensures
        !representable(frac(n as int, d as int)),
{
    let g: nat = gcd(n, d);
    let a: nat = n / g;
    let b: nat = d / g;
    lemma_reduced_is_lowest(n, d);
    assert forall|x: u64, y: u64| y > 0 implies frac(n as int, d as int) != #[trigger] frac(
        x as int,
        y as int,
    ) by {
        if frac(n as int, d as int) == frac(x as int, y as int) {
            lemma_frac_eq(n as int, d as int, x as int, y as int);
            assert(a * y == x * b) by (nonlinear_arith)
                requires
                    g > 0,
                    n == g * a,
                    d == g * b,
                    n * y == x * d,
            ;
            lemma_lowest_terms(a, b, x as nat, y as nat);
            let k: nat = gcd(x as nat, y as nat);
            assert(x >= a && y >= b) by (nonlinear_arith)
                requires
                    k >= 1,
                    x == k * a,
                    y == k * b,
            ;
        }
    }
}

/// Euclid's algorithm.
pub fn gcd_u128(a: u128, b: u128) -> (g: u128)
    ensures
        g == gcd(a as nat, b as nat),
{
    let mut x: u128 = a;
    let mut y: u128 = b;
    while y != 0
        invariant
            gcd(x as nat, y as nat) == gcd(a as nat, b as nat),
        decreases y,
    {
        let r: u128 = x % y;
        x = y;
        y = r;
    }
    x
}

} // verus!
