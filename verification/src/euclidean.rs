//! The Euclidean algorithm and its extended form, on 64-bit integers.

use vstd::prelude::*;

verus! {

use vstd::math::abs;
use crate::number_theory::divides;
use crate::number_theory::gcd_nat;
use crate::number_theory::lemma_gcd_nat_divides;
use crate::number_theory::lemma_gcd_nat_greatest;
use crate::remainder::trunc_rem;
use crate::remainder::lemma_trunc_properties;
use crate::remainder::lemma_trunc_rem_small;
use crate::remainder::lemma_trunc_rem_same_magnitude;

/// The value the Euclidean algorithm computes when run with machine
/// remainders: repeatedly replace `(a, b)` by `(b, a % b)` until the second
/// entry is zero, then keep the first.  For non-negative inputs this is the
/// greatest common divisor itself; for negative inputs the magnitude is the
/// greatest common divisor of the magnitudes, the sign falling out of the
/// remainder sequence.
pub open spec fn euclid_gcd(a: int, b: int) -> int
    decreases abs(b),
    via euclid_gcd_decreases
{
    if b == 0 {
        a
    } else {
        euclid_gcd(b, trunc_rem(a, b))
    }
}

#[via_fn]
proof fn euclid_gcd_decreases(a: int, b: int) {
    if b != 0 {
        lemma_trunc_properties(a, b);
    }
}

/// The magnitude of `euclid_gcd` is the greatest common divisor of the
/// magnitudes of its arguments.
pub proof fn lemma_euclid_gcd_abs(a: int, b: int)
    ensures
        abs(euclid_gcd(a, b)) == gcd_nat(abs(a), abs(b)),
    decreases abs(b),
{
    if b != 0 {
        lemma_trunc_properties(a, b);
        lemma_euclid_gcd_abs(b, trunc_rem(a, b));
    }
}

/// On non-negative arguments the Euclidean algorithm computes `gcd_nat`.
pub proof fn lemma_euclid_gcd_nonneg(a: int, b: int)
    requires
        a >= 0,
        b >= 0,
    ensures
        euclid_gcd(a, b) == gcd_nat(a as nat, b as nat),
    decreases abs(b),
{
    if b != 0 {
        lemma_trunc_properties(a, b);
        lemma_euclid_gcd_nonneg(b, trunc_rem(a, b));
    }
}

/// An argument paired with zero comes back unchanged.
pub proof fn lemma_euclid_gcd_zero(n: int)
    ensures
        euclid_gcd(n, 0) == n,
        euclid_gcd(0, n) == n,
{
    if n != 0 {
        lemma_trunc_properties(0, n);
        assert(trunc_rem(0, n) == 0);
        assert(euclid_gcd(0, n) == euclid_gcd(n, 0));
    }
}

/// `divides` is insensitive to the signs of both of its arguments.
proof fn lemma_divides_signs(d: int, n: int)
    ensures
        divides(d, n) <==> divides(d, -n),
        divides(d, n) <==> divides(-d, n),
{
    if divides(d, n) {
        let k = choose|k: int| n == #[trigger] (d * k);
        assert(-n == d * (-k) && n == (-d) * (-k)) by (nonlinear_arith)
            requires
                n == d * k,
        ;
    }
    if divides(d, -n) {
        let k = choose|k: int| -n == #[trigger] (d * k);
        assert(n == d * (-k)) by (nonlinear_arith)
            requires
                -n == d * k,
        ;
    }
    if divides(-d, n) {
        let k = choose|k: int| n == #[trigger] ((-d) * k);
        assert(n == d * (-k)) by (nonlinear_arith)
            requires
                n == (-d) * k,
        ;
    }
}

/// A value divides an integer exactly when it divides its magnitude.
proof fn lemma_divides_abs(d: int, n: int)
    ensures
        divides(d, n) <==> divides(d, abs(n) as int),
        divides(d, n) <==> divides(abs(d) as int, n),
{
    lemma_divides_signs(d, n);
}

/// `euclid_gcd(a, b)` divides both arguments, and every common divisor of
/// the two divides it.
pub proof fn lemma_euclid_gcd_divides(a: int, b: int)
    ensures
        divides(euclid_gcd(a, b), a),
        divides(euclid_gcd(a, b), b),
        forall|d: int| #[trigger] divides(d, a) && divides(d, b) ==> divides(d, euclid_gcd(a, b)),
{
    let g = euclid_gcd(a, b);
    lemma_euclid_gcd_abs(a, b);
    lemma_gcd_nat_divides(abs(a), abs(b));
    lemma_divides_abs(abs(g) as int, a);
    lemma_divides_abs(abs(g) as int, b);
    lemma_divides_abs(g, a);
    lemma_divides_abs(g, b);
    assert forall|d: int| #[trigger] divides(d, a) && divides(d, b) implies divides(d, g) by {
        lemma_divides_abs(d, a);
        lemma_divides_abs(d, b);
        lemma_gcd_nat_greatest(abs(a), abs(b), d);
        lemma_divides_abs(d, g);
    }
}

/// Greatest common divisor by the Euclidean algorithm: repeatedly reduce the
/// pair `(a, b)` to `(b, a % b)` until the second entry is zero.
///
/// The two excluded pairs are exactly those on which the remainder operation
/// overflows: `i64::MIN % -1` is not representable.
pub fn gcd(a: i64, b: i64) -> (g: i64)
    requires
        !(a == i64::MIN && b == -1),
        !(a == -1 && b == i64::MIN),
    ensures
        g as int == euclid_gcd(a as int, b as int),
        abs(g as int) == gcd_nat(abs(a as int), abs(b as int)),
        divides(g as int, a as int),
        divides(g as int, b as int),
        forall|d: int|
            #[trigger] divides(d, a as int) && divides(d, b as int) ==> divides(d, g as int),
        a >= 0 && b >= 0 ==> g as int == gcd_nat(a as nat, b as nat),
        b == 0 ==> g == a,
        a == 0 ==> g == b,
{
    let mut x = a;
    let mut y = b;
    while y != 0
        invariant
            x == i64::MIN ==> y != -1,
            y == i64::MIN ==> x != -1,
            euclid_gcd(x as int, y as int) == euclid_gcd(a as int, b as int),
        decreases abs(y as int),
    {
        proof {
            lemma_trunc_properties(x as int, y as int);
            if y == i64::MIN {
                if x == i64::MIN {
                    lemma_trunc_rem_same_magnitude(x as int, y as int);
                } else {
                    lemma_trunc_rem_small(x as int, y as int);
                }
            }
        }
        let r = x % y;
        assert(r as int == trunc_rem(x as int, y as int));
        x = y;
        y = r;
    }
    proof {
        lemma_euclid_gcd_divides(a as int, b as int);
        lemma_euclid_gcd_abs(a as int, b as int);
        if a >= 0 && b >= 0 {
            lemma_euclid_gcd_nonneg(a as int, b as int);
        }
        lemma_euclid_gcd_zero(b as int);
    }
    x
}

} // verus!
