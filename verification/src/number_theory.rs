//! Divisibility and the greatest common divisor of natural numbers.

use vstd::prelude::*;

verus! {

use vstd::arithmetic::div_mod::lemma_fundamental_div_mod;
use vstd::arithmetic::div_mod::lemma_mod_division_less_than_divisor;
use vstd::arithmetic::div_mod::lemma_small_mod;

/// `d` divides `n`: some integer multiple of `d` equals `n`.
pub open spec fn divides(d: int, n: int) -> bool {
    exists|k: int| n == #[trigger] (d * k)
}

/// The greatest common divisor of two natural numbers, by Euclid's
/// recurrence: `gcd(a, 0) == a` and `gcd(a, b) == gcd(b, a % b)` otherwise.
pub open spec fn gcd_nat(a: nat, b: nat) -> nat
    decreases b,
{
    if b == 0 {
        a
    } else {
        gcd_nat(b, a % b)
    }
}

/// A divisor of `x` and `y` divides every integer linear combination of them.
pub proof fn lemma_divides_linear(d: int, x: int, y: int, p: int, q: int)
    requires
        divides(d, x),
        divides(d, y),
    ensures
        divides(d, p * x + q * y),
{
    let kx = choose|k: int| x == #[trigger] (d * k);
    let ky = choose|k: int| y == #[trigger] (d * k);
    assert(p * x + q * y == d * (p * kx + q * ky)) by (nonlinear_arith)
        requires
            x == d * kx,
            y == d * ky,
    ;
}

/// A divisor of a positive integer does not exceed it.
pub proof fn lemma_divides_le(d: int, n: int)
    requires
        divides(d, n),
        n > 0,
    ensures
        d <= n,
{
    let k = choose|k: int| n == #[trigger] (d * k);
    assert(d <= n) by (nonlinear_arith)
        requires
            n == d * k,
            n > 0,
    ;
}

/// `gcd_nat(a, b)` divides both `a` and `b`.
pub proof fn lemma_gcd_nat_divides(a: nat, b: nat)
    ensures
        divides(gcd_nat(a, b) as int, a as int),
        divides(gcd_nat(a, b) as int, b as int),
    decreases b,
{
    let g = gcd_nat(a, b) as int;
    if b == 0 {
        assert(a as int == g * 1);
        assert(b as int == g * 0);
    } else {
        lemma_mod_division_less_than_divisor(a as int, b as int);
        lemma_gcd_nat_divides(b, a % b);
        lemma_fundamental_div_mod(a as int, b as int);
        let q = a as int / b as int;
        lemma_divides_linear(g, b as int, (a % b) as int, q, 1);
        assert(q * (b as int) + 1 * ((a % b) as int) == a as int);
    }
}

/// Every common divisor of `a` and `b` divides `gcd_nat(a, b)`.
pub proof fn lemma_gcd_nat_greatest(a: nat, b: nat, d: int)
    requires
        divides(d, a as int),
        divides(d, b as int),
    ensures
        divides(d, gcd_nat(a, b) as int),
    decreases b,
{
    if b != 0 {
        lemma_mod_division_less_than_divisor(a as int, b as int);
        lemma_fundamental_div_mod(a as int, b as int);
        let q = a as int / b as int;
        lemma_divides_linear(d, a as int, b as int, 1, -q);
        assert((-q) * (b as int) == -(b as int * q)) by (nonlinear_arith);
        assert(1 * (a as int) + (-q) * (b as int) == (a % b) as int);
        lemma_gcd_nat_greatest(b, a % b, d);
    }
}

/// The greatest common divisor is positive unless both arguments are zero.
pub proof fn lemma_gcd_nat_zero_only(a: nat, b: nat)
    requires
        a != 0 || b != 0,
    ensures
        gcd_nat(a, b) > 0,
    decreases b,
{
    if b == 0 {
    } else {
        lemma_mod_division_less_than_divisor(a as int, b as int);
        lemma_gcd_nat_zero_only(b, a % b);
    }
}

/// The base cases of the recurrence: a greatest common divisor with zero
/// is the other argument.
pub proof fn lemma_gcd_nat_zero(n: nat)
    ensures
        gcd_nat(n, 0) == n,
        gcd_nat(0, n) == n,
{
    if n != 0 {
        lemma_small_mod(0, n);
        assert(gcd_nat(0, n) == gcd_nat(n, 0));
    }
}

/// The greatest common divisor does not depend on the order of its arguments.
pub proof fn lemma_gcd_nat_sym(a: nat, b: nat)
    ensures
        gcd_nat(a, b) == gcd_nat(b, a),
{
    let g1 = gcd_nat(a, b);
    let g2 = gcd_nat(b, a);
    lemma_gcd_nat_divides(a, b);
    lemma_gcd_nat_divides(b, a);
    lemma_gcd_nat_greatest(b, a, g1 as int);
    lemma_gcd_nat_greatest(a, b, g2 as int);
    if g1 == 0 || g2 == 0 {
        assert(forall|n: int| divides(0, n) ==> n == #[trigger] (0 * n));
    } else {
        lemma_divides_le(g1 as int, g2 as int);
        lemma_divides_le(g2 as int, g1 as int);
    }
}

/// `gcd_nat(a, b)` divides both arguments; every common divisor divides it;
/// and, unless both arguments are zero, no common divisor exceeds it.
pub proof fn lemma_gcd_nat_is_greatest_common_divisor(a: nat, b: nat)
    ensures
        divides(gcd_nat(a, b) as int, a as int),
        divides(gcd_nat(a, b) as int, b as int),
        forall|d: int|
            #[trigger] divides(d, a as int) && divides(d, b as int) ==> divides(
                d,
                gcd_nat(a, b) as int,
            ),
        a != 0 || b != 0 ==> forall|d: int|
            #[trigger] divides(d, a as int) && divides(d, b as int) ==> d <= gcd_nat(a, b),
{
    lemma_gcd_nat_divides(a, b);
    assert forall|d: int| #[trigger] divides(d, a as int) && divides(d, b as int) implies divides(
        d,
        gcd_nat(a, b) as int,
    ) by {
        lemma_gcd_nat_greatest(a, b, d);
    }
    if a != 0 || b != 0 {
        lemma_gcd_nat_zero_only(a, b);
        assert forall|d: int| #[trigger] divides(d, a as int) && divides(d, b as int) implies d
            <= gcd_nat(a, b) by {
            lemma_gcd_nat_greatest(a, b, d);
            lemma_divides_le(d, gcd_nat(a, b) as int);
        }
    }
}

} // verus!
