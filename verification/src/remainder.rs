//! Truncating division and remainder, as machine integers compute them,
//! related to the Euclidean `/` and `%` of specifications.

use vstd::prelude::*;

verus! {

use vstd::arithmetic::div_mod::lemma_fundamental_div_mod;
use vstd::arithmetic::div_mod::lemma_mod_bound;
use vstd::arithmetic::div_mod::lemma_div_nonincreasing;
use vstd::arithmetic::div_mod::lemma_div_pos_is_pos;
use vstd::arithmetic::div_mod::lemma_small_mod;
use vstd::arithmetic::div_mod::lemma_mod_self_0;
use vstd::math::abs;

/// The quotient that machine division computes: the exact quotient rounded
/// toward zero.
pub open spec fn trunc_div(a: int, b: int) -> int {
    if a >= 0 {
        a / b
    } else {
        -((-a) / b)
    }
}

/// The remainder that machine `%` computes: it carries the sign of `a` and
/// satisfies `a == b * trunc_div(a, b) + trunc_rem(a, b)`.
pub open spec fn trunc_rem(a: int, b: int) -> int {
    if a >= 0 {
        a % b
    } else {
        -((-a) % b)
    }
}

/// Euclidean division and remainder depend on the divisor only through its
/// magnitude, up to the sign of the quotient.
proof fn lemma_neg_divisor(x: int, m: int)
    requires
        m < 0,
    ensures
        x % m == x % (-m),
        x / m == -(x / (-m)),
{
    let p = -m;
    lemma_fundamental_div_mod(x, m);
    lemma_fundamental_div_mod(x, p);
    lemma_mod_bound(x, p);
    assert(0 <= x % m && x % m < p) by (nonlinear_arith)
        requires
            m < 0,
            p == -m,
    ;
    let q1 = x / m;
    let r1 = x % m;
    let q2 = x / p;
    let r2 = x % p;
    assert(r1 == r2 && q1 == -q2) by (nonlinear_arith)
        requires
            x == m * q1 + r1,
            x == p * q2 + r2,
            0 <= r1 < p,
            0 <= r2 < p,
            p == -m,
            m < 0,
    ;
}

/// What machine division and remainder return, stated over the Euclidean
/// operations: the two together reconstruct `a`, the remainder is smaller
/// in magnitude than `b`, carries the sign of `a`, and its magnitude is the
/// Euclidean remainder of the magnitudes; the quotient is no larger in
/// magnitude than `a`.
pub proof fn lemma_trunc_properties(a: int, b: int)
    requires
        b != 0,
    ensures
        a == b * trunc_div(a, b) + trunc_rem(a, b),
        abs(trunc_rem(a, b)) < abs(b),
        abs(trunc_rem(a, b)) == abs(a) % abs(b),
        a >= 0 ==> trunc_rem(a, b) >= 0,
        a <= 0 ==> trunc_rem(a, b) <= 0,
        abs(trunc_div(a, b)) <= abs(a),
{
    let n = if a >= 0 {
        a
    } else {
        -a
    };
    let p = if b > 0 {
        b
    } else {
        -b
    };
    if b < 0 {
        lemma_neg_divisor(n, b);
    }
    lemma_fundamental_div_mod(n, p);
    lemma_mod_bound(n, p);
    lemma_div_nonincreasing(n, p);
    lemma_div_pos_is_pos(n, p);
    assert(n == p * (n / p) + n % p);
    assert(0 <= n / p <= n);
    if a >= 0 {
        if b > 0 {
        } else {
            assert(trunc_div(a, b) == -(n / p));
            assert(trunc_rem(a, b) == n % p);
            assert(b * (-(n / p)) == p * (n / p)) by (nonlinear_arith)
                requires
                    b == -p,
            ;
        }
    } else {
        if b > 0 {
            assert(trunc_div(a, b) == -(n / p));
            assert(trunc_rem(a, b) == -(n % p));
            assert(b * (-(n / p)) == -(p * (n / p))) by (nonlinear_arith)
                requires
                    b == p,
            ;
        } else {
            assert(trunc_div(a, b) == n / p);
            assert(trunc_rem(a, b) == -(n % p));
            assert(b * (n / p) == -(p * (n / p))) by (nonlinear_arith)
                requires
                    b == -p,
            ;
        }
    }
}

/// A dividend smaller in magnitude than the divisor is its own remainder.
pub proof fn lemma_trunc_rem_small(a: int, b: int)
    requires
        b != 0,
        abs(a) < abs(b),
    ensures
        trunc_rem(a, b) == a,
{
    lemma_trunc_properties(a, b);
    lemma_small_mod(abs(a), abs(b));
}

/// Equal magnitudes divide evenly: the remainder is zero.
pub proof fn lemma_trunc_rem_same_magnitude(a: int, b: int)
    requires
        b != 0,
        abs(a) == abs(b),
    ensures
        trunc_rem(a, b) == 0,
{
    lemma_trunc_properties(a, b);
    lemma_mod_self_0(abs(b) as int);
}

} // verus!
