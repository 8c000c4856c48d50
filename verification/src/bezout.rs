//! The extended Euclidean algorithm: Bezout coefficients alongside the
//! greatest common divisor.

use vstd::prelude::*;

verus! {

use vstd::math::abs;
use crate::euclidean::euclid_gcd;
use crate::euclidean::lemma_euclid_gcd_abs;
use crate::euclidean::lemma_euclid_gcd_nonneg;
use crate::number_theory::gcd_nat;
use crate::remainder::trunc_div;
use crate::remainder::trunc_rem;
use crate::remainder::lemma_trunc_properties;

/// The triple `(g, x, y)` that the extended Euclidean algorithm returns for
/// the pair `(a, b)`: `g` is the value of the Euclidean algorithm itself and
/// `a * x + b * y == g`.  When `b` is zero the answer is immediate; otherwise
/// the coefficients for `(b, a % b)` are rewound through one division step.
pub open spec fn eea_spec(a: int, b: int) -> (int, int, int)
    decreases abs(b),
    via eea_spec_decreases
{
    if b == 0 {
        (a, 1, 0)
    } else {
        let (g, u, v) = eea_spec(b, trunc_rem(a, b));
        (g, v, u - trunc_div(a, b) * v)
    }
}

#[via_fn]
proof fn eea_spec_decreases(a: int, b: int) {
    if b != 0 {
        lemma_trunc_properties(a, b);
    }
}

/// The Bezout identity: the triple `(g, x, y)` of `eea_spec(a, b)` satisfies
/// `a * x + b * y == g` exactly, and `g` is the value the plain Euclidean
/// algorithm computes for the same pair.
pub proof fn lemma_eea_spec_bezout(a: int, b: int)
    ensures
        a * eea_spec(a, b).1 + b * eea_spec(a, b).2 == eea_spec(a, b).0,
        eea_spec(a, b).0 == euclid_gcd(a, b),
    decreases abs(b),
{
    if b == 0 {
    } else {
        lemma_trunc_properties(a, b);
        let r = trunc_rem(a, b);
        let q = trunc_div(a, b);
        lemma_eea_spec_bezout(b, r);
        let (g, u, v) = eea_spec(b, r);
        assert(a * v + b * (u - q * v) == b * u + r * v) by (nonlinear_arith)
            requires
                a == b * q + r,
        ;
    }
}

/// The base cases: with a zero argument no division step runs, and the
/// coefficients are the identities the algorithm starts from.
pub proof fn lemma_eea_spec_zero(n: int)
    ensures
        eea_spec(n, 0) == (n, 1int, 0int),
        n != 0 ==> eea_spec(0, n) == (n, 0int, 1int),
{
    if n != 0 {
        lemma_trunc_properties(0, n);
        assert(trunc_div(0, n) == 0);
        assert(trunc_rem(0, n) == 0);
        assert(eea_spec(n, 0) == (n, 1int, 0int));
        assert(eea_spec(0, n) == (eea_spec(n, 0).0, eea_spec(n, 0).2, eea_spec(n, 0).1 - 0 * eea_spec(n, 0).2));
    }
}

/// A product is bounded in magnitude by the product of the bounds.
proof fn lemma_mul_magnitude(x: int, y: int, mx: int, my: int)
    requires
        -mx <= x <= mx,
        -my <= y <= my,
    ensures
        -(mx * my) <= x * y <= mx * my,
{
    assert(-(mx * my) <= x * y <= mx * my) by (nonlinear_arith)
        requires
            -mx <= x <= mx,
            -my <= y <= my,
    ;
}

/// The magnitude bound that keeps the coefficients of the extended
/// Euclidean algorithm in range: if `c2 * rn - cn * r2 == w * det` with
/// `det` a sign, `|r2| < |rn|`, and `w` and `cn` bounded, then the new
/// coefficient `c2` is bounded the same way.
proof fn lemma_coefficient_bound(c2: int, cn: int, w: int, det: int, rni: int, r2i: int, bound: int)
    requires
        c2 * rni - cn * r2i == w * det,
        det == 1 || det == -1,
        -bound <= w <= bound,
        -bound <= cn <= bound,
        1 <= bound,
        rni != 0,
        abs(r2i) < abs(rni),
    ensures
        -bound <= c2 <= bound,
{
    let rnabs = abs(rni) as int;
    let r2abs = abs(r2i) as int;
    let c2abs = abs(c2) as int;
    assert(c2 * rni == w * det + cn * r2i);
    assert(c2 * rni == c2abs * rnabs || c2 * rni == -(c2abs * rnabs)) by (nonlinear_arith)
        requires
            c2 == c2abs || c2 == -c2abs,
            rni == rnabs || rni == -rnabs,
    ;
    assert(w * det == w || w * det == -w) by (nonlinear_arith)
        requires
            det == 1 || det == -1,
    ;
    lemma_mul_magnitude(cn, r2i, bound, r2abs);
    assert(bound * r2abs <= bound * (rnabs - 1) && bound * (rnabs - 1) == bound * rnabs - bound)
        by (nonlinear_arith)
        requires
            r2abs <= rnabs - 1,
            bound >= 1,
    ;
    assert(c2abs * rnabs <= bound * rnabs);
    assert(c2abs <= bound) by (nonlinear_arith)
        requires
            c2abs * rnabs <= bound * rnabs,
            rnabs >= 1,
            c2abs >= 0,
    ;
}

/// The extended Euclidean algorithm: solves `a * x + b * y == g` where `g`
/// is the value the Euclidean algorithm computes for `(a, b)`, and returns
/// `(g, x, y)`.  Two rows of coefficients accompany the remainder pair; each
/// division step rewrites the first row by the quotient times the second and
/// swaps the two.
///
/// The extreme value `i64::MIN` is excluded: the rows of coefficients the
/// loop carries are bounded by the magnitudes of the arguments, so those
/// magnitudes must themselves be representable.
pub fn extended_euclidean_algorithm(a: i64, b: i64) -> (r: (i64, i64, i64))
    requires
        a != i64::MIN,
        b != i64::MIN,
    ensures
        (r.0 as int, r.1 as int, r.2 as int) == eea_spec(a as int, b as int),
        abs(r.1 as int) <= (if b == 0 { 1int } else { abs(b as int) as int }),
        abs(r.2 as int) <= (if a == 0 { 1int } else { abs(a as int) as int }),
        a as int * r.1 as int + b as int * r.2 as int == r.0 as int,
        r.0 as int == euclid_gcd(a as int, b as int),
        abs(r.0 as int) == gcd_nat(abs(a as int), abs(b as int)),
        a >= 0 && b >= 0 ==> r.0 as int == gcd_nat(a as nat, b as nat),
        b == 0 ==> r == (a, 1i64, 0i64),
        a == 0 && b != 0 ==> r == (b, 0i64, 1i64),
{
    let ghost ai: int = a as int;
    let ghost bi: int = b as int;
    let ghost abound: int = if ai == 0 {
        1int
    } else {
        abs(ai) as int
    };
    let ghost bbound: int = if bi == 0 {
        1int
    } else {
        abs(bi) as int
    };
    let mut ro: i64 = a;
    let mut rn: i64 = b;
    let mut xo: i64 = 1;
    let mut xn: i64 = 0;
    let mut yo: i64 = 0;
    let mut yn: i64 = 1;
    while rn != 0
        invariant
            ai == a as int,
            bi == b as int,
            a != i64::MIN,
            b != i64::MIN,
            1 <= abound <= i64::MAX,
            1 <= bbound <= i64::MAX,
            abound == (if ai == 0 {
                1int
            } else {
                abs(ai) as int
            }),
            bbound == (if bi == 0 {
                1int
            } else {
                abs(bi) as int
            }),
            ro != i64::MIN,
            rn != i64::MIN,
            ai * (xo as int) + bi * (yo as int) == ro as int,
            ai * (xn as int) + bi * (yn as int) == rn as int,
            (xo as int) * (yn as int) - (xn as int) * (yo as int) == 1 || (xo as int) * (yn as int)
                - (xn as int) * (yo as int) == -1,
            -bbound <= xo as int <= bbound,
            -bbound <= xn as int <= bbound,
            -abound <= yo as int <= abound,
            -abound <= yn as int <= abound,
            eea_spec(ai, bi) == ({
                let (g, u, v) = eea_spec(ro as int, rn as int);
                (g, (xo as int) * u + (xn as int) * v, (yo as int) * u + (yn as int) * v)
            }),
        decreases abs(rn as int),
    {
        proof {
            lemma_trunc_properties(ro as int, rn as int);
        }
        let q = ro / rn;
        let r2 = ro % rn;
        proof {
            let roi = ro as int;
            let rni = rn as int;
            let xoi = xo as int;
            let xni = xn as int;
            let yoi = yo as int;
            let yni = yn as int;
            let qi = q as int;
            let r2i = r2 as int;
            let det = xoi * yni - xni * yoi;
            let x2i = xoi - qi * xni;
            let y2i = yoi - qi * yni;
            lemma_mul_magnitude(qi, xni, -(i64::MIN as int), bbound);
            lemma_mul_magnitude(qi, yni, -(i64::MIN as int), abound);
            assert(r2i == roi - qi * rni) by (nonlinear_arith)
                requires
                    roi == rni * qi + r2i,
            ;
            // eliminating the two Bezout rows against each other leaves the
            // determinant times an argument
            assert(xni * roi - xoi * rni == -(bi * det) && yni * roi - yoi * rni == ai * det)
                by (nonlinear_arith)
                requires
                    ai * xoi + bi * yoi == roi,
                    ai * xni + bi * yni == rni,
                    det == xoi * yni - xni * yoi,
            ;
            assert(x2i * rni - xni * r2i == bi * det && y2i * rni - yni * r2i == -(ai * det))
                by (nonlinear_arith)
                requires
                    x2i == xoi - qi * xni,
                    y2i == yoi - qi * yni,
                    r2i == roi - qi * rni,
                    xni * roi - xoi * rni == -(bi * det),
                    yni * roi - yoi * rni == ai * det,
            ;
            assert(y2i * rni - yni * r2i == ai * (-det)) by (nonlinear_arith)
                requires
                    y2i * rni - yni * r2i == -(ai * det),
            ;
            // the rewritten coefficients stay within the bounds
            lemma_coefficient_bound(x2i, xni, bi, det, rni, r2i, bbound);
            lemma_coefficient_bound(y2i, yni, ai, -det, rni, r2i, abound);
            assert(xni * y2i - x2i * yni == -det) by (nonlinear_arith)
                requires
                    x2i == xoi - qi * xni,
                    y2i == yoi - qi * yni,
                    det == xoi * yni - xni * yoi,
            ;
            assert(ai * x2i + bi * y2i == r2i) by (nonlinear_arith)
                requires
                    ai * xoi + bi * yoi == roi,
                    ai * xni + bi * yni == rni,
                    x2i == xoi - qi * xni,
                    y2i == yoi - qi * yni,
                    r2i == roi - qi * rni,
            ;
            // one unfolding of eea_spec carries the recombination forward
            let (g2, u2, v2) = eea_spec(rni, r2i);
            assert(eea_spec(roi, rni) == (g2, v2, u2 - qi * v2));
            let (g, u, v) = eea_spec(roi, rni);
            assert(xni * u2 + x2i * v2 == xoi * u + xni * v && yni * u2 + y2i * v2 == yoi * u + yni
                * v) by (nonlinear_arith)
                requires
                    x2i == xoi - qi * xni,
                    y2i == yoi - qi * yni,
                    u == v2,
                    v == u2 - qi * v2,
            ;
        }
        let qx = (q as i128) * (xn as i128);
        let qy = (q as i128) * (yn as i128);
        let x2w = (xo as i128) - qx;
        let y2w = (yo as i128) - qy;
        let x2 = x2w as i64;
        let y2 = y2w as i64;
        ro = rn;
        rn = r2;
        xo = xn;
        xn = x2;
        yo = yn;
        yn = y2;
    }
    proof {
        assert(eea_spec(ro as int, 0) == (ro as int, 1int, 0int));
        let (g, u, v) = eea_spec(ro as int, rn as int);
        assert(u == 1 && v == 0);
        assert((xo as int) * u == xo as int && (xn as int) * v == 0 && (yo as int) * u == yo as int
            && (yn as int) * v == 0) by (nonlinear_arith)
            requires
                u == 1,
                v == 0,
        ;
        lemma_eea_spec_bezout(ai, bi);
        lemma_euclid_gcd_abs(ai, bi);
        if a >= 0 && b >= 0 {
            lemma_euclid_gcd_nonneg(ai, bi);
        }
        lemma_eea_spec_zero(ai);
        lemma_eea_spec_zero(bi);
    }
    (ro, xo, yo)
}

} // verus!
