//! Integer algebra behind cell classification: comparisons between a signed
//! distance and a cell's half-diagonal, carried out exactly on squared
//! quantities so that no square root is ever taken.

use vstd::prelude::*;

verus! {

/// Cauchy-Schwarz for integer 3-vectors: the square of the dot product is
/// at most the product of the squared norms. Proved through Lagrange's
/// identity, assembled from per-monomial steps.
pub proof fn lemma_cauchy_schwarz(ax: int, ay: int, az: int, bx: int, by: int, bz: int)
    ensures
        (ax * bx + ay * by + az * bz) * (ax * bx + ay * by + az * bz) <= (ax * ax + ay * ay + az
            * az) * (bx * bx + by * by + bz * bz),
{
    let d = ax * bx + ay * by + az * bz;
    let na = ax * ax + ay * ay + az * az;
    let nb = bx * bx + by * by + bz * bz;
    let p = ax * bx;
    let q = ay * by;
    let s = az * bz;
    let u1 = ax * by;
    let u2 = ay * bx;
    let v1 = ax * bz;
    let v2 = az * bx;
    let w1 = ay * bz;
    let w2 = az * by;
    assert(d * d == p * p + q * q + s * s + 2 * (p * q) + 2 * (p * s) + 2 * (q * s))
        by (nonlinear_arith)
        requires
            d == p + q + s,
    ;
    assert(na * nb == (ax * ax) * nb + (ay * ay) * nb + (az * az) * nb) by (nonlinear_arith)
        requires
            na == ax * ax + ay * ay + az * az,
    ;
    assert((ax * ax) * nb == (ax * ax) * (bx * bx) + (ax * ax) * (by * by) + (ax * ax) * (bz * bz))
        by (nonlinear_arith)
        requires
            nb == bx * bx + by * by + bz * bz,
    ;
    assert((ay * ay) * nb == (ay * ay) * (bx * bx) + (ay * ay) * (by * by) + (ay * ay) * (bz * bz))
        by (nonlinear_arith)
        requires
            nb == bx * bx + by * by + bz * bz,
    ;
    assert((az * az) * nb == (az * az) * (bx * bx) + (az * az) * (by * by) + (az * az) * (bz * bz))
        by (nonlinear_arith)
        requires
            nb == bx * bx + by * by + bz * bz,
    ;
    assert(p * p == (ax * ax) * (bx * bx)) by (nonlinear_arith)
        requires
            p == ax * bx,
    ;
    assert(q * q == (ay * ay) * (by * by)) by (nonlinear_arith)
        requires
            q == ay * by,
    ;
    assert(s * s == (az * az) * (bz * bz)) by (nonlinear_arith)
        requires
            s == az * bz,
    ;
    assert(u1 * u1 == (ax * ax) * (by * by)) by (nonlinear_arith)
        requires
            u1 == ax * by,
    ;
    assert(u2 * u2 == (ay * ay) * (bx * bx)) by (nonlinear_arith)
        requires
            u2 == ay * bx,
    ;
    assert(v1 * v1 == (ax * ax) * (bz * bz)) by (nonlinear_arith)
        requires
            v1 == ax * bz,
    ;
    assert(v2 * v2 == (az * az) * (bx * bx)) by (nonlinear_arith)
        requires
            v2 == az * bx,
    ;
    assert(w1 * w1 == (ay * ay) * (bz * bz)) by (nonlinear_arith)
        requires
            w1 == ay * bz,
    ;
    assert(w2 * w2 == (az * az) * (by * by)) by (nonlinear_arith)
        requires
            w2 == az * by,
    ;
    assert(na * nb == p * p + q * q + s * s + u1 * u1 + u2 * u2 + v1 * v1 + v2 * v2 + w1 * w1 + w2
        * w2);
    assert(u1 * u2 == p * q) by (nonlinear_arith)
        requires
            u1 == ax * by && u2 == ay * bx && p == ax * bx && q == ay * by,
    ;
    assert(v1 * v2 == p * s) by (nonlinear_arith)
        requires
            v1 == ax * bz && v2 == az * bx && p == ax * bx && s == az * bz,
    ;
    assert(w1 * w2 == q * s) by (nonlinear_arith)
        requires
            w1 == ay * bz && w2 == az * by && q == ay * by && s == az * bz,
    ;
    assert((u1 - u2) * (u1 - u2) == u1 * u1 - 2 * (u1 * u2) + u2 * u2) by (nonlinear_arith);
    assert((v1 - v2) * (v1 - v2) == v1 * v1 - 2 * (v1 * v2) + v2 * v2) by (nonlinear_arith);
    assert((w1 - w2) * (w1 - w2) == w1 * w1 - 2 * (w1 * w2) + w2 * w2) by (nonlinear_arith);
    assert((u1 - u2) * (u1 - u2) >= 0) by (nonlinear_arith);
    assert((v1 - v2) * (v1 - v2) >= 0) by (nonlinear_arith);
    assert((w1 - w2) * (w1 - w2) >= 0) by (nonlinear_arith);
    assert(na * nb - d * d == (u1 - u2) * (u1 - u2) + (v1 - v2) * (v1 - v2) + (w1 - w2) * (w1
        - w2));
}

/// A product of bounded factors is bounded.
pub proof fn lemma_mul_bound(a: int, b: int, m: int, n: int)
    requires
        -m <= a <= m,
        -n <= b <= n,
        0 <= m,
        0 <= n,
    ensures
        -(m * n) <= a * b <= m * n,
{
    assert(-(m * n) <= a * b <= m * n) by (nonlinear_arith)
        requires
            -m <= a <= m && -n <= b <= n && 0 <= m && 0 <= n,
    ;
}

/// Squaring keeps order on non-negative integers.
pub proof fn lemma_sq_monotone(a: int, b: int)
    requires
        0 <= a <= b,
    ensures
        a * a <= b * b,
{
    assert(a * a <= b * b) by (nonlinear_arith)
        requires
            0 <= a <= b,
    ;
}

/// Order on squares gives order back, on non-negative integers.
pub proof fn lemma_sq_le_reflect(a: int, b: int)
    requires
        0 <= a,
        0 <= b,
        a * a <= b * b,
    ensures
        a <= b,
{
    if a > b {
        lemma_sq_monotone(b + 1, a);
        assert((b + 1) * (b + 1) == b * b + 2 * b + 1) by (nonlinear_arith);
    }
}

/// Strict order on squares gives strict order back, on non-negative
/// integers.
pub proof fn lemma_sq_lt_reflect(a: int, b: int)
    requires
        0 <= a,
        0 <= b,
        a * a < b * b,
    ensures
        a < b,
{
    if a >= b {
        lemma_sq_monotone(b, a);
    }
}

/// A ball of squared radius `dd` around a point at squared distance `xx`
/// from a sphere's center lies entirely at or beyond the sphere's surface
/// when the center distance exceeds the radius by at least the ball radius;
/// stated on squares: `sqrt(xx) >= r + sqrt(dd)`. For any ball point at
/// squared offset `ee` from the ball center whose offset has dot product
/// `duv` with the center-to-center vector, the point's squared distance to
/// the sphere center, `ee + 2 duv + xx`, is at least `r * r`.
pub proof fn lemma_ball_beyond_surface(xx: int, dd: int, r: int, ee: int, duv: int)
    requires
        r >= 0,
        xx >= 0,
        dd >= 0,
        0 <= ee <= dd,
        xx - r * r - dd >= 0,
        (xx - r * r - dd) * (xx - r * r - dd) >= 4 * (r * r) * dd,
        duv * duv <= xx * ee,
    ensures
        ee + 2 * duv + xx >= r * r,
{
    let rr = r * r;
    // (xx + rr - dd)^2 exceeds 4 rr xx: shift the hypothesis square.
    assert((xx + rr - dd) * (xx + rr - dd) == (xx - rr - dd) * (xx - rr - dd) + 4 * rr * (xx - dd))
        by (nonlinear_arith);
    assert((xx + rr - dd) * (xx + rr - dd) >= 4 * rr * xx) by {
        assert(4 * rr * (xx - dd) + 4 * rr * dd == 4 * rr * xx) by (nonlinear_arith);
    }
    // Larger for the smaller offset ee <= dd.
    assert(xx + rr - dd >= 0);
    lemma_sq_monotone(xx + rr - dd, xx + rr - ee);
    assert((xx + rr - ee) * (xx + rr - ee) >= 4 * rr * xx);
    // Turn it into the bound on the mixed term.
    assert((ee + xx - rr) * (ee + xx - rr) == (xx + rr - ee) * (xx + rr - ee) - 4 * rr * xx + 4 * xx
        * ee) by (nonlinear_arith);
    assert((ee + xx - rr) * (ee + xx - rr) >= 4 * xx * ee);
    if duv < 0 {
        let m = -2 * duv;
        assert(m * m <= 4 * xx * ee) by (nonlinear_arith)
            requires
                m == -2 * duv && duv * duv <= xx * ee,
        ;
        assert(ee + xx - rr >= ee + dd >= 0);
        lemma_sq_le_reflect(m, ee + xx - rr);
    } else {
        assert(ee + 2 * duv + xx >= xx >= rr + dd);
    }
}

/// A ball of squared radius `dd` around a point at squared distance `xx`
/// from a sphere's center lies strictly inside the sphere when the center
/// distance plus the ball radius stays below the sphere radius; stated on
/// squares: `sqrt(xx) + sqrt(dd) < r`. For any ball point at squared offset
/// `ee` with mixed term `duv`, the squared distance `ee + 2 duv + xx` stays
/// below `r * r`.
pub proof fn lemma_ball_within_surface(xx: int, dd: int, r: int, ee: int, duv: int)
    requires
        r >= 0,
        xx >= 0,
        dd >= 0,
        0 <= ee <= dd,
        r * r - xx - dd > 0,
        (r * r - xx - dd) * (r * r - xx - dd) > 4 * xx * dd,
        duv * duv <= xx * ee,
    ensures
        ee + 2 * duv + xx < r * r,
{
    let rr = r * r;
    assert(rr - xx - ee >= rr - xx - dd > 0);
    lemma_sq_monotone(rr - xx - dd, rr - xx - ee);
    assert((rr - xx - ee) * (rr - xx - ee) > 4 * xx * dd);
    assert(4 * xx * dd >= 4 * xx * ee) by (nonlinear_arith)
        requires
            xx >= 0 && ee <= dd,
    ;
    if duv >= 0 {
        let m = 2 * duv;
        assert(m * m <= 4 * xx * ee) by (nonlinear_arith)
            requires
                m == 2 * duv && duv * duv <= xx * ee,
        ;
        lemma_sq_lt_reflect(m, rr - xx - ee);
    } else {
        assert(ee + 2 * duv + xx < ee + xx < rr);
    }
}

} // verus!
