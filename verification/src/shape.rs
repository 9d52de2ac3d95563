//! The signed-distance shape capability, and the sphere.
//!
//! The subdivision engine never needs a shape's distance itself, only the
//! comparison of that distance against a cell's half-diagonal. Over integer
//! coordinates that comparison is carried out exactly on squared
//! quantities, so `classify` answers directly for the closed ball that the
//! comparison is about: given a cell's center and half-extent, is every
//! point within the half-diagonal of the center provably outside the
//! shape, provably inside it, or neither.

use crate::arith::{
    lemma_ball_beyond_surface,
    lemma_ball_within_surface,
    lemma_cauchy_schwarz,
    lemma_mul_bound,
};
use crate::vec3::{dist_sq, V3, WORLD_BOUND};
use vstd::prelude::*;

verus! {

/// What a shape can say about a whole region at once.
#[derive(Clone, Copy, PartialEq, Eq, Structural, Debug)]
pub enum ShapeClass {
    /// No point of the region is inside the shape.
    Outside,
    /// Every point of the region is inside the shape.
    Inside,
    /// Nothing is promised: the surface may cross the region.
    Straddle,
}

/// The closed ball around `center` whose radius is the norm of `half`:
/// the region that one classification call speaks about. A cell's box
/// `[center - half, center + half]` lies entirely within it.
pub open spec fn in_ball(center: V3, half: V3, p: V3) -> bool {
    dist_sq(p, center) <= half.norm_sq()
}

/// A solid region of space given by a signed distance to its surface,
/// negative inside. `inside` is the mathematical membership; `classify`
/// compares the distance at a cell's center against the cell's
/// half-diagonal, and its answer is sound for every point of that ball.
pub trait Shape: Sized {
    /// Validity of the shape's own parameters.
    spec fn sh_wf(&self) -> bool;

    /// Whether a point lies strictly inside the shape.
    spec fn inside(&self, p: V3) -> bool;

    /// The answer `classify` must give: each shape fixes its
    /// classification as a total function of the cell, so a run of
    /// `classify` is forced to do the comparison work, not merely allowed
    /// to.
    spec fn classify_spec(&self, center: V3, half: V3) -> ShapeClass;

    /// Compare the shape's signed distance at `center` against the norm of
    /// `half`. An `Outside` answer means the distance is at least the
    /// half-diagonal, an `Inside` answer that it is below its negation;
    /// either way the whole closed ball is classified at once. The answer
    /// is exactly `classify_spec`, and a decisive answer is sound for
    /// every point of the ball.
    fn classify(&self, center: V3, half: V3) -> (c: ShapeClass)
        requires
            self.sh_wf(),
            center.in_world(),
            half.in_world(),
            half.non_negative(),
        ensures
            c == self.classify_spec(center, half),
            c is Outside ==> forall|p: V3| #[trigger] in_ball(center, half, p) ==> !self.inside(p),
            c is Inside ==> forall|p: V3| #[trigger] in_ball(center, half, p) ==> self.inside(p),
    ;
}

/// A sphere: center and radius in integer coordinates.
#[derive(Clone, Copy, PartialEq, Eq, Structural, Debug)]
pub struct Sphere {
    pub center: V3,
    pub r: i64,
}

impl Sphere {
    pub fn new(center: V3, r: i64) -> (s: Sphere)
        ensures
            s == (Sphere { center, r }),
    {
        Sphere { center, r }
    }
}

impl Shape for Sphere {
    open spec fn sh_wf(&self) -> bool {
        self.center.in_world() && 0 <= self.r <= WORLD_BOUND
    }

    /// Strictly within the radius; a point on the surface is not inside.
    open spec fn inside(&self, p: V3) -> bool {
        dist_sq(p, self.center) < self.r * self.r
    }

    /// The exact squared comparison, with the tie `distance == diagonal`
    /// classifying `Outside`: with `xx` the squared center distance, `dd`
    /// the squared half-diagonal and `rr` the squared radius,
    /// `sqrt(xx) >= r + sqrt(dd)` classifies `Outside`,
    /// `sqrt(xx) + sqrt(dd) < r` classifies `Inside`, and anything else
    /// straddles. Classification is total: every cell falls in exactly
    /// one branch.
    open spec fn classify_spec(&self, center: V3, half: V3) -> ShapeClass {
        let xx = dist_sq(center, self.center);
        let dd = half.norm_sq();
        let rr = self.r * self.r;
        if xx - rr - dd >= 0 && (xx - rr - dd) * (xx - rr - dd) >= 4 * rr * dd {
            ShapeClass::Outside
        } else if rr - xx - dd > 0 && (rr - xx - dd) * (rr - xx - dd) > 4 * xx * dd {
            ShapeClass::Inside
        } else {
            ShapeClass::Straddle
        }
    }

    /// The comparison `|dist| >= diag` on squares: with `xx` the squared
    /// center distance, `dd` the squared half-diagonal and `rr` the squared
    /// radius, `sqrt(xx) >= r + sqrt(dd)` is `xx - rr - dd >= 0` together
    /// with `(xx - rr - dd)^2 >= 4 rr dd`, and `sqrt(xx) + sqrt(dd) < r`
    /// is the strict mirror of it. A distance exactly equal to the
    /// half-diagonal therefore classifies `Outside`.
    fn classify(&self, center: V3, half: V3) -> (c: ShapeClass) {
        let dx: i128 = (center.x as i128) - (self.center.x as i128);
        let dy: i128 = (center.y as i128) - (self.center.y as i128);
        let dz: i128 = (center.z as i128) - (self.center.z as i128);
        let hx: i128 = half.x as i128;
        let hy: i128 = half.y as i128;
        let hz: i128 = half.z as i128;
        let rsmall: i128 = self.r as i128;
        proof {
            let b29 = 0x2000_0000int;
            lemma_mul_bound(dx as int, dx as int, b29, b29);
            lemma_mul_bound(dy as int, dy as int, b29, b29);
            lemma_mul_bound(dz as int, dz as int, b29, b29);
            lemma_mul_bound(hx as int, hx as int, b29, b29);
            lemma_mul_bound(hy as int, hy as int, b29, b29);
            lemma_mul_bound(hz as int, hz as int, b29, b29);
            lemma_mul_bound(rsmall as int, rsmall as int, b29, b29);
        }
        let xx: i128 = dx * dx + dy * dy + dz * dz;
        let dd: i128 = hx * hx + hy * hy + hz * hz;
        let rr: i128 = rsmall * rsmall;
        let t: i128 = xx - rr - dd;
        proof {
            let b58 = 0x0400_0000_0000_0000int;
            let b61 = 0x2000_0000_0000_0000int;
            lemma_mul_bound(t as int, t as int, b61, b61);
            lemma_mul_bound(rr as int, dd as int, b58, 3 * b58);
            assert(xx >= 0 && dd >= 0 && rr >= 0) by (nonlinear_arith)
                requires
                    xx == dx * dx + dy * dy + dz * dz,
                    dd == hx * hx + hy * hy + hz * hz,
                    rr == rsmall * rsmall,
            ;
            assert(xx as int == dist_sq(center, self.center));
            assert(dd as int == half.norm_sq());
            assert(rr as int == self.r * self.r);
            assert(4 * ((rr as int) * (dd as int)) == 4 * (rr as int) * (dd as int))
                by (nonlinear_arith);
            assert(4 * ((xx as int) * (dd as int)) == 4 * (xx as int) * (dd as int))
                by (nonlinear_arith);
        }
        if t >= 0 && t * t >= 4 * (rr * dd) {
            proof {
                self.lemma_outside_sound(center, half, xx as int, dd as int);
            }
            ShapeClass::Outside
        } else {
            let u: i128 = rr - xx - dd;
            proof {
                let b58 = 0x0400_0000_0000_0000int;
                let b61 = 0x2000_0000_0000_0000int;
                lemma_mul_bound(u as int, u as int, b61, b61);
                lemma_mul_bound(xx as int, dd as int, 3 * b58, 3 * b58);
            }
            if u > 0 && u * u > 4 * (xx * dd) {
                proof {
                    self.lemma_inside_sound(center, half, xx as int, dd as int);
                }
                ShapeClass::Inside
            } else {
                ShapeClass::Straddle
            }
        }
    }
}

impl Sphere {
    /// Soundness of the `Outside` answer: when the squared comparison says
    /// the center distance is at least radius plus half-diagonal, no point
    /// of the ball is inside the sphere.
    proof fn lemma_outside_sound(self, center: V3, half: V3, xx: int, dd: int)
        requires
            self.sh_wf(),
            xx == dist_sq(center, self.center),
            dd == half.norm_sq(),
            xx - self.r * self.r - dd >= 0,
            (xx - self.r * self.r - dd) * (xx - self.r * self.r - dd) >= 4 * (self.r * self.r)
                * dd,
        ensures
            forall|p: V3| #[trigger] in_ball(center, half, p) ==> !self.inside(p),
    {
        assert forall|p: V3| #[trigger] in_ball(center, half, p) implies !self.inside(p) by {
            let ux = p.x - center.x;
            let uy = p.y - center.y;
            let uz = p.z - center.z;
            let vx = center.x - self.center.x;
            let vy = center.y - self.center.y;
            let vz = center.z - self.center.z;
            let ee = ux * ux + uy * uy + uz * uz;
            let duv = ux * vx + uy * vy + uz * vz;
            assert(ee == dist_sq(p, center));
            assert(ee >= 0 && dd >= 0) by (nonlinear_arith)
                requires
                    ee == ux * ux + uy * uy + uz * uz,
                    dd == half.x * half.x + half.y * half.y + half.z * half.z,
            ;
            lemma_cauchy_schwarz(ux, uy, uz, vx, vy, vz);
            assert(dist_sq(p, self.center) == ee + 2 * duv + xx) by (nonlinear_arith)
                requires
                    ee == ux * ux + uy * uy + uz * uz,
                    duv == ux * vx + uy * vy + uz * vz,
                    xx == vx * vx + vy * vy + vz * vz,
                    ux == p.x - center.x,
                    uy == p.y - center.y,
                    uz == p.z - center.z,
                    vx == center.x - self.center.x,
                    vy == center.y - self.center.y,
                    vz == center.z - self.center.z,
                    dist_sq(p, self.center) == (p.x - self.center.x) * (p.x - self.center.x) + (p.y
                        - self.center.y) * (p.y - self.center.y) + (p.z - self.center.z) * (p.z
                        - self.center.z),
            ;
            lemma_ball_beyond_surface(xx, dd, self.r as int, ee, duv);
        }
    }

    /// Soundness of the `Inside` answer: when the squared comparison says
    /// the center distance plus the half-diagonal stays below the radius,
    /// every point of the ball is inside the sphere.
    proof fn lemma_inside_sound(self, center: V3, half: V3, xx: int, dd: int)
        requires
            self.sh_wf(),
            xx == dist_sq(center, self.center),
            dd == half.norm_sq(),
            self.r * self.r - xx - dd > 0,
            (self.r * self.r - xx - dd) * (self.r * self.r - xx - dd) > 4 * xx * dd,
        ensures
            forall|p: V3| #[trigger] in_ball(center, half, p) ==> self.inside(p),
    {
        assert forall|p: V3| #[trigger] in_ball(center, half, p) implies self.inside(p) by {
            let ux = p.x - center.x;
            let uy = p.y - center.y;
            let uz = p.z - center.z;
            let vx = center.x - self.center.x;
            let vy = center.y - self.center.y;
            let vz = center.z - self.center.z;
            let ee = ux * ux + uy * uy + uz * uz;
            let duv = ux * vx + uy * vy + uz * vz;
            assert(ee == dist_sq(p, center));
            assert(ee >= 0 && dd >= 0 && xx >= 0) by (nonlinear_arith)
                requires
                    ee == ux * ux + uy * uy + uz * uz,
                    dd == half.x * half.x + half.y * half.y + half.z * half.z,
                    xx == vx * vx + vy * vy + vz * vz,
            ;
            lemma_cauchy_schwarz(ux, uy, uz, vx, vy, vz);
            assert(dist_sq(p, self.center) == ee + 2 * duv + xx) by (nonlinear_arith)
                requires
                    ee == ux * ux + uy * uy + uz * uz,
                    duv == ux * vx + uy * vy + uz * vz,
                    xx == vx * vx + vy * vy + vz * vz,
                    ux == p.x - center.x,
                    uy == p.y - center.y,
                    uz == p.z - center.z,
                    vx == center.x - self.center.x,
                    vy == center.y - self.center.y,
                    vz == center.z - self.center.z,
                    dist_sq(p, self.center) == (p.x - self.center.x) * (p.x - self.center.x) + (p.y
                        - self.center.y) * (p.y - self.center.y) + (p.z - self.center.z) * (p.z
                        - self.center.z),
            ;
            lemma_ball_within_surface(xx, dd, self.r as int, ee, duv);
        }
    }
}

} // verus!
