use crate::field::{
    f_add, f_inv, f_mul, f_ok, f_sub, fp_add, fp_inv, fp_mul, fp_sub, FIELD_PRIME, GROUP_ORDER,
};
use vstd::prelude::*;

verus! {

/// The x-coordinate of the fixed base point of the first group.  The base
/// point has exact order `GROUP_ORDER` on the curve `y^2 = x^3 + x`.
pub const BASE_X: u64 = 0x0b9bbfbd81b521c8;

/// The y-coordinate of the fixed base point of the first group.
pub const BASE_Y: u64 = 0x0f04c07dfcf664fb;

/// The mathematical value of a curve point: the point at infinity, or an
/// affine pair of base-field integers.
pub enum PointModel {
    Inf,
    At { x: int, y: int },
}

/// A point of the first pairing group: a point of the curve
/// `y^2 = x^3 + x` over the base field, in affine coordinates, or the point
/// at infinity.
#[derive(Clone, Copy, Debug, PartialEq, Eq, Structural)]
pub enum G1Point {
    Infinity,
    Affine { x: u64, y: u64 },
}

/// An element of the second pairing group.
///
/// The second group is the image of the first curve under the distortion map
/// `(x, y) -> (-x, i*y)` into the quadratic extension.  An element is stored
/// as its preimage on the base curve, so all group arithmetic happens over
/// the base field; only the codec and the pairing see the extension-field
/// coordinates.
#[derive(Clone, Copy, Debug, PartialEq, Eq, Structural)]
pub struct G2Point {
    pub rep: G1Point,
}

/// A scalar: an integer mod the group order, used as a private key or
/// exponent.  Private keys must be nonzero.
#[derive(Clone, Copy, Debug, PartialEq, Eq, Structural)]
pub struct Scalar {
    pub v: u64,
}

impl Scalar {
    /// A scalar is reduced mod the group order.
    pub open spec fn wf(self) -> bool {
        self.v < GROUP_ORDER
    }
}

impl G1Point {
    /// The mathematical value of this point.
    pub open spec fn m(self) -> PointModel {
        match self {
            G1Point::Infinity => PointModel::Inf,
            G1Point::Affine { x, y } => PointModel::At { x: x as int, y: y as int },
        }
    }

    /// Both coordinates are reduced.
    pub open spec fn wf(self) -> bool {
        match self {
            G1Point::Infinity => true,
            G1Point::Affine { x, y } => x < FIELD_PRIME && y < FIELD_PRIME,
        }
    }
}

impl G2Point {
    /// The mathematical value of the stored base-curve preimage; the group
    /// element itself is the distortion image of this point.
    pub open spec fn m(self) -> PointModel {
        self.rep.m()
    }

    /// The stored preimage is reduced.
    pub open spec fn wf(self) -> bool {
        self.rep.wf()
    }
}

/// Both coordinates of a point value are reduced.
pub open spec fn model_ok(p: PointModel) -> bool {
    match p {
        PointModel::Inf => true,
        PointModel::At { x, y } => f_ok(x) && f_ok(y),
    }
}

/// The point value lies on the curve `y^2 = x^3 + x`.
pub open spec fn on_curve(p: PointModel) -> bool {
    match p {
        PointModel::Inf => true,
        PointModel::At { x, y } => f_ok(x) && f_ok(y) && f_mul(y, y) == f_add(
            f_mul(f_mul(x, x), x),
            x,
        ),
    }
}

/// The slope of the tangent of the curve at an affine point:
/// `(3x^2 + 1) / (2y)`.
pub open spec fn tangent_slope(x: int, y: int) -> int {
    f_mul(f_add(f_mul(3, f_mul(x, x)), 1), f_inv(f_mul(2, y)))
}

/// The slope of the chord through two affine points with distinct
/// x-coordinates.
pub open spec fn chord_slope(x1: int, y1: int, x2: int, y2: int) -> int {
    f_mul(f_sub(y2, y1), f_inv(f_sub(x2, x1)))
}

/// The affine group law of the curve, with the point at infinity as the
/// neutral element.  Two points with equal x-coordinates and opposite
/// y-coordinates add to infinity; equal points use the tangent slope.
pub open spec fn ec_add_model(p1: PointModel, p2: PointModel) -> PointModel {
    match (p1, p2) {
        (PointModel::Inf, q) => q,
        (p, PointModel::Inf) => p,
        (PointModel::At { x: x1, y: y1 }, PointModel::At { x: x2, y: y2 }) => {
            if x1 == x2 && f_add(y1, y2) == 0 {
                PointModel::Inf
            } else {
                let lam = if x1 == x2 {
                    tangent_slope(x1, y1)
                } else {
                    chord_slope(x1, y1, x2, y2)
                };
                let x3 = f_sub(f_sub(f_mul(lam, lam), x1), x2);
                let y3 = f_sub(f_mul(lam, f_sub(x1, x3)), y1);
                PointModel::At { x: x3, y: y3 }
            }
        },
    }
}

/// Scalar multiplication in its binary (double-and-add) form.
pub open spec fn ec_mul_model(k: nat, p: PointModel) -> PointModel
    decreases k,
{
    if k == 0 {
        PointModel::Inf
    } else {
        let h = ec_mul_model(k / 2, p);
        let d = ec_add_model(h, h);
        if k % 2 == 1 {
            ec_add_model(d, p)
        } else {
            d
        }
    }
}

/// Adds two points of the first group.
pub fn g1_add(p1: &G1Point, p2: &G1Point) -> (r: G1Point)
    requires
        p1.wf(),
        p2.wf(),
    ensures
        r.m() == ec_add_model(p1.m(), p2.m()),
        r.wf(),
{
    match (p1, p2) {
        (G1Point::Infinity, q) => *q,
        (p, G1Point::Infinity) => *p,
        (G1Point::Affine { x: x1, y: y1 }, G1Point::Affine { x: x2, y: y2 }) => {
            let (x1, y1, x2, y2) = (*x1, *y1, *x2, *y2);
            if x1 == x2 && fp_add(y1, y2) == 0 {
                G1Point::Infinity
            } else {
                let lam = if x1 == x2 {
                    fp_mul(fp_add(fp_mul(3, fp_mul(x1, x1)), 1), fp_inv(fp_mul(2, y1)))
                } else {
                    fp_mul(fp_sub(y2, y1), fp_inv(fp_sub(x2, x1)))
                };
                let x3 = fp_sub(fp_sub(fp_mul(lam, lam), x1), x2);
                let y3 = fp_sub(fp_mul(lam, fp_sub(x1, x3)), y1);
                G1Point::Affine { x: x3, y: y3 }
            }
        },
    }
}

/// Multiplies a point of the first group by a scalar, by doubling and adding
/// along the binary form of the scalar.
pub fn g1_mul(k: u64, p: &G1Point) -> (r: G1Point)
    requires
        p.wf(),
    ensures
        r.m() == ec_mul_model(k as nat, p.m()),
        r.wf(),
    decreases k,
{
    if k == 0 {
        G1Point::Infinity
    } else {
        let h = g1_mul(k / 2, p);
        let d = g1_add(&h, &h);
        if k % 2 == 1 {
            g1_add(&d, p)
        } else {
            d
        }
    }
}

/// Adds two elements of the second group, on their base-curve preimages; the
/// distortion map is a group homomorphism, so the image law is the same.
pub fn g2_add(p1: &G2Point, p2: &G2Point) -> (r: G2Point)
    requires
        p1.wf(),
        p2.wf(),
    ensures
        r.m() == ec_add_model(p1.m(), p2.m()),
        r.wf(),
{
    G2Point { rep: g1_add(&p1.rep, &p2.rep) }
}

/// Multiplies an element of the second group by a scalar.
pub fn g2_mul(k: u64, p: &G2Point) -> (r: G2Point)
    requires
        p.wf(),
    ensures
        r.m() == ec_mul_model(k as nat, p.m()),
        r.wf(),
{
    G2Point { rep: g1_mul(k, &p.rep) }
}

/// The fixed base point of the first group.
pub fn g1_base() -> (r: G1Point)
    ensures
        r.m() == base_model(),
        r.wf(),
{
    G1Point::Affine { x: BASE_X, y: BASE_Y }
}

/// The value of the fixed base point.
pub open spec fn base_model() -> PointModel {
    PointModel::At { x: BASE_X as int, y: BASE_Y as int }
}

} // verus!
