use crate::curve::{chord_slope, ec_add_model, g1_add, tangent_slope, G1Point, G2Point, PointModel};
use crate::field::{f_add, f_mul, f_neg, f_sub, fp_add, fp_inv, fp_mul, fp_neg, fp_sub, FIELD_PRIME, GROUP_ORDER};
use crate::fp2::{f2_conj, f2_inv, f2_mul, f2_one, fp2_conj, fp2_inv, fp2_mul, fp2_one, Fp2};
use vstd::prelude::*;

verus! {

/// The value at the evaluation point of the line through the running point
/// `(x1, y1)` with slope `lam`.  The evaluation point is the distortion
/// image `(xq, i*w)`, so the value is `(i*w - y1) - lam * (xq - x1)`, whose
/// real part is `-(y1 + lam * (xq - x1))` and whose imaginary part is `w`.
pub open spec fn line_value(x1: int, y1: int, lam: int, xq: int, w: int) -> (int, int) {
    (f_sub(0, f_add(y1, f_mul(lam, f_sub(xq, x1)))), w)
}

/// One step of the Miller loop: square the accumulator and double the
/// running point through the tangent line; when the scalar bit is set, also
/// multiply by the chord line through the base point and add it.  Vertical
/// lines contribute only their real factor `xq - x`, and lines at the
/// identity contribute nothing; the denominators of the rational functions
/// are omitted, because the evaluation point's x-coordinate is real and the
/// final exponentiation kills every real factor.
pub open spec fn mstep(
    st: ((int, int), PointModel),
    bit: bool,
    p: PointModel,
    xq: int,
    w: int,
) -> ((int, int), PointModel) {
    let f = st.0;
    let t = st.1;
    let f2 = f2_mul(f, f);
    let dbl = match t {
        PointModel::Inf => (f2, PointModel::Inf),
        PointModel::At { x: x1, y: y1 } => {
            if y1 == 0 {
                (f2_mul(f2, (f_sub(xq, x1), 0)), PointModel::Inf)
            } else {
                let lam = tangent_slope(x1, y1);
                (f2_mul(f2, line_value(x1, y1, lam, xq, w)), ec_add_model(t, t))
            }
        },
    };
    if !bit {
        dbl
    } else {
        let fd = dbl.0;
        let td = dbl.1;
        match td {
            PointModel::Inf => {
                match p {
                    PointModel::Inf => (fd, td),
                    PointModel::At { x: x2, y: y2 } => (f2_mul(fd, (f_sub(xq, x2), 0)), p),
                }
            },
            PointModel::At { x: x1, y: y1 } => {
                match p {
                    PointModel::Inf => (fd, td),
                    PointModel::At { x: x2, y: y2 } => {
                        if x1 == x2 && f_add(y1, y2) == 0 {
                            (f2_mul(fd, (f_sub(xq, x1), 0)), PointModel::Inf)
                        } else {
                            let lam = if x1 == x2 {
                                tangent_slope(x1, y1)
                            } else {
                                chord_slope(x1, y1, x2, y2)
                            };
                            (f2_mul(fd, line_value(x1, y1, lam, xq, w)), ec_add_model(td, p))
                        }
                    },
                }
            },
        }
    }
}

/// The Miller accumulator after processing the binary form of `k`: the
/// rational-function value (with denominators omitted) and the running
/// point, both for the function with divisor `k(P) - k(O)`.
#[verifier::opaque]
pub open spec fn miller_model(k: nat, p: PointModel, xq: int, w: int) -> ((int, int), PointModel)
    decreases k,
{
    if k <= 1 {
        (f2_one(), p)
    } else {
        mstep(miller_model(k / 2, p, xq, w), k % 2 == 1, p, xq, w)
    }
}

/// The final exponentiation of the reduced Tate pairing.  The exponent is
/// `(FIELD_PRIME * FIELD_PRIME - 1) / GROUP_ORDER == 4 * (FIELD_PRIME - 1)`:
/// raising to `FIELD_PRIME - 1` is conjugate times inverse by the Frobenius
/// map, and two squarings raise to the fourth power.
pub open spec fn final_exp_model(f: (int, int)) -> (int, int) {
    let g = f2_mul(f2_conj(f), f2_inv(f));
    let g2 = f2_mul(g, g);
    f2_mul(g2, g2)
}

/// The reduced Tate pairing of an element of the first group and an element
/// of the second group (given by its base-curve preimage `(v, w)`, whose
/// distortion image has x-coordinate `-v`).  A pairing with the identity on
/// either side is the unit.
pub open spec fn tate_model(a: PointModel, brep: PointModel) -> (int, int) {
    match a {
        PointModel::Inf => f2_one(),
        PointModel::At { .. } => match brep {
            PointModel::Inf => f2_one(),
            PointModel::At { x: v, y: w } => final_exp_model(
                miller_model(GROUP_ORDER as nat, a, f_neg(v), w).0,
            ),
        },
    }
}

proof fn lemma_miller_base(k: nat, p: PointModel, xq: int, w: int)
    requires
        k <= 1,
    ensures
        miller_model(k, p, xq, w) == (f2_one(), p),
{
    reveal_with_fuel(miller_model, 1);
}

proof fn lemma_miller_step(k: nat, p: PointModel, xq: int, w: int)
    requires
        k >= 2,
    ensures
        miller_model(k, p, xq, w) == mstep(miller_model(k / 2, p, xq, w), k % 2 == 1, p, xq, w),
{
    reveal_with_fuel(miller_model, 1);
}

/// One step of the Miller loop over machine words.
fn miller_step_exec(f: &Fp2, t: &G1Point, bit: bool, p: &G1Point, xq: u64, w: u64) -> (r: (
    Fp2,
    G1Point,
))
    requires
        f.wf(),
        t.wf(),
        p.wf(),
        xq < FIELD_PRIME,
        w < FIELD_PRIME,
    ensures
        r.0.m() == mstep((f.m(), t.m()), bit, p.m(), xq as int, w as int).0,
        r.1.m() == mstep((f.m(), t.m()), bit, p.m(), xq as int, w as int).1,
        r.0.wf(),
        r.1.wf(),
{
    let f2 = fp2_mul(f, f);
    let (fd, td): (Fp2, G1Point) = match t {
        G1Point::Infinity => (f2, G1Point::Infinity),
        G1Point::Affine { x: x1, y: y1 } => {
            let (x1, y1) = (*x1, *y1);
            if y1 == 0 {
                let lv = Fp2 { re: fp_sub(xq, x1), im: 0 };
                (fp2_mul(&f2, &lv), G1Point::Infinity)
            } else {
                let lam = fp_mul(fp_add(fp_mul(3, fp_mul(x1, x1)), 1), fp_inv(fp_mul(2, y1)));
                let lv = Fp2 { re: fp_sub(0, fp_add(y1, fp_mul(lam, fp_sub(xq, x1)))), im: w };
                (fp2_mul(&f2, &lv), g1_add(t, t))
            }
        },
    };
    if !bit {
        (fd, td)
    } else {
        match td {
            G1Point::Infinity => {
                match p {
                    G1Point::Infinity => (fd, td),
                    G1Point::Affine { x: x2, y: y2 } => {
                        let lv = Fp2 { re: fp_sub(xq, *x2), im: 0 };
                        (fp2_mul(&fd, &lv), *p)
                    },
                }
            },
            G1Point::Affine { x: x1, y: y1 } => {
                let (x1, y1) = (x1, y1);
                match p {
                    G1Point::Infinity => (fd, td),
                    G1Point::Affine { x: x2, y: y2 } => {
                        let (x2, y2) = (*x2, *y2);
                        if x1 == x2 && fp_add(y1, y2) == 0 {
                            let lv = Fp2 { re: fp_sub(xq, x1), im: 0 };
                            (fp2_mul(&fd, &lv), G1Point::Infinity)
                        } else {
                            let lam = if x1 == x2 {
                                fp_mul(
                                    fp_add(fp_mul(3, fp_mul(x1, x1)), 1),
                                    fp_inv(fp_mul(2, y1)),
                                )
                            } else {
                                fp_mul(fp_sub(y2, y1), fp_inv(fp_sub(x2, x1)))
                            };
                            let lv = Fp2 {
                                re: fp_sub(0, fp_add(y1, fp_mul(lam, fp_sub(xq, x1)))),
                                im: w,
                            };
                            (fp2_mul(&fd, &lv), g1_add(&td, p))
                        }
                    },
                }
            },
        }
    }
}

/// The Miller loop over machine words, by recursion on the binary form of
/// the scalar.
fn miller_loop(k: u64, p: &G1Point, xq: u64, w: u64) -> (r: (Fp2, G1Point))
    requires
        p.wf(),
        xq < FIELD_PRIME,
        w < FIELD_PRIME,
    ensures
        r.0.m() == miller_model(k as nat, p.m(), xq as int, w as int).0,
        r.1.m() == miller_model(k as nat, p.m(), xq as int, w as int).1,
        r.0.wf(),
        r.1.wf(),
    decreases k,
{
    if k <= 1 {
        proof {
            lemma_miller_base(k as nat, p.m(), xq as int, w as int);
        }
        (fp2_one(), *p)
    } else {
        let st = miller_loop(k / 2, p, xq, w);
        let r = miller_step_exec(&st.0, &st.1, k % 2 == 1, p, xq, w);
        proof {
            lemma_miller_step(k as nat, p.m(), xq as int, w as int);
        }
        r
    }
}

/// Evaluates the bilinear pairing of an element of the first group and an
/// element of the second group.
pub fn pairing(a: &G1Point, b: &G2Point) -> (r: Fp2)
    requires
        a.wf(),
        b.wf(),
    ensures
        r.m() == tate_model(a.m(), b.m()),
        r.wf(),
{
    match (a, &b.rep) {
        (G1Point::Infinity, _) => fp2_one(),
        (_, G1Point::Infinity) => fp2_one(),
        (G1Point::Affine { .. }, G1Point::Affine { x: v, y: w }) => {
            let xq = fp_neg(*v);
            let st = miller_loop(GROUP_ORDER, a, xq, *w);
            let f = st.0;
            let g = fp2_mul(&fp2_conj(&f), &fp2_inv(&f));
            let g2 = fp2_mul(&g, &g);
            fp2_mul(&g2, &g2)
        },
    }
}

} // verus!
