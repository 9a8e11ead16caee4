use crate::field::{
    f_add, f_inv, f_mul, f_neg, f_ok, f_sub, fp_add, fp_inv, fp_mul, fp_neg, fp_sub, FIELD_PRIME,
};
use vstd::prelude::*;

verus! {

/// An element of the quadratic extension field, written `re + im * i` with
/// `i * i == -1`.  The extension is a field because the prime is 3 mod 4, so
/// `-1` has no square root in the base field.
#[derive(Clone, Copy, Debug, PartialEq, Eq, Structural)]
pub struct Fp2 {
    pub re: u64,
    pub im: u64,
}

impl Fp2 {
    /// The mathematical value: a pair of reduced base-field integers.
    pub open spec fn m(self) -> (int, int) {
        (self.re as int, self.im as int)
    }

    /// Both components are reduced.
    pub open spec fn wf(self) -> bool {
        self.re < FIELD_PRIME && self.im < FIELD_PRIME
    }
}

/// Both components of an extension-field value are reduced.
pub open spec fn f2_ok(z: (int, int)) -> bool {
    f_ok(z.0) && f_ok(z.1)
}

/// The unit of the extension field.
pub open spec fn f2_one() -> (int, int) {
    (1, 0)
}

/// Product in the extension field: complex multiplication mod the prime.
pub open spec fn f2_mul(x: (int, int), y: (int, int)) -> (int, int) {
    (f_sub(f_mul(x.0, y.0), f_mul(x.1, y.1)), f_add(f_mul(x.0, y.1), f_mul(x.1, y.0)))
}

/// Conjugate in the extension field, which is also the Frobenius map.
pub open spec fn f2_conj(z: (int, int)) -> (int, int) {
    (z.0, f_neg(z.1))
}

/// Inverse in the extension field via the norm: `(a - bi) / (a^2 + b^2)`.
pub open spec fn f2_inv(z: (int, int)) -> (int, int) {
    let ni = f_inv(f_add(f_mul(z.0, z.0), f_mul(z.1, z.1)));
    (f_mul(z.0, ni), f_mul(f_neg(z.1), ni))
}

pub fn fp2_one() -> (r: Fp2)
    ensures
        r.m() == f2_one(),
        r.wf(),
{
    Fp2 { re: 1, im: 0 }
}

pub fn fp2_mul(x: &Fp2, y: &Fp2) -> (r: Fp2)
    requires
        x.wf(),
        y.wf(),
    ensures
        r.m() == f2_mul(x.m(), y.m()),
        r.wf(),
{
    Fp2 {
        re: fp_sub(fp_mul(x.re, y.re), fp_mul(x.im, y.im)),
        im: fp_add(fp_mul(x.re, y.im), fp_mul(x.im, y.re)),
    }
}

pub fn fp2_conj(z: &Fp2) -> (r: Fp2)
    requires
        z.wf(),
    ensures
        r.m() == f2_conj(z.m()),
        r.wf(),
{
    Fp2 { re: z.re, im: fp_neg(z.im) }
}

pub fn fp2_inv(z: &Fp2) -> (r: Fp2)
    requires
        z.wf(),
    ensures
        r.m() == f2_inv(z.m()),
        r.wf(),
{
    let ni = fp_inv(fp_add(fp_mul(z.re, z.re), fp_mul(z.im, z.im)));
    Fp2 { re: fp_mul(z.re, ni), im: fp_mul(fp_neg(z.im), ni) }
}

} // verus!
