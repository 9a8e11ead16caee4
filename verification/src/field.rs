use vstd::arithmetic::div_mod::{lemma_fundamental_div_mod_converse, lemma_small_mod};
use vstd::prelude::*;

verus! {

/// The prime modulus of the base field.  `FIELD_PRIME == 4 * GROUP_ORDER - 1`,
/// so `FIELD_PRIME % 4 == 3` and the curve `y^2 = x^3 + x` over this field is
/// supersingular with exactly `4 * GROUP_ORDER` points.
pub const FIELD_PRIME: u64 = 0x20000000000024b3;

/// The prime order of the two pairing groups.  It also equals
/// `(FIELD_PRIME + 1) / 4`, the exponent that computes square roots in the
/// base field.
pub const GROUP_ORDER: u64 = 0x080000000000092d;

/// Field addition of two reduced elements, as an integer mod the prime.
pub open spec fn f_add(a: int, b: int) -> int {
    (a + b) % (FIELD_PRIME as int)
}

/// Field subtraction of two reduced elements, as an integer mod the prime.
pub open spec fn f_sub(a: int, b: int) -> int {
    (a - b) % (FIELD_PRIME as int)
}

/// Field multiplication of two reduced elements, as an integer mod the prime.
pub open spec fn f_mul(a: int, b: int) -> int {
    (a * b) % (FIELD_PRIME as int)
}

/// Field negation of a reduced element.
pub open spec fn f_neg(a: int) -> int {
    (0 - a) % (FIELD_PRIME as int)
}

/// Modular exponentiation in its binary (square-and-multiply) form.
pub open spec fn f_pow(b: int, e: nat) -> int
    decreases e,
{
    if e == 0 {
        1
    } else {
        let h = f_pow(b, e / 2);
        let s = f_mul(h, h);
        if e % 2 == 1 {
            f_mul(s, b)
        } else {
            s
        }
    }
}

/// The multiplicative inverse of a reduced element, computed as the power
/// `FIELD_PRIME - 2` per Fermat's little theorem.
pub open spec fn f_inv(a: int) -> int {
    f_pow(a, (FIELD_PRIME - 2) as nat)
}

/// A reduced field element: an integer in `[0, FIELD_PRIME)`.
pub open spec fn f_ok(a: int) -> bool {
    0 <= a < FIELD_PRIME as int
}

/// Negation keeps a reduced element reduced and is an involution.
pub proof fn lemma_f_neg_ok(a: int)
    requires
        f_ok(a),
    ensures
        f_ok(f_neg(a)),
        f_neg(f_neg(a)) == a,
        a != 0 ==> f_neg(a) == FIELD_PRIME - a,
        a == 0 ==> f_neg(a) == 0,
{
    if a == 0 {
        lemma_small_mod(0, FIELD_PRIME as nat);
    } else {
        lemma_fundamental_div_mod_converse(
            0 - a,
            FIELD_PRIME as int,
            -1,
            FIELD_PRIME as int - a,
        );
        lemma_fundamental_div_mod_converse(
            0 - (FIELD_PRIME as int - a),
            FIELD_PRIME as int,
            -1,
            a,
        );
    }
}

pub fn fp_add(a: u64, b: u64) -> (r: u64)
    requires
        a < FIELD_PRIME,
        b < FIELD_PRIME,
    ensures
        r as int == f_add(a as int, b as int),
        r < FIELD_PRIME,
{
    let s: u64 = a + b;
    if s >= FIELD_PRIME {
        proof {
            lemma_fundamental_div_mod_converse(
                (a + b) as int,
                FIELD_PRIME as int,
                1,
                s - FIELD_PRIME,
            );
        }
        s - FIELD_PRIME
    } else {
        proof {
            lemma_small_mod(s as nat, FIELD_PRIME as nat);
        }
        s
    }
}

pub fn fp_sub(a: u64, b: u64) -> (r: u64)
    requires
        a < FIELD_PRIME,
        b < FIELD_PRIME,
    ensures
        r as int == f_sub(a as int, b as int),
        r < FIELD_PRIME,
{
    if a >= b {
        proof {
            lemma_small_mod((a - b) as nat, FIELD_PRIME as nat);
        }
        a - b
    } else {
        proof {
            lemma_fundamental_div_mod_converse(
                a as int - b as int,
                FIELD_PRIME as int,
                -1,
                a as int - b as int + FIELD_PRIME as int,
            );
        }
        a + FIELD_PRIME - b
    }
}

pub fn fp_neg(a: u64) -> (r: u64)
    requires
        a < FIELD_PRIME,
    ensures
        r as int == f_neg(a as int),
        r < FIELD_PRIME,
{
    if a == 0 {
        proof {
            lemma_small_mod(0, FIELD_PRIME as nat);
        }
        0
    } else {
        proof {
            lemma_fundamental_div_mod_converse(
                0 - a as int,
                FIELD_PRIME as int,
                -1,
                FIELD_PRIME as int - a as int,
            );
        }
        FIELD_PRIME - a
    }
}

pub fn fp_mul(a: u64, b: u64) -> (r: u64)
    requires
        a < FIELD_PRIME,
        b < FIELD_PRIME,
    ensures
        r as int == f_mul(a as int, b as int),
        r < FIELD_PRIME,
{
    proof {
        assert((a as int) * (b as int) <= (FIELD_PRIME - 1) * (FIELD_PRIME - 1))
            by (nonlinear_arith)
            requires
                a as int <= FIELD_PRIME - 1,
                b as int <= FIELD_PRIME - 1,
                0 <= a as int,
                0 <= b as int,
        ;
    }
    let wide: u128 = (a as u128) * (b as u128);
    let m: u128 = wide % (FIELD_PRIME as u128);
    m as u64
}

pub fn fp_pow(b: u64, e: u64) -> (r: u64)
    requires
        b < FIELD_PRIME,
    ensures
        r as int == f_pow(b as int, e as nat),
        r < FIELD_PRIME,
    decreases e,
{
    if e == 0 {
        1
    } else {
        let h = fp_pow(b, e / 2);
        let s = fp_mul(h, h);
        if e % 2 == 1 {
            fp_mul(s, b)
        } else {
            s
        }
    }
}

pub fn fp_inv(a: u64) -> (r: u64)
    requires
        a < FIELD_PRIME,
    ensures
        r as int == f_inv(a as int),
        r < FIELD_PRIME,
{
    fp_pow(a, FIELD_PRIME - 2)
}

} // verus!
