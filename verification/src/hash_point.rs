use crate::codec::be_val;
use crate::curve::{base_model, ec_mul_model, g1_base, g1_mul, G1Point, PointModel};
use crate::field::{
    f_add, f_mul, f_neg, f_pow, fp_add, fp_mul, fp_neg, fp_pow, FIELD_PRIME, GROUP_ORDER,
};
use vstd::arithmetic::div_mod::{
    lemma_add_mod_noop, lemma_mod_bound, lemma_mul_mod_noop_right, lemma_small_mod,
};
use vstd::prelude::*;

verus! {

/// One candidate of the try-and-increment search.  A candidate x-coordinate
/// is accepted when the curve equation's right-hand side has a square root
/// (the root of even parity is taken) and the point, taken four times to
/// clear the cofactor, is not the identity.
#[verifier::opaque]
pub open spec fn hash_accept(x: int) -> Option<PointModel> {
    let rhs = f_add(f_mul(f_mul(x, x), x), x);
    let y0 = f_pow(rhs, GROUP_ORDER as nat);
    if f_mul(y0, y0) == rhs {
        let y = if y0 % 2 == 1 {
            f_neg(y0)
        } else {
            y0
        };
        let q = ec_mul_model(4, PointModel::At { x, y });
        if q != PointModel::Inf {
            Some(q)
        } else {
            None
        }
    } else {
        None
    }
}

/// The try-and-increment search for a curve point, starting from a candidate
/// x-coordinate and stepping to the next x after each rejection.  When the
/// try budget runs out the fixed base point is the result, which keeps the
/// map total; each candidate fails with probability about one half, so the
/// budget of 128 is never exhausted in practice.
#[verifier::opaque]
pub open spec fn hash_search(x: int, tries: nat) -> PointModel
    decreases tries,
{
    if tries == 0 {
        base_model()
    } else {
        match hash_accept(x) {
            Some(q) => q,
            None => hash_search(f_add(x, 1), (tries - 1) as nat),
        }
    }
}

/// The deterministic map from a 20-byte digest to an element of the first
/// group: reduce the digest mod the field prime and search from there.
pub open spec fn hash_model(d: Seq<u8>) -> PointModel {
    hash_search(be_val(d) % (FIELD_PRIME as int), 128)
}

/// A search with tries left lands on an accepted candidate.
proof fn lemma_search_hit(x: int, tries: nat, q: PointModel)
    requires
        tries >= 1,
        hash_accept(x) == Some(q),
    ensures
        hash_search(x, tries) == q,
{
    reveal_with_fuel(hash_search, 1);
}

/// A search with tries left steps past a rejected candidate.
proof fn lemma_search_miss(x: int, tries: nat)
    requires
        tries >= 1,
        hash_accept(x) is None,
    ensures
        hash_search(x, tries) == hash_search(f_add(x, 1), (tries - 1) as nat),
{
    reveal_with_fuel(hash_search, 1);
}

/// A search out of tries falls back to the base point.
proof fn lemma_search_zero(x: int)
    ensures
        hash_search(x, 0) == base_model(),
{
    reveal_with_fuel(hash_search, 1);
}

/// Tries one candidate x-coordinate of the search.
fn hash_try(x: u64) -> (r: Option<G1Point>)
    requires
        x < FIELD_PRIME,
    ensures
        match r {
            Some(q) => hash_accept(x as int) == Some(q.m()) && q.wf() && q.m()
                != PointModel::Inf,
            None => hash_accept(x as int) is None,
        },
{
    proof {
        reveal(hash_accept);
    }
    let rhs = fp_add(fp_mul(fp_mul(x, x), x), x);
    let y0 = fp_pow(rhs, GROUP_ORDER);
    if fp_mul(y0, y0) == rhs {
        let y = if y0 % 2 == 1 {
            fp_neg(y0)
        } else {
            y0
        };
        let cand = G1Point::Affine { x, y };
        let q = g1_mul(4, &cand);
        match q {
            G1Point::Infinity => None,
            G1Point::Affine { .. } => Some(q),
        }
    } else {
        None
    }
}

/// Reduces a 20-byte big-endian digest mod the field prime.
fn digest_to_field(digest: &[u8]) -> (r: u64)
    requires
        digest@.len() == 20,
    ensures
        r as int == be_val(digest@) % (FIELD_PRIME as int),
        r < FIELD_PRIME,
{
    let mut acc: u64 = 0;
    let mut i: usize = 0;
    proof {
        assert(digest@.subrange(0, 0) =~= Seq::<u8>::empty());
        lemma_small_mod(0, FIELD_PRIME as nat);
    }
    while i < 20
        invariant
            i <= 20,
            digest@.len() == 20,
            acc as int == be_val(digest@.subrange(0, i as int)) % (FIELD_PRIME as int),
            acc < FIELD_PRIME,
        decreases 20 - i,
    {
        let ghost pre = digest@.subrange(0, i as int);
        let ghost bv = be_val(pre);
        proof {
            assert(digest@.subrange(0, i + 1).drop_last() =~= pre);
            assert(digest@.subrange(0, i + 1).last() == digest@[i as int]);
            let p = FIELD_PRIME as int;
            let c = digest@[i as int] as int;
            lemma_mul_mod_noop_right(256, bv, p);
            lemma_add_mod_noop(256 * (bv % p), c, p);
            lemma_add_mod_noop(256 * bv, c, p);
            lemma_small_mod(digest@[i as int] as nat, FIELD_PRIME as nat);
            lemma_mod_bound(256 * bv + c, p);
        }
        let wide: u128 = (acc as u128) * 256 + (digest[i] as u128);
        acc = (wide % (FIELD_PRIME as u128)) as u64;
        i = i + 1;
    }
    proof {
        assert(digest@.subrange(0, 20) =~= digest@);
    }
    acc
}

/// Maps a 20-byte digest to an element of the first group.  The map is a
/// pure function of the digest: signer and verifier always derive the same
/// point, and every digest, the all-zero one included, has an image.
pub fn hash_to_g1(digest: &[u8]) -> (r: G1Point)
    requires
        digest@.len() == 20,
    ensures
        r.m() == hash_model(digest@),
        r.wf(),
{
    let start = digest_to_field(digest);
    let mut x = start;
    let mut t: u64 = 0;
    while t < 128
        invariant
            t <= 128,
            x < FIELD_PRIME,
            digest@.len() == 20,
            start as int == be_val(digest@) % (FIELD_PRIME as int),
            hash_search(start as int, 128) == hash_search(x as int, (128 - t) as nat),
        decreases 128 - t,
    {
        match hash_try(x) {
            Some(q) => {
                proof {
                    lemma_search_hit(x as int, (128 - t) as nat, q.m());
                }
                return q;
            },
            None => {},
        }
        proof {
            lemma_search_miss(x as int, (128 - t) as nat);
        }
        x = fp_add(x, 1);
        t = t + 1;
    }
    proof {
        lemma_search_zero(x as int);
    }
    g1_base()
}

} // verus!
