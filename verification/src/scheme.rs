use crate::codec::{decode_g1, decode_g2, g1_dec, g2_dec, lemma_pow256_mono, pow256};
use crate::curve::{
    base_model, ec_mul_model, g1_base, g1_mul, g2_mul, G1Point, G2Point, PointModel, Scalar,
    BASE_X, BASE_Y,
};
use crate::errors::SigError;
use crate::field::{fp_add, fp_mul, FIELD_PRIME, GROUP_ORDER};
use crate::hash_point::{hash_model, hash_to_g1};
use crate::pairing::{pairing, tate_model};
use crate::rng::fill_random;
use vstd::arithmetic::div_mod::lemma_mod_bound;
use vstd::prelude::*;

verus! {

/// The process-wide pairing parameters.  The curve, its prime field, the
/// group order and the base point are fixed at build time; a context value
/// witnesses that they were checked.  Every operation takes the context by
/// shared reference: it is immutable, safely shared across threads, and an
/// operation can never run before it exists.
pub struct PairingContext {
    pub base: G1Point,
}

impl PairingContext {
    /// The context holds exactly the embedded base point.
    pub open spec fn wf(self) -> bool {
        self.base == (G1Point::Affine { x: BASE_X, y: BASE_Y })
    }
}

/// Checks the embedded curve parameters and constructs the process-wide
/// context: the group order must fit the field prime as
/// `4 * GROUP_ORDER - 1 == FIELD_PRIME`, and the base point must satisfy
/// the curve equation.  With the embedded constants both checks pass, so
/// initialization always succeeds, and it is idempotent: every call returns
/// the same context.
pub fn initialize() -> (r: Result<PairingContext, SigError>)
    ensures
        r matches Ok(c) && c.wf(),
{
    if FIELD_PRIME != 4 * GROUP_ORDER - 1 {
        return Err(SigError::ParameterError);
    }
    let base = g1_base();
    match base {
        G1Point::Infinity => Err(SigError::ParameterError),
        G1Point::Affine { x, y } => {
            let lhs = fp_mul(y, y);
            let rhs = fp_add(fp_mul(fp_mul(x, x), x), x);
            if lhs == rhs {
                Ok(PairingContext { base })
            } else {
                Err(SigError::ParameterError)
            }
        },
    }
}

/// A keypair: the private scalar, the generator of the second group that
/// key generation sampled for it, and the public element.  The generator is
/// not a fixed global constant: each keypair carries its own, and signer
/// and verifier must use the generator that belongs to the public element.
pub struct Keypair {
    pub private_scalar: Scalar,
    pub generator: G2Point,
    pub public_element: G2Point,
}

impl Keypair {
    /// The keypair invariant: the private scalar is nonzero and reduced,
    /// the generator is not the identity, and the public element is the
    /// generator taken private-scalar times.
    pub open spec fn wf(self) -> bool {
        &&& self.private_scalar.wf()
        &&& 1 <= self.private_scalar.v
        &&& self.generator.wf()
        &&& self.generator.m() != PointModel::Inf
        &&& self.public_element.wf()
        &&& self.public_element.m() == ec_mul_model(
            self.private_scalar.v as nat,
            self.generator.m(),
        )
    }
}

/// The big-endian integer named by a run of seed bytes.
pub open spec fn seed_fold(s: Seq<u8>, off: int, n: nat) -> int
    decreases n,
{
    if n == 0 {
        0
    } else {
        seed_fold(s, off, (n - 1) as nat) * 256 + s[off + n - 1]
    }
}

/// The scalar in `[1, order - 1]` that a run of 16 seed bytes picks.
pub open spec fn seed_scalar(s: Seq<u8>, off: int) -> int {
    1 + seed_fold(s, off, 16) % (GROUP_ORDER - 1)
}

/// Folds 16 seed bytes into a nonzero reduced scalar in `[1, order - 1]`.
fn scalar_from_seed(seed: &[u8], off: usize) -> (r: Scalar)
    requires
        off + 16 <= seed@.len(),
    ensures
        r.wf(),
        1 <= r.v,
        r.v as int == seed_scalar(seed@, off as int),
{
    let n = seed.len();
    let mut acc: u128 = 0;
    let mut i: usize = 0;
    while i < 16
        invariant
            i <= 16,
            off + 16 <= seed@.len(),
            seed@.len() <= usize::MAX,
            acc as int == seed_fold(seed@, off as int, i as nat),
            (acc as int) < pow256(i as nat),
        decreases 16 - i,
    {
        let c = seed[off + i];
        proof {
            lemma_pow256_mono(i as nat, 15);
            reveal_with_fuel(pow256, 16);
            assert(pow256(15) == 0x1000000000000000000000000000000);
            assert((acc << 8u128) | (c as u128) == acc * 256 + (c as u128)) by (bit_vector)
                requires
                    acc < 0x1000000000000000000000000000000u128,
            ;
        }
        acc = (acc << 8u128) | (c as u128);
        i = i + 1;
    }
    let m = acc % ((GROUP_ORDER - 1) as u128);
    proof {
        lemma_mod_bound(acc as int, (GROUP_ORDER - 1) as int);
    }
    Scalar { v: (m as u64) + 1 }
}

/// Derives a keypair from 32 seed bytes: the first 16 pick the private
/// scalar in `[1, order - 1]`, the last 16 pick the exponent that samples
/// the generator from the second group.  A sampled generator that collapses
/// to the identity is replaced by the group's base element, so the
/// keypair invariant holds for every seed.
pub fn derive_keypair(ctx: &PairingContext, seed: &[u8]) -> (r: Keypair)
    requires
        ctx.wf(),
        seed@.len() == 32,
    ensures
        r.wf(),
        r.private_scalar.v as int == seed_scalar(seed@, 0),
        r.generator.m() == ({
            let sampled = ec_mul_model(seed_scalar(seed@, 16) as nat, base_model());
            if sampled == PointModel::Inf {
                base_model()
            } else {
                sampled
            }
        }),
{
    let sk = scalar_from_seed(seed, 0);
    let gv = scalar_from_seed(seed, 16);
    let base = g1_base();
    let sampled = g1_mul(gv.v, &base);
    let g_rep = match sampled {
        G1Point::Infinity => base,
        G1Point::Affine { .. } => sampled,
    };
    let generator = G2Point { rep: g_rep };
    let public_element = g2_mul(sk.v, &generator);
    Keypair { private_scalar: sk, generator, public_element }
}

/// Generates a keypair: samples 32 bytes from the secure random source and
/// derives the keypair from them.  When the source is unavailable the call
/// fails with the random-source error and no weaker source is substituted.
/// Distinct calls draw independent seeds, so two generated keypairs share a
/// private scalar only with negligible probability.
pub fn key_gen(ctx: &PairingContext) -> (r: Result<Keypair, SigError>)
    requires
        ctx.wf(),
    ensures
        r matches Ok(kp) ==> kp.wf(),
        r matches Err(e) ==> e == SigError::RandomSourceError,
{
    match fill_random(32) {
        Err(e) => Err(e),
        Ok(seed) => Ok(derive_keypair(ctx, seed.as_slice())),
    }
}

/// The 20-byte digest that the scheme consumes: the first 20 bytes of the
/// message, zero-padded when the message is shorter.
pub open spec fn digest20(m: Seq<u8>) -> Seq<u8> {
    Seq::new(20, |i: int| if i < m.len() { m[i] } else { 0u8 })
}

/// Builds the 20-byte digest of a message.
fn make_digest(msg: &[u8]) -> (r: Vec<u8>)
    ensures
        r@ == digest20(msg@),
        r@.len() == 20,
{
    let n = msg.len();
    let mut out: Vec<u8> = Vec::new();
    let mut i: usize = 0;
    while i < 20
        invariant
            i <= 20,
            out@.len() == i,
            n == msg@.len(),
            forall|j: int| 0 <= j < i ==> out@[j] == digest20(msg@)[j],
        decreases 20 - i,
    {
        if i < n {
            out.push(msg[i]);
        } else {
            out.push(0);
        }
        i = i + 1;
    }
    proof {
        assert(out@ =~= digest20(msg@));
    }
    out
}

/// The signature of a message under a private scalar: the hashed message
/// point taken private-scalar times.
pub open spec fn sign_model(msg: Seq<u8>, sk: nat) -> PointModel {
    ec_mul_model(sk, hash_model(digest20(msg)))
}

/// Signs a message with a private scalar.  Only the first 20 bytes of the
/// message are consumed (callers digest longer messages themselves; shorter
/// ones are zero-padded), and no nonce is involved: re-signing the same
/// message with the same key always yields the same signature.
pub fn sign(ctx: &PairingContext, msg: &[u8], private_key: &Scalar) -> (r: G1Point)
    requires
        ctx.wf(),
        private_key.wf(),
        1 <= private_key.v,
    ensures
        r.m() == sign_model(msg@, private_key.v as nat),
        r.wf(),
{
    let d = make_digest(msg);
    let h = hash_to_g1(d.as_slice());
    g1_mul(private_key.v, &h)
}

/// Whether a signature verifies: the pairing of the signature with the
/// generator must equal the pairing of the hashed message with the public
/// element.
pub open spec fn verify_model(
    msg: Seq<u8>,
    sig: PointModel,
    pk: PointModel,
    g: PointModel,
) -> bool {
    tate_model(sig, g) == tate_model(hash_model(digest20(msg)), pk)
}

/// Verifies a signature against a public element and the generator that
/// belongs to it, by comparing two pairing values.  A mismatch of any kind
/// gives false, never an error.
pub fn verify(
    ctx: &PairingContext,
    msg: &[u8],
    signature: &G1Point,
    public_element: &G2Point,
    generator: &G2Point,
) -> (r: bool)
    requires
        ctx.wf(),
        signature.wf(),
        public_element.wf(),
        generator.wf(),
    ensures
        r == verify_model(msg@, signature.m(), public_element.m(), generator.m()),
{
    let d = make_digest(msg);
    let h = hash_to_g1(d.as_slice());
    let e1 = pairing(signature, generator);
    let e2 = pairing(&h, public_element);
    e1 == e2
}

/// The result of byte-level verification: the first decode failure, in the
/// order signature, public element, generator, or else the verification
/// verdict.
pub open spec fn verify_bytes_model(
    msg: Seq<u8>,
    sig: Seq<u8>,
    pk: Seq<u8>,
    g: Seq<u8>,
) -> Result<bool, SigError> {
    match g1_dec(sig) {
        Err(e) => Err(e),
        Ok(s) => match g2_dec(pk) {
            Err(e) => Err(e),
            Ok(p) => match g2_dec(g) {
                Err(e) => Err(e),
                Ok(gg) => Ok(verify_model(msg, s, p, gg)),
            },
        },
    }
}

/// Verifies straight from encoded bytes.  Decode failures surface as
/// errors, distinct from a cryptographic mismatch, which is `Ok(false)`;
/// callers that prefer to fold garbage input into rejection can treat any
/// error as false.
pub fn verify_bytes(
    ctx: &PairingContext,
    msg: &[u8],
    signature: &[u8],
    public_element: &[u8],
    generator: &[u8],
) -> (r: Result<bool, SigError>)
    requires
        ctx.wf(),
    ensures
        r == verify_bytes_model(msg@, signature@, public_element@, generator@),
{
    let s = match decode_g1(signature) {
        Err(e) => {
            return Err(e);
        },
        Ok(s) => s,
    };
    let p = match decode_g2(public_element) {
        Err(e) => {
            return Err(e);
        },
        Ok(p) => p,
    };
    let g = match decode_g2(generator) {
        Err(e) => {
            return Err(e);
        },
        Ok(g) => g,
    };
    Ok(verify(ctx, msg, &s, &p, &g))
}

/// Signing consumes only the first 20 bytes of the message: two messages
/// with the same 20-byte digest sign identically under every key.  This is
/// a deliberate caller obligation, not an oversight: callers must digest
/// longer messages down to 20 bytes themselves.
pub proof fn lemma_sign_truncation(m1: Seq<u8>, m2: Seq<u8>, sk: nat)
    requires
        digest20(m1) == digest20(m2),
    ensures
        sign_model(m1, sk) == sign_model(m2, sk),
{
}

} // verus!
