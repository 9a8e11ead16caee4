//! A pairing-based short-signature scheme over a supersingular curve.
//!
//! The scheme has three operations: key generation (a private scalar, a fresh
//! generator of the second pairing group, and the derived public element),
//! signing of a 20-byte message digest, and verification through two pairing
//! evaluations.  Scalars travel as 20-byte big-endian buffers, elements of the
//! first group as 21-byte compressed points, and elements of the second group
//! as 41-byte compressed points.
//!
//! Only the first 20 bytes of a message are consumed; callers must digest
//! longer messages down to 20 bytes themselves.  Messages that share a 20-byte
//! prefix sign identically: this truncation is a deliberate caller contract.

pub mod codec;
pub mod curve;
pub mod errors;
pub mod field;
pub mod fp2;
pub mod hash_point;
pub mod pairing;
pub mod rng;
pub mod scheme;

pub use codec::{decode_g1, decode_g2, decode_scalar, encode_g1, encode_g2, encode_scalar};
pub use curve::{G1Point, G2Point, Scalar};
pub use errors::SigError;
pub use hash_point::hash_to_g1;
pub use scheme::{
    derive_keypair, initialize, key_gen, sign, verify, verify_bytes, Keypair, PairingContext,
};
