use crate::curve::{on_curve, G1Point, G2Point, PointModel, Scalar};
use crate::errors::SigError;
use crate::field::{
    f_add, f_mul, f_neg, f_ok, f_pow, fp_add, fp_mul, fp_neg, fp_pow, FIELD_PRIME, GROUP_ORDER,
};
use vstd::arithmetic::div_mod::{
    lemma_fundamental_div_mod_converse, lemma_mod_bound, lemma_mod_breakdown,
    lemma_mod_multiples_vanish, lemma_small_mod,
};
use vstd::prelude::*;

verus! {

/// The integer named by a big-endian byte string.
pub open spec fn be_val(s: Seq<u8>) -> int
    decreases s.len(),
{
    if s.len() == 0 {
        0
    } else {
        256 * be_val(s.drop_last()) + s.last()
    }
}

/// The `n`-byte big-endian encoding of the low `n` bytes of a nonnegative
/// integer.
pub open spec fn be_bytes(v: int, n: nat) -> Seq<u8>
    decreases n,
{
    if n == 0 {
        Seq::empty()
    } else {
        be_bytes(v / 256, (n - 1) as nat).push((v % 256) as u8)
    }
}

/// The `n`-th power of 256.
pub open spec fn pow256(n: nat) -> int
    decreases n,
{
    if n == 0 {
        1
    } else {
        256 * pow256((n - 1) as nat)
    }
}

pub proof fn lemma_be_val_nonneg(s: Seq<u8>)
    ensures
        be_val(s) >= 0,
    decreases s.len(),
{
    if s.len() > 0 {
        lemma_be_val_nonneg(s.drop_last());
    }
}

pub proof fn lemma_pow256_pos(n: nat)
    ensures
        pow256(n) >= 1,
    decreases n,
{
    if n > 0 {
        lemma_pow256_pos((n - 1) as nat);
    }
}

pub proof fn lemma_pow256_mono(m: nat, n: nat)
    requires
        m <= n,
    ensures
        pow256(m) <= pow256(n),
    decreases n,
{
    if m < n {
        lemma_pow256_mono(m, (n - 1) as nat);
        lemma_pow256_pos((n - 1) as nat);
    }
}

/// A byte string with a nonzero byte at position `j` names a value of at
/// least the place value of that position.
pub proof fn lemma_be_val_lower(s: Seq<u8>, j: int)
    requires
        0 <= j < s.len(),
        s[j] >= 1,
    ensures
        be_val(s) >= pow256((s.len() - 1 - j) as nat),
    decreases s.len(),
{
    if j == s.len() - 1 {
        lemma_be_val_nonneg(s.drop_last());
    } else {
        lemma_be_val_lower(s.drop_last(), j);
        lemma_be_val_nonneg(s.drop_last());
    }
}

/// Decoding an encoding gives back the value, reduced to `n` bytes.
pub proof fn lemma_be_val_be_bytes(v: int, n: nat)
    requires
        v >= 0,
    ensures
        be_bytes(v, n).len() == n,
        be_val(be_bytes(v, n)) == v % pow256(n),
    decreases n,
{
    if n == 0 {
        assert(v % 1 == 0) by (nonlinear_arith)
            requires
                v >= 0,
        ;
    } else {
        lemma_be_val_be_bytes(v / 256, (n - 1) as nat);
        lemma_pow256_pos((n - 1) as nat);
        lemma_mod_bound(v, 256);
        lemma_mod_breakdown(v, 256, pow256((n - 1) as nat));
        assert(be_bytes(v, n).drop_last() =~= be_bytes(v / 256, (n - 1) as nat));
    }
}

/// Encoding the value of a byte string gives back the byte string itself.
pub proof fn lemma_be_bytes_of_val(s: Seq<u8>)
    ensures
        be_bytes(be_val(s), s.len()) == s,
    decreases s.len(),
{
    if s.len() == 0 {
        assert(be_bytes(0, 0) =~= s);
    } else {
        let v = be_val(s);
        lemma_be_val_nonneg(s.drop_last());
        lemma_fundamental_div_mod_converse(v, 256, be_val(s.drop_last()), s.last() as int);
        lemma_be_bytes_of_val(s.drop_last());
        assert(be_bytes(v, s.len()) =~= s);
    }
}

/// Writes the low `n` bytes of a value, big-endian.
pub fn u64_be(v: u64, n: usize) -> (r: Vec<u8>)
    ensures
        r@ == be_bytes(v as int, n as nat),
        r@.len() == n,
    decreases n,
{
    if n == 0 {
        Vec::new()
    } else {
        let mut r = u64_be(v / 256, n - 1);
        r.push((v % 256) as u8);
        r
    }
}

/// Reads 20 big-endian bytes as an integer, reporting `None` when the value
/// does not fit a machine word.
pub fn read_be20(b: &[u8], off: usize) -> (r: Option<u64>)
    requires
        off + 20 <= b@.len(),
    ensures
        match r {
            Some(v) => v as int == be_val(b@.subrange(off as int, off as int + 20)),
            None => be_val(b@.subrange(off as int, off as int + 20)) >= 0x10000000000000000,
        },
{
    let n = b.len();
    let ghost s = b@.subrange(off as int, off as int + 20);
    let mut j: usize = 0;
    while j < 12
        invariant
            j <= 12,
            off + 20 <= b@.len(),
            b@.len() <= usize::MAX,
            s == b@.subrange(off as int, off as int + 20),
            forall|k: int| 0 <= k < j ==> s[k] == 0,
        decreases 12 - j,
    {
        if b[off + j] != 0 {
            proof {
                lemma_be_val_lower(s, j as int);
                lemma_pow256_mono(8, (19 - j) as nat);
                reveal_with_fuel(pow256, 9);
                assert(pow256(8) == 0x10000000000000000);
            }
            return None;
        }
        j = j + 1;
    }
    let mut acc: u64 = 0;
    let mut i: usize = 12;
    proof {
        assert(be_val(s.subrange(0, 12)) == 0 && s.subrange(0, 12).len() == 12) by {
            lemma_zero_seq_val(s.subrange(0, 12));
        }
        reveal_with_fuel(pow256, 1);
        assert(pow256(0) == 1);
    }
    while i < 20
        invariant
            12 <= i <= 20,
            off + 20 <= b@.len(),
            b@.len() <= usize::MAX,
            s == b@.subrange(off as int, off as int + 20),
            acc as int == be_val(s.subrange(0, i as int)),
            (acc as int) < pow256((i - 12) as nat),
        decreases 20 - i,
    {
        proof {
            lemma_pow256_mono((i - 12) as nat, 7);
            reveal_with_fuel(pow256, 8);
            assert(pow256(7) == 0x100000000000000);
            assert(s.subrange(0, i + 1).drop_last() =~= s.subrange(0, i as int));
            assert(s.subrange(0, i + 1).last() == s[i as int]);
            assert(s[i as int] == b@[off + i]);
        }
        acc = acc * 256 + (b[off + i] as u64);
        i = i + 1;
    }
    proof {
        assert(s.subrange(0, 20) =~= s);
    }
    Some(acc)
}

proof fn lemma_zero_seq_val(s: Seq<u8>)
    requires
        forall|k: int| 0 <= k < s.len() ==> s[k] == 0,
    ensures
        be_val(s) == 0,
    decreases s.len(),
{
    if s.len() > 0 {
        lemma_zero_seq_val(s.drop_last());
    }
}

/// Encodes a scalar as 20 big-endian bytes.
pub fn encode_scalar(s: &Scalar) -> (r: Vec<u8>)
    requires
        s.wf(),
    ensures
        r@ == be_bytes(s.v as int, 20),
        r@.len() == 20,
        be_val(r@) == s.v as int,
{
    proof {
        lemma_be_val_be_bytes(s.v as int, 20);
        lemma_pow256_mono(8, 20);
        reveal_with_fuel(pow256, 9);
        assert(pow256(8) == 0x10000000000000000);
        lemma_small_mod(s.v as nat, pow256(20) as nat);
    }
    u64_be(s.v, 20)
}

/// Decodes a 20-byte big-endian scalar; the value must be below the group
/// order.
pub fn decode_scalar(b: &[u8]) -> (r: Result<Scalar, SigError>)
    ensures
        b@.len() != 20 ==> r == Err::<Scalar, SigError>(SigError::InvalidLength),
        b@.len() == 20 && be_val(b@) >= GROUP_ORDER ==> r == Err::<Scalar, SigError>(
            SigError::InvalidScalarEncoding,
        ),
        b@.len() == 20 && be_val(b@) < GROUP_ORDER ==> (r matches Ok(s) && s.v as int == be_val(b@)
            && s.wf()),
{
    if b.len() != 20 {
        return Err(SigError::InvalidLength);
    }
    proof {
        assert(b@.subrange(0, 20) =~= b@);
        lemma_be_val_nonneg(b@);
    }
    match read_be20(b, 0) {
        None => Err(SigError::InvalidScalarEncoding),
        Some(v) => {
            if v >= GROUP_ORDER {
                Err(SigError::InvalidScalarEncoding)
            } else {
                Ok(Scalar { v })
            }
        },
    }
}

/// The low bytes of zero are all zero.
pub proof fn lemma_zero_bytes(n: nat)
    ensures
        be_bytes(0, n).len() == n,
        forall|i: int| 0 <= i < n ==> be_bytes(0, n)[i] == 0,
    decreases n,
{
    if n > 0 {
        lemma_zero_bytes((n - 1) as nat);
    }
}

/// The compressed 21-byte encoding of an element of the first group: 21 zero
/// bytes for the point at infinity, otherwise a parity tag followed by the
/// 20-byte big-endian x-coordinate.
pub open spec fn g1_enc(p: PointModel) -> Seq<u8> {
    match p {
        PointModel::Inf => be_bytes(0, 21),
        PointModel::At { x, y } => seq![if y % 2 == 1 { 3u8 } else { 2u8 }] + be_bytes(x, 20),
    }
}

/// The decoding of a 21-byte buffer as an element of the first group.  The
/// square root candidate is the `(FIELD_PRIME + 1) / 4`-th power of the curve
/// equation's right-hand side; if its square does not give the right-hand
/// side back, the x-coordinate is not on the curve.
pub open spec fn g1_dec(s: Seq<u8>) -> Result<PointModel, SigError> {
    if s.len() != 21 {
        Err(SigError::InvalidLength)
    } else if s[0] == 0 {
        if s == be_bytes(0, 21) {
            Ok(PointModel::Inf)
        } else {
            Err(SigError::PointNotOnCurve)
        }
    } else if s[0] == 2 || s[0] == 3 {
        let x = be_val(s.subrange(1, 21));
        if x >= FIELD_PRIME {
            Err(SigError::PointNotOnCurve)
        } else {
            let rhs = f_add(f_mul(f_mul(x, x), x), x);
            let y0 = f_pow(rhs, GROUP_ORDER as nat);
            if f_mul(y0, y0) != rhs {
                Err(SigError::PointNotOnCurve)
            } else if y0 == 0 && s[0] == 3 {
                Err(SigError::PointNotOnCurve)
            } else {
                let y = if (y0 % 2 == 1) == (s[0] == 3) {
                    y0
                } else {
                    f_neg(y0)
                };
                Ok(PointModel::At { x, y })
            }
        }
    } else {
        Err(SigError::PointNotOnCurve)
    }
}

/// The compressed 41-byte encoding of an element of the second group.  The
/// element is the distortion image `(-v, i*w)` of its stored preimage
/// `(v, w)`, so the encoding is a parity tag for `w`, the 20-byte big-endian
/// real part `-v` of the x-coordinate, and 20 zero bytes for its imaginary
/// part.
pub open spec fn g2_enc(p: PointModel) -> Seq<u8> {
    match p {
        PointModel::Inf => be_bytes(0, 41),
        PointModel::At { x: v, y: w } => seq![if w % 2 == 1 { 3u8 } else { 2u8 }] + be_bytes(
            f_neg(v),
            20,
        ) + be_bytes(0, 20),
    }
}

/// The decoding of a 41-byte buffer as an element of the second group, given
/// as the base-curve preimage of the distortion map.  The x-coordinate of a
/// second-group element always lies in the base field, so a nonzero
/// imaginary part never names an element of the group.
pub open spec fn g2_dec(s: Seq<u8>) -> Result<PointModel, SigError> {
    if s.len() != 41 {
        Err(SigError::InvalidLength)
    } else if s[0] == 0 {
        if s == be_bytes(0, 41) {
            Ok(PointModel::Inf)
        } else {
            Err(SigError::PointNotOnCurve)
        }
    } else if s[0] == 2 || s[0] == 3 {
        let a = be_val(s.subrange(1, 21));
        let bq = be_val(s.subrange(21, 41));
        if a >= FIELD_PRIME || bq != 0 {
            Err(SigError::PointNotOnCurve)
        } else {
            let v = f_neg(a);
            let rhs = f_add(f_mul(f_mul(v, v), v), v);
            let w0 = f_pow(rhs, GROUP_ORDER as nat);
            if f_mul(w0, w0) != rhs {
                Err(SigError::PointNotOnCurve)
            } else if w0 == 0 && s[0] == 3 {
                Err(SigError::PointNotOnCurve)
            } else {
                let w = if (w0 % 2 == 1) == (s[0] == 3) {
                    w0
                } else {
                    f_neg(w0)
                };
                Ok(PointModel::At { x: v, y: w })
            }
        }
    } else {
        Err(SigError::PointNotOnCurve)
    }
}

/// A power of a field element is a reduced field element.
pub proof fn lemma_f_pow_ok(b: int, e: nat)
    ensures
        f_ok(f_pow(b, e)),
    decreases e,
{
    if e > 0 {
        let h = f_pow(b, e / 2);
        lemma_mod_bound(h * h, FIELD_PRIME as int);
        lemma_mod_bound((h * h) % (FIELD_PRIME as int) * b, FIELD_PRIME as int);
    }
}

/// Negating a nonzero reduced element flips its parity, because the prime is
/// odd.
proof fn lemma_neg_parity(y: int)
    requires
        0 < y < FIELD_PRIME,
    ensures
        (FIELD_PRIME - y) % 2 == 1 - y % 2,
{
    lemma_mod_bound(y, 2);
    if y % 2 == 0 {
        lemma_fundamental_div_mod_converse(
            FIELD_PRIME - y,
            2,
            (FIELD_PRIME as int - 1) / 2 - y / 2,
            1,
        );
    } else {
        lemma_fundamental_div_mod_converse(
            FIELD_PRIME - y,
            2,
            (FIELD_PRIME as int + 1) / 2 - (y + 1) / 2,
            0,
        );
    }
}

/// A reduced element and its negation have the same square.
proof fn lemma_neg_square(y: int)
    requires
        f_ok(y),
    ensures
        f_mul(f_neg(y), f_neg(y)) == f_mul(y, y),
{
    crate::field::lemma_f_neg_ok(y);
    if y != 0 {
        let p = FIELD_PRIME as int;
        assert((p - y) * (p - y) == p * (p - 2 * y) + y * y) by (nonlinear_arith);
        lemma_mod_multiples_vanish(p - 2 * y, y * y, p);
    }
}

/// Re-encoding any decoded element of the first group gives back exactly the
/// bytes that were decoded: the 21-byte compressed encoding is canonical.
/// Every decoded element also lies on the curve.
pub proof fn lemma_g1_canonical(s: Seq<u8>, p: PointModel)
    requires
        g1_dec(s) == Ok::<PointModel, SigError>(p),
    ensures
        g1_enc(p) == s,
        on_curve(p),
{
    assert(s.len() == 21);
    if s[0] == 0 {
        assert(p == PointModel::Inf);
    } else {
        let x = be_val(s.subrange(1, 21));
        let rhs = f_add(f_mul(f_mul(x, x), x), x);
        let y0 = f_pow(rhs, GROUP_ORDER as nat);
        lemma_be_val_nonneg(s.subrange(1, 21));
        lemma_f_pow_ok(rhs, GROUP_ORDER as nat);
        let matchp = (y0 % 2 == 1) == (s[0] == 3);
        let y = if matchp {
            y0
        } else {
            f_neg(y0)
        };
        assert(p == PointModel::At { x, y });
        if !matchp {
            assert(y0 != 0);
            crate::field::lemma_f_neg_ok(y0);
            lemma_neg_parity(y0);
            lemma_neg_square(y0);
        }
        lemma_be_bytes_of_val(s.subrange(1, 21));
        assert(s =~= seq![s[0]] + s.subrange(1, 21));
        assert((if y % 2 == 1 { 3u8 } else { 2u8 }) == s[0]);
    }
}

/// Re-encoding any decoded element of the second group gives back exactly
/// the bytes that were decoded: the 41-byte compressed encoding is
/// canonical.  Every decoded preimage also lies on the curve.
pub proof fn lemma_g2_canonical(s: Seq<u8>, p: PointModel)
    requires
        g2_dec(s) == Ok::<PointModel, SigError>(p),
    ensures
        g2_enc(p) == s,
        on_curve(p),
{
    assert(s.len() == 41);
    if s[0] == 0 {
        assert(p == PointModel::Inf);
    } else {
        let a = be_val(s.subrange(1, 21));
        let v = f_neg(a);
        let rhs = f_add(f_mul(f_mul(v, v), v), v);
        let w0 = f_pow(rhs, GROUP_ORDER as nat);
        lemma_be_val_nonneg(s.subrange(1, 21));
        crate::field::lemma_f_neg_ok(a);
        lemma_f_pow_ok(rhs, GROUP_ORDER as nat);
        let matchp = (w0 % 2 == 1) == (s[0] == 3);
        let w = if matchp {
            w0
        } else {
            f_neg(w0)
        };
        assert(p == PointModel::At { x: v, y: w });
        if !matchp {
            assert(w0 != 0);
            crate::field::lemma_f_neg_ok(w0);
            lemma_neg_parity(w0);
            lemma_neg_square(w0);
        }
        lemma_be_bytes_of_val(s.subrange(1, 21));
        lemma_be_bytes_of_val(s.subrange(21, 41));
        assert(s =~= seq![s[0]] + s.subrange(1, 21) + s.subrange(21, 41));
        assert((if w % 2 == 1 { 3u8 } else { 2u8 }) == s[0]);
    }
}

/// Decoding the encoding of any reduced scalar gives the scalar back: the
/// 20-byte scalar encoding round-trips.
pub proof fn lemma_scalar_round_trip(v: int)
    requires
        0 <= v < GROUP_ORDER,
    ensures
        be_bytes(v, 20).len() == 20,
        be_val(be_bytes(v, 20)) == v,
{
    lemma_be_val_be_bytes(v, 20);
    lemma_pow256_mono(8, 20);
    reveal_with_fuel(pow256, 9);
    assert(pow256(8) == 0x10000000000000000);
    lemma_small_mod(v as nat, pow256(20) as nat);
}

/// The value of a decode result of the first group.
pub open spec fn res_g1(r: Result<G1Point, SigError>) -> Result<PointModel, SigError> {
    match r {
        Ok(p) => Ok(p.m()),
        Err(e) => Err(e),
    }
}

/// The value of a decode result of the second group.
pub open spec fn res_g2(r: Result<G2Point, SigError>) -> Result<PointModel, SigError> {
    match r {
        Ok(p) => Ok(p.m()),
        Err(e) => Err(e),
    }
}

/// Encodes an element of the first group as 21 compressed bytes.
pub fn encode_g1(p: &G1Point) -> (r: Vec<u8>)
    requires
        p.wf(),
    ensures
        r@ == g1_enc(p.m()),
        r@.len() == 21,
{
    match p {
        G1Point::Infinity => u64_be(0, 21),
        G1Point::Affine { x, y } => {
            let tag: u8 = if *y % 2 == 1 {
                3
            } else {
                2
            };
            let mut out: Vec<u8> = Vec::new();
            out.push(tag);
            let mut tail = u64_be(*x, 20);
            out.append(&mut tail);
            proof {
                assert(out@ =~= seq![tag] + be_bytes(*x as int, 20));
            }
            out
        },
    }
}

/// Decodes 21 compressed bytes as an element of the first group.
pub fn decode_g1(b: &[u8]) -> (r: Result<G1Point, SigError>)
    ensures
        res_g1(r) == g1_dec(b@),
        r matches Ok(p) ==> p.wf(),
{
    if b.len() != 21 {
        return Err(SigError::InvalidLength);
    }
    let tag = b[0];
    if tag == 0 {
        let mut j: usize = 1;
        while j < 21
            invariant
                1 <= j <= 21,
                b@.len() == 21,
                tag == b@[0],
                tag == 0,
                forall|k: int| 1 <= k < j ==> b@[k] == 0,
            decreases 21 - j,
        {
            if b[j] != 0 {
                proof {
                    lemma_zero_bytes(21);
                    assert(b@[j as int] != be_bytes(0, 21)[j as int]);
                }
                return Err(SigError::PointNotOnCurve);
            }
            j = j + 1;
        }
        proof {
            lemma_zero_bytes(21);
            assert(b@ =~= be_bytes(0, 21));
        }
        return Ok(G1Point::Infinity);
    }
    if tag == 2 || tag == 3 {
        match read_be20(b, 1) {
            None => {
                return Err(SigError::PointNotOnCurve);
            },
            Some(x) => {
                if x >= FIELD_PRIME {
                    return Err(SigError::PointNotOnCurve);
                }
                let rhs = fp_add(fp_mul(fp_mul(x, x), x), x);
                let y0 = fp_pow(rhs, GROUP_ORDER);
                if fp_mul(y0, y0) != rhs {
                    return Err(SigError::PointNotOnCurve);
                }
                if y0 == 0 && tag == 3 {
                    return Err(SigError::PointNotOnCurve);
                }
                let y = if (y0 % 2 == 1) == (tag == 3) {
                    y0
                } else {
                    fp_neg(y0)
                };
                return Ok(G1Point::Affine { x, y });
            },
        }
    }
    Err(SigError::PointNotOnCurve)
}

/// Encodes an element of the second group as 41 compressed bytes.
pub fn encode_g2(p: &G2Point) -> (r: Vec<u8>)
    requires
        p.wf(),
    ensures
        r@ == g2_enc(p.m()),
        r@.len() == 41,
{
    match &p.rep {
        G1Point::Infinity => u64_be(0, 41),
        G1Point::Affine { x: v, y: w } => {
            let tag: u8 = if *w % 2 == 1 {
                3
            } else {
                2
            };
            let mut out: Vec<u8> = Vec::new();
            out.push(tag);
            let mut re = u64_be(fp_neg(*v), 20);
            out.append(&mut re);
            let mut im = u64_be(0, 20);
            out.append(&mut im);
            proof {
                assert(out@ =~= seq![tag] + be_bytes(f_neg(*v as int), 20) + be_bytes(0, 20));
            }
            out
        },
    }
}

/// Decodes 41 compressed bytes as an element of the second group.
pub fn decode_g2(b: &[u8]) -> (r: Result<G2Point, SigError>)
    ensures
        res_g2(r) == g2_dec(b@),
        r matches Ok(p) ==> p.wf(),
{
    if b.len() != 41 {
        return Err(SigError::InvalidLength);
    }
    let tag = b[0];
    if tag == 0 {
        let mut j: usize = 1;
        while j < 41
            invariant
                1 <= j <= 41,
                b@.len() == 41,
                tag == b@[0],
                tag == 0,
                forall|k: int| 1 <= k < j ==> b@[k] == 0,
            decreases 41 - j,
        {
            if b[j] != 0 {
                proof {
                    lemma_zero_bytes(41);
                    assert(b@[j as int] != be_bytes(0, 41)[j as int]);
                }
                return Err(SigError::PointNotOnCurve);
            }
            j = j + 1;
        }
        proof {
            lemma_zero_bytes(41);
            assert(b@ =~= be_bytes(0, 41));
        }
        return Ok(G2Point { rep: G1Point::Infinity });
    }
    if tag == 2 || tag == 3 {
        let a = match read_be20(b, 1) {
            None => {
                return Err(SigError::PointNotOnCurve);
            },
            Some(a) => a,
        };
        let bq = match read_be20(b, 21) {
            None => {
                return Err(SigError::PointNotOnCurve);
            },
            Some(z) => z,
        };
        if a >= FIELD_PRIME || bq != 0 {
            return Err(SigError::PointNotOnCurve);
        }
        let v = fp_neg(a);
        let rhs = fp_add(fp_mul(fp_mul(v, v), v), v);
        let w0 = fp_pow(rhs, GROUP_ORDER);
        if fp_mul(w0, w0) != rhs {
            return Err(SigError::PointNotOnCurve);
        }
        if w0 == 0 && tag == 3 {
            return Err(SigError::PointNotOnCurve);
        }
        let w = if (w0 % 2 == 1) == (tag == 3) {
            w0
        } else {
            fp_neg(w0)
        };
        return Ok(G2Point { rep: G1Point::Affine { x: v, y: w } });
    }
    Err(SigError::PointNotOnCurve)
}

} // verus!
