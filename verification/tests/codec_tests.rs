use pairsig::{decode_g1, decode_g2, decode_scalar, encode_g1, encode_g2, encode_scalar, SigError};

fn scalar_bytes(tail: &[u8]) -> Vec<u8> {
    let mut b = vec![0u8; 20 - tail.len()];
    b.extend_from_slice(tail);
    b
}

#[test]
fn scalar_round_trip_small_values() {
    for tail in [&[0u8][..], &[1u8][..], &[0x12u8, 0x34][..], &[0xffu8, 0xff, 0xff][..]] {
        let b = scalar_bytes(tail);
        let s = decode_scalar(&b).unwrap();
        let back = encode_scalar(&s);
        assert_eq!(back, b);
        assert_eq!(decode_scalar(&back).unwrap(), s);
    }
}

#[test]
fn scalar_boundary_values() {
    // one below the group order decodes; the group order itself does not
    let below = scalar_bytes(&[0x08, 0x00, 0x00, 0x00, 0x00, 0x00, 0x09, 0x2c]);
    assert!(decode_scalar(&below).is_ok());
    let order = scalar_bytes(&[0x08, 0x00, 0x00, 0x00, 0x00, 0x00, 0x09, 0x2d]);
    assert_eq!(decode_scalar(&order).unwrap_err(), SigError::InvalidScalarEncoding);
    let all_ones = vec![0xffu8; 20];
    assert_eq!(decode_scalar(&all_ones).unwrap_err(), SigError::InvalidScalarEncoding);
}

#[test]
fn scalar_wrong_length() {
    assert_eq!(decode_scalar(&vec![0u8; 19]).unwrap_err(), SigError::InvalidLength);
    assert_eq!(decode_scalar(&vec![0u8; 21]).unwrap_err(), SigError::InvalidLength);
    assert_eq!(decode_scalar(&[]).unwrap_err(), SigError::InvalidLength);
}

#[test]
fn g1_wrong_length() {
    assert_eq!(decode_g1(&vec![0u8; 20]).unwrap_err(), SigError::InvalidLength);
    assert_eq!(decode_g1(&vec![0u8; 22]).unwrap_err(), SigError::InvalidLength);
}

#[test]
fn g2_wrong_length() {
    assert_eq!(decode_g2(&vec![0u8; 40]).unwrap_err(), SigError::InvalidLength);
    assert_eq!(decode_g2(&vec![0u8; 42]).unwrap_err(), SigError::InvalidLength);
}

#[test]
fn g1_not_on_curve() {
    // x = 1: the curve equation's right-hand side is a non-residue
    let mut b = vec![0u8; 21];
    b[0] = 2;
    b[20] = 1;
    assert_eq!(decode_g1(&b).unwrap_err(), SigError::PointNotOnCurve);
}

#[test]
fn g1_bad_tag() {
    let mut b = vec![0u8; 21];
    b[0] = 1;
    assert_eq!(decode_g1(&b).unwrap_err(), SigError::PointNotOnCurve);
    b[0] = 4;
    assert_eq!(decode_g1(&b).unwrap_err(), SigError::PointNotOnCurve);
}

#[test]
fn g1_noncanonical_infinity() {
    let mut b = vec![0u8; 21];
    b[5] = 1;
    assert_eq!(decode_g1(&b).unwrap_err(), SigError::PointNotOnCurve);
}

#[test]
fn g1_infinity_round_trip() {
    let b = vec![0u8; 21];
    let p = decode_g1(&b).unwrap();
    assert_eq!(encode_g1(&p), b);
}

#[test]
fn g1_valid_point_canonical() {
    // x = 2 lies on the curve; decode then re-encode gives the same bytes
    let mut b = vec![0u8; 21];
    b[0] = 2;
    b[20] = 2;
    let p = decode_g1(&b).unwrap();
    assert_eq!(encode_g1(&p), b);
    let q = decode_g1(&encode_g1(&p)).unwrap();
    assert_eq!(q, p);
    // the other root of the same x is a different point
    b[0] = 3;
    let p2 = decode_g1(&b).unwrap();
    assert_eq!(encode_g1(&p2), b);
    assert!(p2 != p);
}

#[test]
fn g2_not_on_curve() {
    // the real part encodes v = 1, whose right-hand side is a non-residue
    let mut b = vec![0u8; 41];
    b[0] = 2;
    let real = [0x20u8, 0x00, 0x00, 0x00, 0x00, 0x00, 0x24, 0xb2];
    b[13..21].copy_from_slice(&real);
    assert_eq!(decode_g2(&b).unwrap_err(), SigError::PointNotOnCurve);
}

#[test]
fn g2_nonzero_imaginary_part() {
    // v = -2 is on the curve, but the imaginary part of x must be zero
    let mut b = vec![0u8; 41];
    b[0] = 2;
    let real = [0x20u8, 0x00, 0x00, 0x00, 0x00, 0x00, 0x24, 0xb1];
    b[13..21].copy_from_slice(&real);
    b[40] = 1;
    assert_eq!(decode_g2(&b).unwrap_err(), SigError::PointNotOnCurve);
}

#[test]
fn g2_valid_point_canonical() {
    // the real part encodes v = 2, which lies on the curve
    let mut b = vec![0u8; 41];
    b[0] = 2;
    let real = [0x20u8, 0x00, 0x00, 0x00, 0x00, 0x00, 0x24, 0xb1];
    b[13..21].copy_from_slice(&real);
    let p = decode_g2(&b).unwrap();
    assert_eq!(encode_g2(&p), b);
    let q = decode_g2(&encode_g2(&p)).unwrap();
    assert_eq!(q, p);
}
