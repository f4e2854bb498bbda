use pybulletproofs::field::{scalar_from_bytes, scalar_from_u64};
use pybulletproofs::group::{
    bytes_eq, decompress_all, point_add, point_compress, point_decompress, point_eq,
    point_from_opening, point_scalar_mul, point_sub,
};
use pybulletproofs::Error;

const BASEPOINT: [u8; 32] = [
    0xe2, 0xf2, 0xae, 0x0a, 0x6a, 0xbc, 0x4e, 0x71, 0xa8, 0x84, 0xa9, 0x61, 0xc5, 0x00, 0x51, 0x5f,
    0x58, 0xe3, 0x0b, 0x6a, 0xa5, 0x82, 0xdd, 0x8d, 0xb6, 0xa6, 0x59, 0x45, 0xe0, 0x8d, 0x2d, 0x76,
];

fn blinding_generator() -> [u8; 32] {
    bulletproofs::PedersenGens::default().B_blinding.compress().to_bytes()
}

#[test]
fn the_identity_decodes() {
    let identity = point_decompress(&[0u8; 32]).unwrap();
    assert_eq!(point_compress(&identity), [0u8; 32]);
}

#[test]
fn the_basepoint_decodes() {
    let b = point_decompress(&BASEPOINT).unwrap();
    assert_eq!(point_compress(&b), BASEPOINT);
}

#[test]
fn bytes_that_encode_no_point_are_rejected() {
    assert_eq!(point_decompress(&[0xff; 32]), Err(Error::EncodingError));
    let mut one = [0u8; 32];
    one[0] = 1;
    assert_eq!(point_decompress(&one), Err(Error::EncodingError));
    let mut tampered = BASEPOINT;
    tampered[0] ^= 1;
    assert_eq!(point_decompress(&tampered), Err(Error::EncodingError));
}

#[test]
fn the_opening_one_zero_is_the_basepoint() {
    let p = point_from_opening(&scalar_from_u64(1), &scalar_from_u64(0));
    assert_eq!(point_compress(&p), BASEPOINT);
}

#[test]
fn the_opening_zero_one_is_the_blinding_generator() {
    let p = point_from_opening(&scalar_from_u64(0), &scalar_from_u64(1));
    assert_eq!(point_compress(&p), blinding_generator());
    assert_ne!(point_compress(&p), BASEPOINT);
}

#[test]
fn the_opening_zero_zero_is_the_identity() {
    let p = point_from_opening(&scalar_from_u64(0), &scalar_from_u64(0));
    assert_eq!(point_compress(&p), [0u8; 32]);
}

#[test]
fn addition_adds_openings() {
    let a = point_from_opening(&scalar_from_u64(3), &scalar_from_u64(10));
    let b = point_from_opening(&scalar_from_u64(4), &scalar_from_u64(20));
    let expected = point_from_opening(&scalar_from_u64(7), &scalar_from_u64(30));
    assert_eq!(point_add(&a, &b), expected);
    assert_eq!(point_add(&b, &a), expected);
    assert_ne!(point_add(&a, &b), a);
}

#[test]
fn adding_the_identity_changes_nothing() {
    let a = point_from_opening(&scalar_from_u64(3), &scalar_from_u64(10));
    let identity = point_decompress(&[0u8; 32]).unwrap();
    assert_eq!(point_add(&a, &identity), a);
}

#[test]
fn subtraction_subtracts_openings() {
    let a = point_from_opening(&scalar_from_u64(7), &scalar_from_u64(30));
    let b = point_from_opening(&scalar_from_u64(4), &scalar_from_u64(20));
    let expected = point_from_opening(&scalar_from_u64(3), &scalar_from_u64(10));
    assert_eq!(point_sub(&a, &b), expected);
    assert_eq!(point_compress(&point_sub(&a, &a)), [0u8; 32]);
}

#[test]
fn subtraction_wraps_openings_below_zero() {
    let a = point_from_opening(&scalar_from_u64(1), &scalar_from_u64(0));
    let b = point_from_opening(&scalar_from_u64(2), &scalar_from_u64(0));
    let mut top = [0u8; 32];
    top.copy_from_slice(&curve25519_dalek_ng::constants::BASEPOINT_ORDER.to_bytes());
    top[0] -= 1;
    let expected = point_from_opening(&scalar_from_bytes(top), &scalar_from_u64(0));
    assert_eq!(point_sub(&a, &b), expected);
}

#[test]
fn scalar_multiplication_scales_openings() {
    let a = point_from_opening(&scalar_from_u64(3), &scalar_from_u64(10));
    let expected = point_from_opening(&scalar_from_u64(15), &scalar_from_u64(50));
    assert_eq!(point_scalar_mul(&a, &scalar_from_u64(5)), expected);
    assert_eq!(point_scalar_mul(&a, &scalar_from_u64(1)), a);
    assert_eq!(point_compress(&point_scalar_mul(&a, &scalar_from_u64(0))), [0u8; 32]);
}

#[test]
fn multiplying_by_the_order_gives_the_identity() {
    let b = point_decompress(&BASEPOINT).unwrap();
    let top = scalar_from_u64(0);
    let almost = pybulletproofs::field::scalar_sub(&top, &scalar_from_u64(1));
    let back = point_add(&point_scalar_mul(&b, &almost), &b);
    assert_eq!(point_compress(&back), [0u8; 32]);
}

#[test]
fn group_operations_match_the_curve_library() {
    let g = curve25519_dalek_ng::constants::RISTRETTO_BASEPOINT_POINT;
    let h = bulletproofs::PedersenGens::default().B_blinding;
    let s = curve25519_dalek_ng::scalar::Scalar::from(77u64);
    let a = point_decompress(&g.compress().to_bytes()).unwrap();
    let b = point_decompress(&h.compress().to_bytes()).unwrap();
    assert_eq!(point_compress(&point_add(&a, &b)), (g + h).compress().to_bytes());
    assert_eq!(point_compress(&point_sub(&a, &b)), (g - h).compress().to_bytes());
    assert_eq!(
        point_compress(&point_scalar_mul(&b, &scalar_from_u64(77))),
        (h * s).compress().to_bytes()
    );
}

#[test]
fn point_equality_is_encoding_equality() {
    let a = point_from_opening(&scalar_from_u64(3), &scalar_from_u64(10));
    let b = point_from_opening(&scalar_from_u64(3), &scalar_from_u64(11));
    assert!(point_eq(&a, &a));
    assert!(!point_eq(&a, &b));
    assert!(bytes_eq(&BASEPOINT, &BASEPOINT));
    let mut other = BASEPOINT;
    other[31] ^= 0x40;
    assert!(!bytes_eq(&BASEPOINT, &other));
    other = BASEPOINT;
    other[0] ^= 1;
    assert!(!bytes_eq(&BASEPOINT, &other));
}

#[test]
fn a_list_decodes_only_if_every_element_does() {
    let good = vec![BASEPOINT, [0u8; 32], blinding_generator()];
    let points = decompress_all(&good).unwrap();
    assert_eq!(points.len(), 3);
    assert_eq!(point_compress(&points[0]), BASEPOINT);
    assert_eq!(point_compress(&points[1]), [0u8; 32]);
    assert_eq!(point_compress(&points[2]), blinding_generator());
    let bad = vec![BASEPOINT, [0xff; 32]];
    assert_eq!(decompress_all(&bad), Err(Error::EncodingError));
    assert_eq!(decompress_all(&Vec::new()), Ok(Vec::new()));
}
