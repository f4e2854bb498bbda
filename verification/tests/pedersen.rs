use pybulletproofs::field::{scalar_add, scalar_from_bytes, scalar_from_u64, scalar_to_bytes};
use pybulletproofs::group::{point_compress, point_decompress};
use pybulletproofs::pedersen::{
    commit, compare, open, pedersen_commit, pedersen_compare, pedersen_open, pedersen_subtract,
    pedersen_sum, subtract, sum,
};
use pybulletproofs::Error;

fn encoded(n: u64) -> [u8; 32] {
    scalar_to_bytes(&scalar_from_u64(n))
}

#[test]
fn commit_matches_the_proof_library() {
    let gens = bulletproofs::PedersenGens::default();
    let v = curve25519_dalek_ng::scalar::Scalar::from(42u64);
    let b = curve25519_dalek_ng::scalar::Scalar::from(7u64);
    let expected = gens.commit(v, b).compress().to_bytes();
    assert_eq!(pedersen_commit(encoded(42), encoded(7)), expected);
    assert_eq!(point_compress(&commit(&scalar_from_u64(42), &scalar_from_u64(7))), expected);
}

#[test]
fn commit_is_deterministic_and_hides_nothing_twice() {
    let a = pedersen_commit(encoded(42), encoded(7));
    assert_eq!(a, pedersen_commit(encoded(42), encoded(7)));
    assert_ne!(a, pedersen_commit(encoded(42), encoded(8)));
    assert_ne!(a, pedersen_commit(encoded(43), encoded(7)));
    assert_ne!(a, encoded(42));
}

#[test]
fn commit_reduces_its_inputs() {
    let order = pybulletproofs::field::get_group_order();
    let mut order_plus_five = order;
    order_plus_five[0] += 5;
    assert_eq!(
        pedersen_commit(order_plus_five, order),
        pedersen_commit(encoded(5), encoded(0))
    );
}

#[test]
fn open_accepts_what_commit_built() {
    for &(value, blinding) in &[(0u64, 0u64), (42, 7), (u64::MAX, 1), (1, u64::MAX), (u64::MAX, u64::MAX)] {
        let commitment = pedersen_commit(encoded(value), encoded(blinding));
        assert!(pedersen_open(value, blinding, commitment));
    }
}

#[test]
fn open_rejects_another_value_or_blinding() {
    let commitment = pedersen_commit(encoded(42), encoded(7));
    assert!(!pedersen_open(43, 7, commitment));
    assert!(!pedersen_open(42, 8, commitment));
    assert!(!pedersen_open(7, 42, commitment));
    let mut tampered = commitment;
    tampered[5] ^= 0x10;
    assert!(!pedersen_open(42, 7, tampered));
}

#[test]
fn typed_open_accepts_any_blinding_scalar() {
    let value = scalar_from_u64(42);
    let blinding = scalar_from_bytes([0xcd; 32]);
    let commitment = commit(&value, &blinding);
    assert!(open(&value, &blinding, &commitment));
    assert!(!open(&value, &scalar_from_u64(1), &commitment));
    assert!(!open(&scalar_from_u64(41), &blinding, &commitment));
}

#[test]
fn sum_of_two_commitments_commits_to_the_sums() {
    let a = pedersen_commit(encoded(10), encoded(100));
    let b = pedersen_commit(encoded(32), encoded(200));
    assert_eq!(pedersen_sum(vec![a, b]), Ok(pedersen_commit(encoded(42), encoded(300))));
}

#[test]
fn sum_wraps_values_and_blindings_at_the_order() {
    let order = pybulletproofs::field::get_group_order();
    let mut top = order;
    top[0] -= 1;
    let a = pedersen_commit(top, top);
    let b = pedersen_commit(encoded(3), encoded(1));
    assert_eq!(pedersen_sum(vec![a, b]), Ok(pedersen_commit(encoded(2), encoded(0))));
    let v = scalar_add(&scalar_from_bytes(top), &scalar_from_u64(3));
    let w = scalar_add(&scalar_from_bytes(top), &scalar_from_u64(1));
    assert_eq!(
        pedersen_sum(vec![a, b]),
        Ok(pedersen_commit(scalar_to_bytes(&v), scalar_to_bytes(&w)))
    );
}

#[test]
fn sum_commutes_and_associates() {
    let a = pedersen_commit(encoded(1), encoded(11));
    let b = pedersen_commit(encoded(2), encoded(22));
    let c = pedersen_commit(encoded(3), encoded(33));
    let all = pedersen_sum(vec![a, b, c]).unwrap();
    assert_eq!(all, pedersen_commit(encoded(6), encoded(66)));
    assert_eq!(pedersen_sum(vec![c, a, b]), Ok(all));
    let ab = pedersen_sum(vec![a, b]).unwrap();
    let bc = pedersen_sum(vec![b, c]).unwrap();
    assert_eq!(pedersen_sum(vec![ab, c]), Ok(all));
    assert_eq!(pedersen_sum(vec![a, bc]), Ok(all));
}

#[test]
fn sum_of_one_commitment_is_itself() {
    let a = pedersen_commit(encoded(5), encoded(6));
    assert_eq!(pedersen_sum(vec![a]), Ok(a));
}

#[test]
fn sum_of_nothing_is_an_empty_input() {
    assert_eq!(pedersen_sum(Vec::new()), Err(Error::EmptyInputError));
    assert_eq!(sum(&Vec::new()), Err(Error::EmptyInputError));
}

#[test]
fn sum_rejects_bytes_that_encode_no_point() {
    let a = pedersen_commit(encoded(5), encoded(6));
    assert_eq!(pedersen_sum(vec![a, [0xff; 32]]), Err(Error::EncodingError));
    assert_eq!(pedersen_sum(vec![[0xff; 32]]), Err(Error::EncodingError));
}

#[test]
fn typed_sum_adds_points() {
    let a = commit(&scalar_from_u64(10), &scalar_from_u64(100));
    let b = commit(&scalar_from_u64(32), &scalar_from_u64(200));
    let expected = commit(&scalar_from_u64(42), &scalar_from_u64(300));
    assert_eq!(sum(&vec![a, b]), Ok(expected));
}

#[test]
fn subtract_undoes_sum() {
    let a = pedersen_commit(encoded(10), encoded(100));
    let b = pedersen_commit(encoded(32), encoded(200));
    let total = pedersen_sum(vec![a, b]).unwrap();
    assert_eq!(pedersen_subtract(total, b), Ok(a));
    assert_eq!(pedersen_subtract(total, a), Ok(b));
}

#[test]
fn subtract_undoes_sum_for_points_of_unknown_opening() {
    let a = bulletproofs::PedersenGens::default().B_blinding.compress().to_bytes();
    let b = curve25519_dalek_ng::constants::RISTRETTO_BASEPOINT_COMPRESSED.to_bytes();
    let total = pedersen_sum(vec![a, b]).unwrap();
    assert_eq!(pedersen_subtract(total, b), Ok(a));
}

#[test]
fn subtract_commits_to_the_differences() {
    let a = pedersen_commit(encoded(42), encoded(300));
    let b = pedersen_commit(encoded(32), encoded(200));
    assert_eq!(pedersen_subtract(a, b), Ok(pedersen_commit(encoded(10), encoded(100))));
    assert_eq!(pedersen_subtract(a, a), Ok([0u8; 32]));
    let x = point_decompress(&a).unwrap();
    let y = point_decompress(&b).unwrap();
    assert_eq!(point_compress(&subtract(&x, &y)), pedersen_commit(encoded(10), encoded(100)));
}

#[test]
fn subtract_rejects_bytes_that_encode_no_point() {
    let a = pedersen_commit(encoded(5), encoded(6));
    assert_eq!(pedersen_subtract(a, [0xff; 32]), Err(Error::EncodingError));
    assert_eq!(pedersen_subtract([0xff; 32], a), Err(Error::EncodingError));
}

#[test]
fn compare_is_byte_equality() {
    let a = pedersen_commit(encoded(5), encoded(6));
    let b = pedersen_commit(encoded(5), encoded(7));
    assert!(pedersen_compare(a, a));
    assert!(!pedersen_compare(a, b));
    assert!(pedersen_compare([0xff; 32], [0xff; 32]));
    let mut c = a;
    c[31] ^= 1;
    assert!(!pedersen_compare(a, c));
    let x = point_decompress(&a).unwrap();
    let y = point_decompress(&b).unwrap();
    assert!(compare(&x, &x));
    assert!(!compare(&x, &y));
}
