use pybulletproofs::field::{
    scalar_add, scalar_from_bytes, scalar_from_u64, scalar_mul, scalar_sub, scalar_to_bytes,
    Scalar,
};
use pybulletproofs::group::{point_compress, point_decompress};
use pybulletproofs::lagrange::{
    aggregate, inverse_by_factors, pedersen_aggregate, without_index, Share,
};
use pybulletproofs::pedersen::{commit, pedersen_commit};
use pybulletproofs::{lagrange_coefficient, Error};

fn encoded(n: u64) -> [u8; 32] {
    scalar_to_bytes(&scalar_from_u64(n))
}

fn minus(n: u64) -> Scalar {
    scalar_sub(&scalar_from_u64(0), &scalar_from_u64(n))
}

/// The value at `x` of the polynomial with the given coefficients, in the field.
fn evaluate(coefficients: &[Scalar], x: u64) -> Scalar {
    let mut value = scalar_from_u64(0);
    for c in coefficients.iter().rev() {
        value = scalar_add(&scalar_mul(&value, &scalar_from_u64(x)), c);
    }
    value
}

#[test]
fn coefficients_of_one_two_three() {
    assert_eq!(lagrange_coefficient(1, vec![2, 3]), Ok(scalar_from_u64(3)));
    assert_eq!(lagrange_coefficient(2, vec![1, 3]), Ok(minus(3)));
    assert_eq!(lagrange_coefficient(3, vec![1, 2]), Ok(scalar_from_u64(1)));
}

#[test]
fn coefficient_with_a_fraction() {
    // -7 / (5 - 7) = 7 / 2
    let expected = [
        250, 233, 122, 46, 141, 49, 9, 44, 107, 206, 123, 81, 239, 124, 111, 10, 0, 0, 0, 0, 0, 0,
        0, 0, 0, 0, 0, 0, 0, 0, 0, 8,
    ];
    let c = lagrange_coefficient(5, vec![7]).unwrap();
    assert_eq!(scalar_to_bytes(&c), expected);
    assert_eq!(scalar_mul(&c, &scalar_from_u64(2)), scalar_from_u64(7));
}

#[test]
fn coefficient_among_four_points() {
    // (-20)(-30)(-40) / ((10-20)(10-30)(10-40)) = 4
    assert_eq!(lagrange_coefficient(10, vec![20, 30, 40]), Ok(scalar_from_u64(4)));
    assert_eq!(lagrange_coefficient(10, vec![40, 20, 30]), Ok(scalar_from_u64(4)));
}

#[test]
fn coefficient_of_the_largest_covariates() {
    assert_eq!(lagrange_coefficient(u64::MAX, vec![1, u64::MAX - 1]), Ok(scalar_from_u64(1)));
}

#[test]
fn coefficient_of_a_lone_covariate_is_one() {
    assert_eq!(lagrange_coefficient(9, Vec::new()), Ok(scalar_from_u64(1)));
}

#[test]
fn coefficient_next_to_zero_is_zero() {
    assert_eq!(lagrange_coefficient(4, vec![0, 9]), Ok(scalar_from_u64(0)));
    assert_eq!(lagrange_coefficient(0, vec![4, 9]), Ok(scalar_from_u64(1)));
}

#[test]
fn a_repeated_covariate_is_division_by_zero() {
    assert_eq!(lagrange_coefficient(2, vec![1, 2, 3]), Err(Error::DivisionByZero));
    assert_eq!(lagrange_coefficient(2, vec![2]), Err(Error::DivisionByZero));
    assert_eq!(lagrange_coefficient(0, vec![5, 0]), Err(Error::DivisionByZero));
    assert_eq!(lagrange_coefficient(7, vec![1, 1]), Ok(scalar_mul(
        &scalar_from_u64(1),
        &pybulletproofs::field::scalar_invert(&scalar_from_u64(36)).unwrap(),
    )));
}

#[test]
fn coefficient_matches_one_division_in_the_curve_library() {
    let covariate = 123456789u64;
    let others = vec![5u64, 77, 1 << 40, u64::MAX];
    let x = curve25519_dalek_ng::scalar::Scalar::from(covariate);
    let mut numerator = curve25519_dalek_ng::scalar::Scalar::one();
    let mut denominator = curve25519_dalek_ng::scalar::Scalar::one();
    for o in others.iter() {
        let y = curve25519_dalek_ng::scalar::Scalar::from(*o);
        numerator = numerator * (-y);
        denominator = denominator * (x - y);
    }
    let expected = numerator * denominator.invert();
    let c = lagrange_coefficient(covariate, others).unwrap();
    assert_eq!(scalar_to_bytes(&c), expected.to_bytes());
}

#[test]
fn inverting_by_factors_inverts_the_denominator() {
    // (10 - 20)(10 - 30)(10 - 40) = -6000
    let inverse = inverse_by_factors(10, &vec![20, 30, 40]).unwrap();
    assert_eq!(scalar_mul(&inverse, &minus(6000)), scalar_from_u64(1));
    assert_eq!(inverse, pybulletproofs::field::scalar_invert(&minus(6000)).unwrap());
    // 5 - 7 = -2, whose inverse is the inverse of two, negated.
    let half = [
        247, 233, 122, 46, 141, 49, 9, 44, 107, 206, 123, 81, 239, 124, 111, 10, 0, 0, 0, 0, 0, 0,
        0, 0, 0, 0, 0, 0, 0, 0, 0, 8,
    ];
    let expected = scalar_sub(&scalar_from_u64(0), &scalar_from_bytes(half));
    assert_eq!(inverse_by_factors(5, &vec![7]), Ok(expected));
    assert_eq!(inverse_by_factors(9, &Vec::new()), Ok(scalar_from_u64(1)));
    assert_eq!(inverse_by_factors(2, &vec![1, 2, 3]), Err(Error::DivisionByZero));
    assert_eq!(inverse_by_factors(0, &vec![0]), Err(Error::DivisionByZero));
}

#[test]
fn the_coefficient_is_the_numerator_times_the_inverse_by_factors() {
    let covariate = 987654321u64;
    let others = vec![3u64, 1 << 50, u64::MAX, 12];
    let mut numerator = scalar_from_u64(1);
    for o in others.iter() {
        numerator = scalar_mul(&numerator, &minus(*o));
    }
    let inverse = inverse_by_factors(covariate, &others).unwrap();
    assert_eq!(lagrange_coefficient(covariate, others), Ok(scalar_mul(&numerator, &inverse)));
}

#[test]
fn coefficients_sum_to_one() {
    let covariates = vec![3u64, 8, 21, 1000, u64::MAX];
    let mut total = scalar_from_u64(0);
    for k in 0..covariates.len() {
        let c = lagrange_coefficient(covariates[k], without_index(&covariates, k)).unwrap();
        total = scalar_add(&total, &c);
    }
    assert_eq!(total, scalar_from_u64(1));
}

#[test]
fn without_index_drops_one_position() {
    let list = vec![10u64, 20, 30, 40];
    assert_eq!(without_index(&list, 0), vec![20, 30, 40]);
    assert_eq!(without_index(&list, 2), vec![10, 20, 40]);
    assert_eq!(without_index(&list, 3), vec![10, 20, 30]);
    assert_eq!(without_index(&vec![7u64], 0), Vec::<u64>::new());
}

#[test]
fn three_shares_reconstruct_the_commitment_to_42() {
    // f(x) = 42 + 5x + 7x^2, shared at 1, 2, 3.
    let shares = [54u64, 80, 120];
    let blindings = [100u64, 20, 3];
    let commitments: Vec<[u8; 32]> =
        (0..3).map(|k| pedersen_commit(encoded(shares[k]), encoded(blindings[k]))).collect();
    // 3 * 100 - 3 * 20 + 1 * 3
    let expected = pedersen_commit(encoded(42), encoded(243));
    assert_eq!(pedersen_aggregate(commitments, vec![1, 2, 3]), Ok(expected));
}

#[test]
fn reconstruction_uses_the_interpolated_blinding() {
    let polynomial = [scalar_from_u64(42), scalar_from_bytes([0x5a; 32]), scalar_from_bytes([0xc3; 32])];
    let covariates = vec![17u64, 4, 99];
    let blindings = [scalar_from_bytes([1; 32]), scalar_from_bytes([2; 32]), scalar_from_bytes([3; 32])];
    let mut shares = Vec::new();
    let mut blinding = scalar_from_u64(0);
    for k in 0..3 {
        let value = evaluate(&polynomial, covariates[k]);
        shares.push(Share { covariate: covariates[k], commitment: commit(&value, &blindings[k]) });
        let c = lagrange_coefficient(covariates[k], without_index(&covariates, k)).unwrap();
        blinding = scalar_add(&blinding, &scalar_mul(&c, &blindings[k]));
    }
    assert_eq!(aggregate(&shares), Ok(commit(&scalar_from_u64(42), &blinding)));
}

#[test]
fn more_shares_than_coefficients_still_reconstruct() {
    let polynomial = [scalar_from_u64(7), scalar_from_u64(1000)];
    let covariates = vec![1u64, 2, 3, 4];
    let mut shares = Vec::new();
    for k in 0..4 {
        let value = evaluate(&polynomial, covariates[k]);
        shares.push(Share { covariate: covariates[k], commitment: commit(&value, &scalar_from_u64(0)) });
    }
    assert_eq!(aggregate(&shares), Ok(commit(&scalar_from_u64(7), &scalar_from_u64(0))));
}

#[test]
fn too_few_shares_do_not_reconstruct() {
    // f(x) = 42 + 5x + 7x^2 needs three shares.
    let commitments = vec![
        pedersen_commit(encoded(54), encoded(0)),
        pedersen_commit(encoded(80), encoded(0)),
    ];
    let result = pedersen_aggregate(commitments, vec![1, 2]).unwrap();
    assert_ne!(result, pedersen_commit(encoded(42), encoded(0)));
    // Through two points the line is 28 + 26x.
    assert_eq!(result, pedersen_commit(encoded(28), encoded(0)));
}

#[test]
fn a_single_share_is_its_own_reconstruction() {
    let c = pedersen_commit(encoded(5), encoded(6));
    assert_eq!(pedersen_aggregate(vec![c], vec![9]), Ok(c));
}

#[test]
fn a_share_at_zero_is_the_secret() {
    let secret = pedersen_commit(encoded(42), encoded(1));
    let other = pedersen_commit(encoded(47), encoded(2));
    assert_eq!(pedersen_aggregate(vec![other, secret], vec![1, 0]), Ok(secret));
}

#[test]
fn pairing_is_by_position() {
    let a = pedersen_commit(encoded(54), encoded(1));
    let b = pedersen_commit(encoded(80), encoded(2));
    let straight = pedersen_aggregate(vec![a, b], vec![1, 2]).unwrap();
    let crossed = pedersen_aggregate(vec![a, b], vec![2, 1]).unwrap();
    let reordered = pedersen_aggregate(vec![b, a], vec![2, 1]).unwrap();
    assert_ne!(straight, crossed);
    assert_eq!(straight, reordered);
}

#[test]
fn lists_of_different_lengths_are_a_dimension_mismatch() {
    let a = pedersen_commit(encoded(54), encoded(1));
    assert_eq!(pedersen_aggregate(vec![a, a], vec![1]), Err(Error::DimensionMismatch));
    assert_eq!(pedersen_aggregate(vec![a], vec![1, 2]), Err(Error::DimensionMismatch));
    assert_eq!(pedersen_aggregate(Vec::new(), vec![1]), Err(Error::DimensionMismatch));
    assert_eq!(pedersen_aggregate(vec![[0xff; 32]], vec![1, 1]), Err(Error::DimensionMismatch));
}

#[test]
fn aggregating_nothing_is_an_empty_input() {
    assert_eq!(pedersen_aggregate(Vec::new(), Vec::new()), Err(Error::EmptyInputError));
    assert_eq!(aggregate(&Vec::new()), Err(Error::EmptyInputError));
}

#[test]
fn aggregate_rejects_bytes_that_encode_no_point() {
    let a = pedersen_commit(encoded(54), encoded(1));
    assert_eq!(pedersen_aggregate(vec![a, [0xff; 32]], vec![1, 2]), Err(Error::EncodingError));
    assert_eq!(pedersen_aggregate(vec![a, [0xff; 32]], vec![1, 1]), Err(Error::EncodingError));
}

#[test]
fn aggregate_rejects_repeated_covariates() {
    let a = pedersen_commit(encoded(54), encoded(1));
    let b = pedersen_commit(encoded(80), encoded(2));
    assert_eq!(pedersen_aggregate(vec![a, b], vec![3, 3]), Err(Error::DivisionByZero));
    assert_eq!(pedersen_aggregate(vec![a, b, a], vec![1, 2, 1]), Err(Error::DivisionByZero));
    assert_eq!(pedersen_aggregate(vec![a, b, a], vec![1, 2, 2]), Err(Error::DivisionByZero));
    let x = point_decompress(&a).unwrap();
    let shares = vec![Share { covariate: 5, commitment: x }, Share { covariate: 5, commitment: x }];
    assert_eq!(aggregate(&shares), Err(Error::DivisionByZero));
}

#[test]
fn aggregate_matches_scaling_and_summing_by_hand() {
    let a = pedersen_commit(encoded(54), encoded(1));
    let b = pedersen_commit(encoded(80), encoded(2));
    let x = point_decompress(&a).unwrap();
    let y = point_decompress(&b).unwrap();
    let cx = lagrange_coefficient(4, vec![6]).unwrap();
    let cy = lagrange_coefficient(6, vec![4]).unwrap();
    let by_hand = pybulletproofs::group::point_add(
        &pybulletproofs::group::point_scalar_mul(&x, &cx),
        &pybulletproofs::group::point_scalar_mul(&y, &cy),
    );
    assert_eq!(pedersen_aggregate(vec![a, b], vec![4, 6]), Ok(point_compress(&by_hand)));
}
