use pybulletproofs::field::{
    get_group_order, scalar_add, scalar_from_bytes, scalar_from_u64, scalar_invert,
    scalar_is_zero, scalar_mul, scalar_neg, scalar_random, scalar_sub, scalar_to_bytes,
};
use pybulletproofs::{read32, Error};

const ORDER: [u8; 32] = [
    237, 211, 245, 92, 26, 99, 18, 88, 214, 156, 247, 162, 222, 249, 222, 20, 0, 0, 0, 0, 0, 0, 0,
    0, 0, 0, 0, 0, 0, 0, 0, 16,
];

const ORDER_MINUS_ONE: [u8; 32] = [
    236, 211, 245, 92, 26, 99, 18, 88, 214, 156, 247, 162, 222, 249, 222, 20, 0, 0, 0, 0, 0, 0, 0,
    0, 0, 0, 0, 0, 0, 0, 0, 16,
];

const X: [u8; 32] = [
    78, 90, 180, 52, 93, 71, 8, 132, 89, 19, 180, 100, 27, 194, 125, 82, 82, 165, 133, 16, 27, 204,
    66, 68, 212, 73, 244, 168, 121, 217, 242, 4,
];

const X_INVERSE: [u8; 32] = [
    28, 220, 23, 252, 224, 233, 165, 187, 217, 36, 126, 86, 187, 1, 99, 71, 187, 186, 49, 237,
    213, 169, 187, 150, 213, 11, 205, 122, 63, 150, 42, 15,
];

fn small(n: u8) -> [u8; 32] {
    let mut bytes = [0u8; 32];
    bytes[0] = n;
    bytes
}

#[test]
fn read32_takes_the_first_32_bytes() {
    let data: Vec<u8> = (0u8..40).collect();
    let expected: Vec<u8> = (0u8..32).collect();
    assert_eq!(read32(&data).to_vec(), expected);
}

#[test]
fn read32_of_exactly_32_bytes_is_the_input() {
    assert_eq!(read32(&X), X);
}

#[test]
fn group_order_is_the_ristretto_order() {
    assert_eq!(get_group_order(), ORDER);
}

#[test]
fn group_order_matches_the_curve_library() {
    assert_eq!(
        get_group_order(),
        curve25519_dalek_ng::constants::BASEPOINT_ORDER.to_bytes()
    );
}

#[test]
fn decoding_reduces_the_order_to_zero() {
    let s = scalar_from_bytes(ORDER);
    assert_eq!(scalar_to_bytes(&s), [0u8; 32]);
    assert!(scalar_is_zero(&s));
}

#[test]
fn decoding_reduces_the_largest_input() {
    let s = scalar_from_bytes([0xff; 32]);
    let expected = [
        28, 149, 152, 141, 116, 49, 236, 214, 112, 207, 125, 115, 244, 91, 239, 198, 254, 255, 255,
        255, 255, 255, 255, 255, 255, 255, 255, 255, 255, 255, 255, 15,
    ];
    assert_eq!(scalar_to_bytes(&s), expected);
}

#[test]
fn decoding_keeps_a_canonical_input() {
    assert_eq!(scalar_to_bytes(&scalar_from_bytes(X)), X);
    assert_eq!(scalar_to_bytes(&scalar_from_bytes(ORDER_MINUS_ONE)), ORDER_MINUS_ONE);
}

#[test]
fn scalar_from_u64_is_little_endian() {
    let s = scalar_from_u64(0x0102030405060708);
    let mut expected = [0u8; 32];
    expected[..8].copy_from_slice(&[8, 7, 6, 5, 4, 3, 2, 1]);
    assert_eq!(scalar_to_bytes(&s), expected);
    assert_eq!(scalar_to_bytes(&scalar_from_u64(0)), [0u8; 32]);
    let mut max = [0u8; 32];
    max[..8].copy_from_slice(&[255; 8]);
    assert_eq!(scalar_to_bytes(&scalar_from_u64(u64::MAX)), max);
}

#[test]
fn addition_wraps_at_the_order() {
    let top = scalar_from_bytes(ORDER_MINUS_ONE);
    let two = scalar_from_u64(2);
    assert_eq!(scalar_add(&top, &two), scalar_from_u64(1));
    let x = scalar_from_bytes(X);
    let expected = [
        156, 180, 104, 105, 186, 142, 16, 8, 179, 38, 104, 201, 54, 132, 251, 164, 164, 74, 11, 33,
        54, 152, 133, 136, 168, 147, 232, 81, 243, 178, 229, 9,
    ];
    assert_eq!(scalar_to_bytes(&scalar_add(&x, &x)), expected);
}

#[test]
fn subtraction_wraps_below_zero() {
    let one = scalar_from_u64(1);
    let two = scalar_from_u64(2);
    assert_eq!(scalar_to_bytes(&scalar_sub(&one, &two)), ORDER_MINUS_ONE);
    let expected = [
        206, 129, 99, 199, 131, 162, 157, 55, 128, 17, 202, 241, 159, 63, 229, 244, 104, 21, 172,
        220, 186, 221, 120, 82, 1, 194, 216, 209, 197, 188, 55, 10,
    ];
    let difference = scalar_sub(&scalar_from_bytes(X_INVERSE), &scalar_from_bytes(X));
    assert_eq!(scalar_to_bytes(&difference), expected);
}

#[test]
fn negation_is_the_order_minus_the_value() {
    assert_eq!(scalar_to_bytes(&scalar_neg(&scalar_from_u64(1))), ORDER_MINUS_ONE);
    assert_eq!(scalar_to_bytes(&scalar_neg(&scalar_from_u64(0))), [0u8; 32]);
    let expected = [
        159, 121, 65, 40, 189, 27, 10, 212, 124, 137, 67, 62, 195, 55, 97, 194, 173, 90, 122, 239,
        228, 51, 189, 187, 43, 182, 11, 87, 134, 38, 13, 11,
    ];
    assert_eq!(scalar_to_bytes(&scalar_neg(&scalar_from_bytes(X))), expected);
}

#[test]
fn multiplication_is_modular() {
    assert_eq!(scalar_mul(&scalar_from_u64(6), &scalar_from_u64(7)), scalar_from_u64(42));
    let top = scalar_from_bytes(ORDER_MINUS_ONE);
    assert_eq!(scalar_mul(&top, &top), scalar_from_u64(1));
    let x = scalar_from_bytes(X);
    let expected = [
        79, 221, 84, 61, 195, 88, 140, 8, 116, 211, 222, 241, 21, 235, 70, 1, 158, 144, 204, 22,
        74, 194, 60, 3, 228, 82, 19, 34, 70, 85, 248, 15,
    ];
    assert_eq!(scalar_to_bytes(&scalar_mul(&x, &x)), expected);
}

#[test]
fn inversion_gives_the_known_inverse() {
    let inverse = scalar_invert(&scalar_from_bytes(X)).unwrap();
    assert_eq!(scalar_to_bytes(&inverse), X_INVERSE);
    assert_eq!(scalar_mul(&inverse, &scalar_from_bytes(X)), scalar_from_u64(1));
}

#[test]
fn inversion_of_three() {
    let expected = [
        73, 141, 78, 147, 17, 66, 12, 144, 57, 19, 165, 108, 148, 166, 148, 184, 170, 170, 170,
        170, 170, 170, 170, 170, 170, 170, 170, 170, 170, 170, 170, 10,
    ];
    assert_eq!(scalar_to_bytes(&scalar_invert(&scalar_from_u64(3)).unwrap()), expected);
}

#[test]
fn inversion_of_one_is_one() {
    assert_eq!(scalar_invert(&scalar_from_u64(1)), Ok(scalar_from_u64(1)));
}

#[test]
fn inversion_of_zero_is_division_by_zero() {
    assert_eq!(scalar_invert(&scalar_from_u64(0)), Err(Error::DivisionByZero));
    assert_eq!(scalar_invert(&scalar_from_bytes(ORDER)), Err(Error::DivisionByZero));
}

#[test]
fn zero_test_tells_zero_from_the_rest() {
    assert!(scalar_is_zero(&scalar_from_u64(0)));
    assert!(!scalar_is_zero(&scalar_from_u64(1)));
    assert!(!scalar_is_zero(&scalar_from_bytes(small(200))));
    let mut high = [0u8; 32];
    high[31] = 1;
    assert!(!scalar_is_zero(&scalar_from_bytes(high)));
}

#[test]
fn random_scalars_are_canonical_and_differ() {
    let a = scalar_random();
    let b = scalar_random();
    assert_ne!(a, b);
    assert_eq!(scalar_from_bytes(scalar_to_bytes(&a)), a);
    assert_eq!(scalar_from_bytes(scalar_to_bytes(&b)), b);
}

#[test]
fn field_operations_match_the_curve_library() {
    let a = curve25519_dalek_ng::scalar::Scalar::from_bytes_mod_order(X);
    let b = curve25519_dalek_ng::scalar::Scalar::from_bytes_mod_order([0xab; 32]);
    let x = scalar_from_bytes(X);
    let y = scalar_from_bytes([0xab; 32]);
    assert_eq!(scalar_to_bytes(&y), b.to_bytes());
    assert_eq!(scalar_to_bytes(&scalar_add(&x, &y)), (a + b).to_bytes());
    assert_eq!(scalar_to_bytes(&scalar_sub(&x, &y)), (a - b).to_bytes());
    assert_eq!(scalar_to_bytes(&scalar_mul(&x, &y)), (a * b).to_bytes());
    assert_eq!(scalar_to_bytes(&scalar_neg(&y)), (-b).to_bytes());
    assert_eq!(scalar_to_bytes(&scalar_invert(&y).unwrap()), b.invert().to_bytes());
}

#[test]
fn error_messages_are_distinct() {
    let all = [
        Error::EncodingError,
        Error::DivisionByZero,
        Error::ProofDeserializationError,
        Error::DimensionMismatch,
        Error::InvalidRangeError,
        Error::EmptyInputError,
    ];
    for (i, a) in all.iter().enumerate() {
        assert!(!a.message().is_empty());
        for b in all.iter().skip(i + 1) {
            assert_ne!(a.message(), b.message());
        }
    }
    assert_eq!(Error::DivisionByZero.message(), "division by zero in the scalar field");
}
