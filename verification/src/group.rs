//! The ristretto255 group, seen through the openings of its points.
//!
//! Every element of this prime-order group can be written as
//! `value * G + blinding * H` for the two fixed generators `G` and `H`; a
//! pair `(value, blinding)` for which that holds is an opening of the point.
//! A [`Point`] holds the canonical 32-byte encoding of an element, and the
//! group operations are described by what they do to every opening of their
//! arguments. The operations themselves are those of `curve25519_dalek_ng`.

use crate::bytes::le_value;
use crate::errors::Error;
use crate::field::{add_mod, group_order, mul_mod, sub_mod, Scalar, scalar_to_bytes};
use bulletproofs::PedersenGens;
use curve25519_dalek_ng::ristretto::CompressedRistretto;
use vstd::prelude::*;

verus! {

/// The encoding of `value * G + blinding * H`, where `G` is the ristretto255
/// basepoint and `H` the blinding generator derived from it: what
/// `PedersenGens::default().commit(value, blinding)` compresses to.
pub uninterp spec fn pedersen_point(value: nat, blinding: nat) -> Seq<u8>;

/// `(value, blinding)` is an opening of the point encoded by `point`.
pub open spec fn opens_to(point: Seq<u8>, value: nat, blinding: nat) -> bool {
    &&& value < group_order()
    &&& blinding < group_order()
    &&& point == pedersen_point(value, blinding)
}

/// `point` is the canonical encoding of a group element.
pub open spec fn is_point_encoding(point: Seq<u8>) -> bool {
    exists|value: nat, blinding: nat| opens_to(point, value, blinding)
}

/// `sum` encodes the sum of the elements that `a` and `b` encode.
pub open spec fn is_sum_of(sum: Seq<u8>, a: Seq<u8>, b: Seq<u8>) -> bool {
    forall|v1: nat, b1: nat, v2: nat, b2: nat|
        #![trigger opens_to(a, v1, b1), opens_to(b, v2, b2)]
        opens_to(a, v1, b1) && opens_to(b, v2, b2) ==> opens_to(
            sum,
            add_mod(v1, v2),
            add_mod(b1, b2),
        )
}

/// `difference` encodes the element that `a` encodes minus the one that `b` encodes.
pub open spec fn is_difference_of(difference: Seq<u8>, a: Seq<u8>, b: Seq<u8>) -> bool {
    forall|v1: nat, b1: nat, v2: nat, b2: nat|
        #![trigger opens_to(a, v1, b1), opens_to(b, v2, b2)]
        opens_to(a, v1, b1) && opens_to(b, v2, b2) ==> opens_to(
            difference,
            sub_mod(v1, v2),
            sub_mod(b1, b2),
        )
}

/// `product` encodes `factor` times the element that `point` encodes.
pub open spec fn is_multiple_of(product: Seq<u8>, factor: nat, point: Seq<u8>) -> bool {
    forall|v: nat, b: nat|
        #![trigger opens_to(point, v, b)]
        opens_to(point, v, b) ==> opens_to(product, mul_mod(factor, v), mul_mod(factor, b))
}

/// `values[i]` and `blindings[i]` open `points[i]`, for every `i`.
pub open spec fn openings_of(points: Seq<Seq<u8>>, values: Seq<nat>, blindings: Seq<nat>) -> bool {
    &&& values.len() == points.len()
    &&& blindings.len() == points.len()
    &&& forall|i: int|
        0 <= i < points.len() ==> opens_to(#[trigger] points[i], values[i], blindings[i])
}

/// Every string of `points` is the canonical encoding of a group element.
pub open spec fn all_point_encodings(points: Seq<Seq<u8>>) -> bool {
    forall|i: int| 0 <= i < points.len() ==> is_point_encoding(#[trigger] points[i])
}

/// The encodings of a sequence of points.
pub open spec fn encodings(points: Seq<Point>) -> Seq<Seq<u8>> {
    points.map_values(|p: Point| p@)
}

/// The contents of a sequence of 32-byte arrays.
pub open spec fn byte_strings(list: Seq<[u8; 32]>) -> Seq<Seq<u8>> {
    list.map_values(|a: [u8; 32]| a@)
}

/// An element of the group, held as its canonical encoding.
#[derive(Clone, Copy, Debug, PartialEq, Eq)]
pub struct Point {
    bytes: [u8; 32],
}

impl View for Point {
    type V = Seq<u8>;

    closed spec fn view(&self) -> Seq<u8> {
        self.bytes@
    }
}

impl Point {
    /// The bytes held are the canonical encoding of a group element.
    pub open spec fn wf(&self) -> bool {
        is_point_encoding(self@)
    }
}

/// Calls `CompressedRistretto::decompress`, which succeeds exactly on the
/// canonical encodings of group elements, and says whether it succeeded.
#[verifier::external_body]
fn dalek_decodes(bytes: &[u8; 32]) -> (ok: bool)
    ensures
        ok == is_point_encoding(bytes@),
{
    CompressedRistretto(*bytes).decompress().is_some()
}

/// Calls `PedersenGens::commit` on the default generators and compresses the
/// result: the encoding of `value * G + blinding * H`.
#[verifier::external_body]
fn dalek_commit(value: &[u8; 32], blinding: &[u8; 32]) -> (r: [u8; 32])
    requires
        le_value(value@) < group_order(),
        le_value(blinding@) < group_order(),
    ensures
        r@ == pedersen_point(le_value(value@), le_value(blinding@)),
{
    let v = curve25519_dalek_ng::scalar::Scalar::from_bytes_mod_order(*value);
    let b = curve25519_dalek_ng::scalar::Scalar::from_bytes_mod_order(*blinding);
    PedersenGens::default().commit(v, b).compress().to_bytes()
}

/// Calls the outside crate's `+` on two decompressed points and compresses
/// the result. Addition in a group of this order adds openings componentwise,
/// modulo the order.
#[verifier::external_body]
fn dalek_point_add(a: &[u8; 32], b: &[u8; 32]) -> (r: [u8; 32])
    requires
        is_point_encoding(a@),
        is_point_encoding(b@),
    ensures
        is_sum_of(r@, a@, b@),
{
    let x = CompressedRistretto(*a).decompress().unwrap();
    let y = CompressedRistretto(*b).decompress().unwrap();
    (x + y).compress().to_bytes()
}

/// Calls the outside crate's `-` on two decompressed points and compresses
/// the result. Subtraction subtracts openings componentwise, modulo the order.
#[verifier::external_body]
fn dalek_point_sub(a: &[u8; 32], b: &[u8; 32]) -> (r: [u8; 32])
    requires
        is_point_encoding(a@),
        is_point_encoding(b@),
    ensures
        is_difference_of(r@, a@, b@),
{
    let x = CompressedRistretto(*a).decompress().unwrap();
    let y = CompressedRistretto(*b).decompress().unwrap();
    (x - y).compress().to_bytes()
}

/// Calls the outside crate's `*` on a decompressed point and a scalar and
/// compresses the result. Multiplying by a scalar multiplies both components
/// of every opening by it, modulo the order.
#[verifier::external_body]
fn dalek_point_mul(point: &[u8; 32], factor: &[u8; 32]) -> (r: [u8; 32])
    requires
        is_point_encoding(point@),
        le_value(factor@) < group_order(),
    ensures
        is_multiple_of(r@, le_value(factor@), point@),
{
    let p = CompressedRistretto(*point).decompress().unwrap();
    let s = curve25519_dalek_ng::scalar::Scalar::from_bytes_mod_order(*factor);
    (p * s).compress().to_bytes()
}

/// Decodes a point; bytes that are not the canonical encoding of a group
/// element are rejected.
pub fn point_decompress(bytes: &[u8; 32]) -> (r: Result<Point, Error>)
    ensures
        r is Ok <==> is_point_encoding(bytes@),
        r matches Ok(p) ==> p.wf() && p@ == bytes@,
        r is Err ==> r == Err::<Point, Error>(Error::EncodingError),
{
    if dalek_decodes(bytes) {
        Ok(Point { bytes: *bytes })
    } else {
        Err(Error::EncodingError)
    }
}

/// The canonical encoding of a point.
pub fn point_compress(p: &Point) -> (bytes: [u8; 32])
    ensures
        bytes@ == p@,
{
    p.bytes
}

/// The point `value * G + blinding * H`.
pub fn point_from_opening(value: &Scalar, blinding: &Scalar) -> (p: Point)
    requires
        value.wf(),
        blinding.wf(),
    ensures
        p.wf(),
        opens_to(p@, value@, blinding@),
{
    let v = scalar_to_bytes(value);
    let b = scalar_to_bytes(blinding);
    let p = Point { bytes: dalek_commit(&v, &b) };
    assert(opens_to(p@, value@, blinding@));
    p
}

/// `a + b` in the group.
pub fn point_add(a: &Point, b: &Point) -> (sum: Point)
    requires
        a.wf(),
        b.wf(),
    ensures
        sum.wf(),
        is_sum_of(sum@, a@, b@),
{
    let sum = Point { bytes: dalek_point_add(&a.bytes, &b.bytes) };
    proof {
        let (v1, b1) = choose|v: nat, w: nat| opens_to(a@, v, w);
        let (v2, b2) = choose|v: nat, w: nat| opens_to(b@, v, w);
        assert(opens_to(sum@, add_mod(v1, v2), add_mod(b1, b2)));
    }
    sum
}

/// `a - b` in the group.
pub fn point_sub(a: &Point, b: &Point) -> (difference: Point)
    requires
        a.wf(),
        b.wf(),
    ensures
        difference.wf(),
        is_difference_of(difference@, a@, b@),
{
    let difference = Point { bytes: dalek_point_sub(&a.bytes, &b.bytes) };
    proof {
        let (v1, b1) = choose|v: nat, w: nat| opens_to(a@, v, w);
        let (v2, b2) = choose|v: nat, w: nat| opens_to(b@, v, w);
        assert(opens_to(difference@, sub_mod(v1, v2), sub_mod(b1, b2)));
    }
    difference
}

/// `factor * point` in the group.
pub fn point_scalar_mul(point: &Point, factor: &Scalar) -> (product: Point)
    requires
        point.wf(),
        factor.wf(),
    ensures
        product.wf(),
        is_multiple_of(product@, factor@, point@),
{
    let f = scalar_to_bytes(factor);
    let product = Point { bytes: dalek_point_mul(&point.bytes, &f) };
    proof {
        let (v, b) = choose|v: nat, w: nat| opens_to(point@, v, w);
        assert(opens_to(product@, mul_mod(factor@, v), mul_mod(factor@, b)));
    }
    product
}

/// Decodes a list of points; one invalid encoding rejects the whole list.
pub fn decompress_all(list: &Vec<[u8; 32]>) -> (r: Result<Vec<Point>, Error>)
    ensures
        r is Ok <==> all_point_encodings(byte_strings(list@)),
        r matches Ok(points) ==> encodings(points@) == byte_strings(list@) && all_point_encodings(
            encodings(points@),
        ),
        r is Err ==> r == Err::<Vec<Point>, Error>(Error::EncodingError),
{
    let mut points: Vec<Point> = Vec::new();
    let mut i: usize = 0;
    while i < list.len()
        invariant
            i <= list.len(),
            points@.len() == i,
            forall|j: int| 0 <= j < i ==> (#[trigger] points@[j])@ == list@[j]@,
            forall|j: int| 0 <= j < i ==> is_point_encoding(#[trigger] list@[j]@),
        decreases list.len() - i,
    {
        match point_decompress(&list[i]) {
            Ok(p) => {
                points.push(p);
            },
            Err(_) => {
                assert(!is_point_encoding(byte_strings(list@)[i as int]));
                return Err(Error::EncodingError);
            },
        }
        i += 1;
    }
    assert(encodings(points@) =~= byte_strings(list@));
    Ok(points)
}

/// Whether two points are the same element: their encodings agree byte for byte.
pub fn point_eq(a: &Point, b: &Point) -> (same: bool)
    ensures
        same == (a@ == b@),
{
    bytes_eq(&a.bytes, &b.bytes)
}

/// Whether two 32-byte strings agree byte for byte.
pub fn bytes_eq(a: &[u8; 32], b: &[u8; 32]) -> (same: bool)
    ensures
        same == (a@ == b@),
{
    let mut i: usize = 0;
    while i < 32
        invariant
            i <= 32,
            forall|j: int| 0 <= j < i ==> a@[j] == b@[j],
        decreases 32 - i,
    {
        if a[i] != b[i] {
            return false;
        }
        i += 1;
    }
    assert(a@ =~= b@);
    true
}

} // verus!
