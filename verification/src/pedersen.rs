//! Pedersen commitments: building, opening and combining them.
//!
//! A commitment to `value` under `blinding` is the point
//! `value * G + blinding * H`. Commitments add, and so do what they commit
//! to: the sum of two commitments commits to the sum of the values under the
//! sum of the blindings.

use crate::bytes::le_value;
use crate::errors::Error;
use crate::field::{
    add_mod, group_order, lemma_add_mod_associates, lemma_sub_undoes_add, scalar_from_bytes,
    scalar_from_u64, Scalar,
};
use crate::group::{
    all_point_encodings, byte_strings, bytes_eq, decompress_all, encodings, is_difference_of,
    is_point_encoding, is_sum_of, opens_to, openings_of, pedersen_point, point_add,
    point_compress, point_decompress, point_eq, point_from_opening, point_sub, Point,
};
use vstd::arithmetic::div_mod::lemma_small_mod;
use vstd::prelude::*;

verus! {

/// A commitment is a point: `value * G + blinding * H`.
pub type Commitment = Point;

/// What [`pedersen_commit`] returns: the encoded commitment to the scalar
/// that `value` encodes under the scalar that `blinding` encodes, both
/// reduced modulo the group order.
pub open spec fn commitment_to(value: Seq<u8>, blinding: Seq<u8>) -> Seq<u8> {
    pedersen_point(le_value(value) % group_order(), le_value(blinding) % group_order())
}

/// What [`pedersen_open`] answers: whether `commitment` encodes the
/// commitment to `value` under `blinding`.
pub open spec fn is_opening(value: u64, blinding: u64, commitment: Seq<u8>) -> bool {
    commitment == pedersen_point(value as nat, blinding as nat)
}

/// The sum of `values` in the field, taken from the left.
pub open spec fn sum_mod(values: Seq<nat>) -> nat
    decreases values.len(),
{
    if values.len() == 0 {
        0
    } else {
        add_mod(sum_mod(values.drop_last()), values.last())
    }
}

/// `sum` encodes the sum of the elements that `points` encode: whatever the
/// points open to, `sum` opens to the sums.
pub open spec fn is_sum_of_all(sum: Seq<u8>, points: Seq<Seq<u8>>) -> bool {
    forall|values: Seq<nat>, blindings: Seq<nat>|
        #![trigger openings_of(points, values, blindings)]
        openings_of(points, values, blindings) ==> opens_to(
            sum,
            sum_mod(values),
            sum_mod(blindings),
        )
}

/// Why a list of encodings cannot be summed, if it cannot.
pub open spec fn sum_rejection(points: Seq<Seq<u8>>) -> Option<Error> {
    if points.len() == 0 {
        Some(Error::EmptyInputError)
    } else if !all_point_encodings(points) {
        Some(Error::EncodingError)
    } else {
        None
    }
}

/// The commitment to `value` under `blinding`.
pub fn commit(value: &Scalar, blinding: &Scalar) -> (commitment: Commitment)
    requires
        value.wf(),
        blinding.wf(),
    ensures
        commitment.wf(),
        commitment@ == pedersen_point(value@, blinding@),
{
    point_from_opening(value, blinding)
}

/// Whether `commitment` is the commitment to `value` under `blinding`.
pub fn open(value: &Scalar, blinding: &Scalar, commitment: &Commitment) -> (opened: bool)
    requires
        value.wf(),
        blinding.wf(),
    ensures
        opened == (commitment@ == pedersen_point(value@, blinding@)),
{
    let expected = commit(value, blinding);
    point_eq(&expected, commitment)
}

/// The sum of a non-empty list of commitments.
pub fn sum(commitments: &Vec<Commitment>) -> (r: Result<Commitment, Error>)
    requires
        all_point_encodings(encodings(commitments@)),
    ensures
        r is Err <==> commitments@.len() == 0,
        r is Err ==> r == Err::<Commitment, Error>(Error::EmptyInputError),
        r matches Ok(total) ==> total.wf() && is_sum_of_all(total@, encodings(commitments@)),
{
    if commitments.len() == 0 {
        return Err(Error::EmptyInputError);
    }
    let ghost points = encodings(commitments@);
    let mut total = commitments[0];
    proof {
        assert(total@ == points[0]);
        assert(is_point_encoding(points[0]));
        assert(points.take(1) =~= seq![points[0]]);
        lemma_sum_of_one(points[0]);
    }
    let mut i: usize = 1;
    while i < commitments.len()
        invariant
            1 <= i <= commitments.len(),
            points == encodings(commitments@),
            all_point_encodings(points),
            total.wf(),
            is_sum_of_all(total@, points.take(i as int)),
        decreases commitments.len() - i,
    {
        proof {
            assert(commitments@[i as int]@ == points[i as int]);
            assert(is_point_encoding(points[i as int]));
        }
        let next = point_add(&total, &commitments[i]);
        proof {
            lemma_sum_step(total@, points.take(i as int), points[i as int], next@);
            assert(points.take(i as int).push(points[i as int]) =~= points.take(i as int + 1));
        }
        total = next;
        i += 1;
    }
    assert(points.take(i as int) =~= points);
    Ok(total)
}

/// `a - b`: the commitment to the difference of the values under the
/// difference of the blindings.
pub fn subtract(a: &Commitment, b: &Commitment) -> (difference: Commitment)
    requires
        a.wf(),
        b.wf(),
    ensures
        difference.wf(),
        is_difference_of(difference@, a@, b@),
{
    point_sub(a, b)
}

/// Whether two commitments have the same encoding.
pub fn compare(a: &Commitment, b: &Commitment) -> (same: bool)
    ensures
        same == (a@ == b@),
{
    point_eq(a, b)
}

/// The encoding of the commitment to the scalar that `value` encodes, under
/// the scalar that `blinding` encodes. Both are reduced modulo the group order.
pub fn pedersen_commit(value: [u8; 32], blinding: [u8; 32]) -> (commitment: [u8; 32])
    ensures
        commitment@ == commitment_to(value@, blinding@),
{
    let v = scalar_from_bytes(value);
    let b = scalar_from_bytes(blinding);
    let c = commit(&v, &b);
    point_compress(&c)
}

/// Whether `commitment` encodes the commitment to `value` under `blinding`.
pub fn pedersen_open(value: u64, blinding: u64, commitment: [u8; 32]) -> (opened: bool)
    ensures
        opened == is_opening(value, blinding, commitment@),
{
    let v = scalar_from_u64(value);
    let b = scalar_from_u64(blinding);
    let expected = point_compress(&commit(&v, &b));
    bytes_eq(&expected, &commitment)
}

/// The encoding of the sum of the commitments that `list` encodes.
pub fn pedersen_sum(list: Vec<[u8; 32]>) -> (r: Result<[u8; 32], Error>)
    ensures
        match r {
            Ok(total) => sum_rejection(byte_strings(list@)) is None && is_point_encoding(total@)
                && is_sum_of_all(total@, byte_strings(list@)),
            Err(e) => sum_rejection(byte_strings(list@)) == Some(e),
        },
{
    if list.len() == 0 {
        return Err(Error::EmptyInputError);
    }
    let points = match decompress_all(&list) {
        Ok(points) => points,
        Err(e) => {
            return Err(e);
        },
    };
    match sum(&points) {
        Ok(total) => Ok(point_compress(&total)),
        Err(e) => Err(e),
    }
}

/// The encoding of `a - b`, for two encoded commitments.
pub fn pedersen_subtract(a: [u8; 32], b: [u8; 32]) -> (r: Result<[u8; 32], Error>)
    ensures
        r is Ok <==> is_point_encoding(a@) && is_point_encoding(b@),
        r is Err ==> r == Err::<[u8; 32], Error>(Error::EncodingError),
        r matches Ok(difference) ==> is_point_encoding(difference@) && is_difference_of(
            difference@,
            a@,
            b@,
        ),
{
    let x = match point_decompress(&a) {
        Ok(x) => x,
        Err(e) => {
            return Err(e);
        },
    };
    let y = match point_decompress(&b) {
        Ok(y) => y,
        Err(e) => {
            return Err(e);
        },
    };
    Ok(point_compress(&subtract(&x, &y)))
}

/// Whether two 32-byte encodings are the same, byte for byte.
pub fn pedersen_compare(a: [u8; 32], b: [u8; 32]) -> (same: bool)
    ensures
        same == (a@ == b@),
{
    bytes_eq(&a, &b)
}

/// A point is the sum of the list that holds it alone.
pub proof fn lemma_sum_of_one(point: Seq<u8>)
    ensures
        is_sum_of_all(point, seq![point]),
{
    assert forall|values: Seq<nat>, blindings: Seq<nat>|
        openings_of(seq![point], values, blindings) implies opens_to(
        point,
        sum_mod(values),
        sum_mod(blindings),
    ) by {
        assert(opens_to(seq![point][0], values[0], blindings[0]));
        lemma_sum_mod_of_one(values);
        lemma_sum_mod_of_one(blindings);
    }
}

/// The sum of a single reduced value is that value.
pub proof fn lemma_sum_mod_of_one(values: Seq<nat>)
    requires
        values.len() == 1,
        values[0] < group_order(),
    ensures
        sum_mod(values) == values[0],
{
    assert(values.drop_last().len() == 0);
    assert(sum_mod(values.drop_last()) == 0);
}

/// Adding one more point to a summed list gives the sum of the longer list.
pub proof fn lemma_sum_step(total: Seq<u8>, points: Seq<Seq<u8>>, next: Seq<u8>, sum: Seq<u8>)
    requires
        is_sum_of_all(total, points),
        is_sum_of(sum, total, next),
    ensures
        is_sum_of_all(sum, points.push(next)),
{
    let longer = points.push(next);
    assert forall|values: Seq<nat>, blindings: Seq<nat>|
        openings_of(longer, values, blindings) implies opens_to(
        sum,
        sum_mod(values),
        sum_mod(blindings),
    ) by {
        let v = values.drop_last();
        let b = blindings.drop_last();
        assert forall|i: int| 0 <= i < points.len() implies opens_to(
            #[trigger] points[i],
            v[i],
            b[i],
        ) by {
            assert(opens_to(longer[i], values[i], blindings[i]));
        }
        assert(openings_of(points, v, b));
        assert(opens_to(longer[points.len() as int], values.last(), blindings.last()));
        assert(opens_to(total, sum_mod(v), sum_mod(b)));
        assert(opens_to(next, values.last(), blindings.last()));
    }
}

/// Opening accepts what committing built: for every value and blinding
/// below `2^64`, the commitment made from their encodings opens with that
/// value and that blinding.
pub proof fn law_commitment_opens(
    value: u64,
    blinding: u64,
    value_bytes: Seq<u8>,
    blinding_bytes: Seq<u8>,
)
    requires
        le_value(value_bytes) == value,
        le_value(blinding_bytes) == blinding,
    ensures
        is_opening(value, blinding, commitment_to(value_bytes, blinding_bytes)),
{
    lemma_small_mod(value as nat, group_order());
    lemma_small_mod(blinding as nat, group_order());
}

/// Summing is homomorphic: the sum of the commitments to `(v1, b1)` and to
/// `(v2, b2)` is the commitment to `v1 + v2` under `b1 + b2`, both taken
/// modulo the group order.
pub proof fn law_sum_is_homomorphic(v1: nat, b1: nat, v2: nat, b2: nat, total: Seq<u8>)
    requires
        v1 < group_order(),
        b1 < group_order(),
        v2 < group_order(),
        b2 < group_order(),
        is_sum_of_all(total, seq![pedersen_point(v1, b1), pedersen_point(v2, b2)]),
    ensures
        total == pedersen_point(add_mod(v1, v2), add_mod(b1, b2)),
{
    let points = seq![pedersen_point(v1, b1), pedersen_point(v2, b2)];
    let values = seq![v1, v2];
    let blindings = seq![b1, b2];
    assert(openings_of(points, values, blindings));
    assert(values.drop_last() =~= seq![v1]);
    assert(blindings.drop_last() =~= seq![b1]);
    lemma_sum_mod_of_one(seq![v1]);
    lemma_sum_mod_of_one(seq![b1]);
}

/// Summing commutes: the sum of `a` and `b` is the sum of `b` and `a`.
pub proof fn law_sum_commutes(a: Seq<u8>, b: Seq<u8>, total: Seq<u8>)
    requires
        is_sum_of(total, a, b),
    ensures
        is_sum_of(total, b, a),
{
    assert forall|v1: nat, b1: nat, v2: nat, b2: nat|
        opens_to(b, v1, b1) && opens_to(a, v2, b2) implies opens_to(
        total,
        add_mod(v1, v2),
        add_mod(b1, b2),
    ) by {
        assert(opens_to(total, add_mod(v2, v1), add_mod(b2, b1)));
    }
}

/// Summing associates: for any three commitments, adding the third to the
/// sum of the first two gives what adding the first to the sum of the last
/// two gives.
pub proof fn law_sum_associates(
    a: Seq<u8>,
    b: Seq<u8>,
    c: Seq<u8>,
    ab: Seq<u8>,
    bc: Seq<u8>,
    left: Seq<u8>,
    right: Seq<u8>,
)
    requires
        is_point_encoding(a),
        is_point_encoding(b),
        is_point_encoding(c),
        is_sum_of(ab, a, b),
        is_sum_of(bc, b, c),
        is_sum_of(left, ab, c),
        is_sum_of(right, a, bc),
    ensures
        left == right,
{
    let (va, wa) = choose|v: nat, w: nat| opens_to(a, v, w);
    let (vb, wb) = choose|v: nat, w: nat| opens_to(b, v, w);
    let (vc, wc) = choose|v: nat, w: nat| opens_to(c, v, w);
    assert(opens_to(ab, add_mod(va, vb), add_mod(wa, wb)));
    assert(opens_to(bc, add_mod(vb, vc), add_mod(wb, wc)));
    assert(opens_to(left, add_mod(add_mod(va, vb), vc), add_mod(add_mod(wa, wb), wc)));
    assert(opens_to(right, add_mod(va, add_mod(vb, vc)), add_mod(wa, add_mod(wb, wc))));
    lemma_add_mod_associates(va, vb, vc);
    lemma_add_mod_associates(wa, wb, wc);
}

/// Subtracting undoes summing: for any two commitments `a` and `b`, taking
/// `b` away from the sum of `a` and `b` gives `a` back.
pub proof fn law_subtract_undoes_sum(a: Seq<u8>, b: Seq<u8>, total: Seq<u8>, difference: Seq<u8>)
    requires
        is_point_encoding(a),
        is_point_encoding(b),
        is_sum_of_all(total, seq![a, b]),
        is_difference_of(difference, total, b),
    ensures
        difference == a,
{
    let (va, ba) = choose|v: nat, w: nat| opens_to(a, v, w);
    let (vb, bb) = choose|v: nat, w: nat| opens_to(b, v, w);
    let values = seq![va, vb];
    let blindings = seq![ba, bb];
    assert(openings_of(seq![a, b], values, blindings));
    assert(values.drop_last() =~= seq![va]);
    assert(blindings.drop_last() =~= seq![ba]);
    lemma_sum_mod_of_one(seq![va]);
    lemma_sum_mod_of_one(seq![ba]);
    assert(opens_to(total, add_mod(va, vb), add_mod(ba, bb)));
    assert(opens_to(b, vb, bb));
    lemma_sub_undoes_add(va, vb);
    lemma_sub_undoes_add(ba, bb);
}

} // verus!
