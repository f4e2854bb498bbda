//! Lagrange interpolation at zero, over the scalar field and over commitments.
//!
//! A secret shared by a polynomial is its value at zero; the holder of the
//! covariate `x_i` holds the value at `x_i`. The value at zero is the sum of
//! the shares, each weighted by its Lagrange coefficient, and the same
//! weighted sum of the commitments to the shares is a commitment to the
//! secret.

use crate::errors::Error;
use crate::field::{
    add_mod, group_order, has_inverse, inv_mod, is_inverse, lemma_inverse_of_product,
    lemma_inverse_unique, lemma_sub_mod_nonzero, mul_mod, neg_mod, scalar_from_u64,
    scalar_invert, scalar_mul, scalar_neg, scalar_sub, sub_mod, Scalar,
};
use crate::group::{
    all_point_encodings, byte_strings, decompress_all, encodings, is_multiple_of,
    is_point_encoding, is_sum_of, opens_to, openings_of, pedersen_point, point_add,
    point_compress, point_scalar_mul, Point,
};
use crate::interpolation::{lemma_shares_interpolate, share_value, share_values};
use vstd::prelude::*;

verus! {

/// The product of `0 - x` over every `x` of `others`, in the field.
pub open spec fn numerator(others: Seq<u64>) -> nat
    decreases others.len(),
{
    if others.len() == 0 {
        1
    } else {
        mul_mod(numerator(others.drop_last()), neg_mod(others.last() as nat))
    }
}

/// The product of `covariate - x` over every `x` of `others`, in the field.
pub open spec fn denominator(covariate: u64, others: Seq<u64>) -> nat
    decreases others.len(),
{
    if others.len() == 0 {
        1
    } else {
        mul_mod(
            denominator(covariate, others.drop_last()),
            sub_mod(covariate as nat, others.last() as nat),
        )
    }
}

/// The Lagrange basis coefficient of `covariate` for evaluation at zero,
/// among the sharing set made of `covariate` and `others`: the numerator
/// divided by the denominator, in the field.
pub open spec fn lagrange_at_zero(covariate: u64, others: Seq<u64>) -> nat {
    mul_mod(numerator(others), inv_mod(denominator(covariate, others)))
}

/// The Lagrange coefficient of `covariate` for evaluation at zero, given
/// every other covariate of the sharing set. A covariate that occurs among
/// the others makes the denominator vanish.
pub fn lagrange_coefficient(covariate: u64, others: Vec<u64>) -> (r: Result<Scalar, Error>)
    ensures
        r is Err <==> others@.contains(covariate),
        r is Err ==> r == Err::<Scalar, Error>(Error::DivisionByZero),
        r matches Ok(c) ==> c.wf() && c@ == lagrange_at_zero(covariate, others@) && has_inverse(
            denominator(covariate, others@),
        ),
{
    let x_i = scalar_from_u64(covariate);
    let mut num = scalar_from_u64(1);
    let mut den = scalar_from_u64(1);
    let mut j: usize = 0;
    while j < others.len()
        invariant
            j <= others.len(),
            x_i.wf(),
            x_i@ == covariate as nat,
            num.wf(),
            den.wf(),
            num@ == numerator(others@.take(j as int)),
            den@ == denominator(covariate, others@.take(j as int)),
            forall|k: int| 0 <= k < j ==> others@[k] != covariate,
        decreases others.len() - j,
    {
        let x = others[j];
        if x == covariate {
            return Err(Error::DivisionByZero);
        }
        let x_j = scalar_from_u64(x);
        proof {
            assert(others@.take(j as int + 1).drop_last() =~= others@.take(j as int));
        }
        num = scalar_mul(&num, &scalar_neg(&x_j));
        den = scalar_mul(&den, &scalar_sub(&x_i, &x_j));
        j += 1;
    }
    proof {
        assert(others@.take(j as int) =~= others@);
    }
    // The denominator is inverted at once. It is a product of differences
    // none of which is zero; that the product is not zero either is not
    // known here, and should it ever be, its factors are inverted instead.
    let inverse = match scalar_invert(&den) {
        Ok(inverse) => inverse,
        Err(_) => match inverse_by_factors(covariate, &others) {
            Ok(inverse) => inverse,
            Err(e) => {
                return Err(e);
            },
        },
    };
    proof {
        lemma_inverse_unique(
            denominator(covariate, others@),
            inverse@,
            inv_mod(denominator(covariate, others@)),
        );
    }
    Ok(scalar_mul(&num, &inverse))
}

/// The inverse of the denominator of `covariate` among `others`, made of
/// the inverses of its factors: a difference of two distinct 64-bit
/// integers is not zero in the field, so each has an inverse, and the
/// product of the inverses is the inverse of the product.
pub fn inverse_by_factors(covariate: u64, others: &Vec<u64>) -> (r: Result<Scalar, Error>)
    ensures
        r is Err <==> others@.contains(covariate),
        r is Err ==> r == Err::<Scalar, Error>(Error::DivisionByZero),
        r matches Ok(inverse) ==> inverse.wf() && is_inverse(
            denominator(covariate, others@),
            inverse@,
        ),
{
    let x_i = scalar_from_u64(covariate);
    let mut product = scalar_from_u64(1);
    let mut j: usize = 0;
    while j < others.len()
        invariant
            j <= others.len(),
            x_i.wf(),
            x_i@ == covariate as nat,
            product.wf(),
            is_inverse(denominator(covariate, others@.take(j as int)), product@),
            forall|k: int| 0 <= k < j ==> others@[k] != covariate,
        decreases others.len() - j,
    {
        let x = others[j];
        if x == covariate {
            return Err(Error::DivisionByZero);
        }
        let difference = scalar_sub(&x_i, &scalar_from_u64(x));
        proof {
            lemma_sub_mod_nonzero(covariate, x);
        }
        let inverse = match scalar_invert(&difference) {
            Ok(inverse) => inverse,
            Err(e) => {
                return Err(e);
            },
        };
        proof {
            assert(others@.take(j as int + 1).drop_last() =~= others@.take(j as int));
            lemma_inverse_of_product(
                denominator(covariate, others@.take(j as int)),
                product@,
                difference@,
                inverse@,
            );
        }
        product = scalar_mul(&product, &inverse);
        j += 1;
    }
    proof {
        assert(others@.take(j as int) =~= others@);
    }
    Ok(product)
}

/// One party's share of a committed secret: where on the sharing polynomial
/// the party sits, and the commitment to the polynomial's value there.
#[derive(Clone, Copy, Debug, PartialEq, Eq)]
pub struct Share {
    /// The party's covariate: where it sits on the sharing polynomial.
    pub covariate: u64,
    /// The commitment to the party's share.
    pub commitment: Point,
}

/// The covariates of a sequence of shares, in order.
pub open spec fn share_covariates(shares: Seq<Share>) -> Seq<u64> {
    shares.map_values(|s: Share| s.covariate)
}

/// The encoded commitments of a sequence of shares, in order.
pub open spec fn share_points(shares: Seq<Share>) -> Seq<Seq<u8>> {
    shares.map_values(|s: Share| s.commitment@)
}

/// Every covariate has a Lagrange coefficient: its denominator has an
/// inverse in the field.
pub open spec fn weights_defined(covariates: Seq<u64>) -> bool {
    forall|k: int|
        0 <= k < covariates.len() ==> has_inverse(
            #[trigger] denominator(covariates[k], covariates.remove(k)),
        )
}

/// The Lagrange coefficient of each covariate among all of them.
pub open spec fn lagrange_weights(covariates: Seq<u64>) -> Seq<nat> {
    Seq::new(covariates.len(), |k: int| lagrange_at_zero(covariates[k], covariates.remove(k)))
}

/// The sum of `weights[k] * values[k]` in the field, taken from the left.
pub open spec fn weighted_sum(weights: Seq<nat>, values: Seq<nat>) -> nat
    decreases weights.len(),
{
    if weights.len() == 0 || values.len() == 0 {
        0
    } else {
        add_mod(
            weighted_sum(weights.drop_last(), values.drop_last()),
            mul_mod(weights.last(), values.last()),
        )
    }
}

/// `combination` encodes the sum of `weights[k]` times the element that
/// `points[k]` encodes: whatever the points open to, `combination` opens to
/// the weighted sums.
pub open spec fn is_combination_of(
    combination: Seq<u8>,
    weights: Seq<nat>,
    points: Seq<Seq<u8>>,
) -> bool {
    forall|values: Seq<nat>, blindings: Seq<nat>|
        #![trigger openings_of(points, values, blindings)]
        openings_of(points, values, blindings) ==> opens_to(
            combination,
            weighted_sum(weights, values),
            weighted_sum(weights, blindings),
        )
}

/// Why a list of commitments paired with covariates cannot be aggregated, if
/// it cannot.
pub open spec fn aggregate_rejection(points: Seq<Seq<u8>>, covariates: Seq<u64>) -> Option<Error> {
    if points.len() != covariates.len() {
        Some(Error::DimensionMismatch)
    } else if points.len() == 0 {
        Some(Error::EmptyInputError)
    } else if !all_point_encodings(points) {
        Some(Error::EncodingError)
    } else if !covariates.no_duplicates() {
        Some(Error::DivisionByZero)
    } else {
        None
    }
}

/// The list without its element at `index`.
pub fn without_index(list: &Vec<u64>, index: usize) -> (rest: Vec<u64>)
    requires
        index < list@.len(),
    ensures
        rest@ == list@.remove(index as int),
{
    let mut rest: Vec<u64> = Vec::new();
    let mut j: usize = 0;
    while j < list.len()
        invariant
            j <= list.len(),
            index < list@.len(),
            rest@.len() == (if j <= index { j as int } else { j - 1 }),
            forall|k: int| 0 <= k < rest@.len() ==> rest@[k] == list@.remove(index as int)[k],
        decreases list.len() - j,
    {
        if j != index {
            rest.push(list[j]);
        }
        j += 1;
    }
    assert(rest@ =~= list@.remove(index as int));
    rest
}

/// Reconstructs the commitment to a shared secret: each share's commitment
/// is scaled by the Lagrange coefficient of its covariate among all the
/// covariates, and the scaled commitments are summed.
///
/// Covariates must be pairwise distinct. Nothing here can tell whether a
/// share is missing or was committed to a wrong value: the result is then
/// the commitment that the given shares interpolate to.
pub fn aggregate(shares: &Vec<Share>) -> (r: Result<Point, Error>)
    requires
        all_point_encodings(share_points(shares@)),
    ensures
        match r {
            Ok(secret) => {
                &&& aggregate_rejection(share_points(shares@), share_covariates(shares@)) is None
                &&& weights_defined(share_covariates(shares@))
                &&& secret.wf()
                &&& is_combination_of(
                    secret@,
                    lagrange_weights(share_covariates(shares@)),
                    share_points(shares@),
                )
            },
            Err(e) => aggregate_rejection(share_points(shares@), share_covariates(shares@))
                == Some(e),
        },
{
    let n = shares.len();
    if n == 0 {
        return Err(Error::EmptyInputError);
    }
    let ghost points = share_points(shares@);
    let ghost weights = lagrange_weights(share_covariates(shares@));
    let mut covariates: Vec<u64> = Vec::new();
    let mut k: usize = 0;
    while k < n
        invariant
            k <= n,
            n == shares@.len(),
            covariates@ == share_covariates(shares@).take(k as int),
        decreases n - k,
    {
        covariates.push(shares[k].covariate);
        proof {
            assert(share_covariates(shares@).take(k as int).push(shares@[k as int].covariate)
                =~= share_covariates(shares@).take(k as int + 1));
        }
        k += 1;
    }
    assert(covariates@ =~= share_covariates(shares@));

    let mut total: Option<Point> = None;
    let mut i: usize = 0;
    while i < n
        invariant
            i <= n,
            n == shares@.len(),
            n > 0,
            covariates@ == share_covariates(shares@),
            points == share_points(shares@),
            weights == lagrange_weights(covariates@),
            all_point_encodings(points),
            forall|a: int, b: int|
                0 <= a < i && 0 <= b < n && a != b ==> covariates@[a] != covariates@[b],
            forall|a: int|
                0 <= a < i ==> has_inverse(
                    #[trigger] denominator(covariates@[a], covariates@.remove(a)),
                ),
            i == 0 <==> total is None,
            total matches Some(t) ==> t.wf() && is_combination_of(
                t@,
                weights.take(i as int),
                points.take(i as int),
            ),
        decreases n - i,
    {
        let others = without_index(&covariates, i);
        let coefficient = match lagrange_coefficient(covariates[i], others) {
            Ok(c) => c,
            Err(e) => {
                proof {
                    lemma_duplicate_found(covariates@, i as int);
                }
                return Err(e);
            },
        };
        proof {
            lemma_no_duplicate_at(covariates@, i as int);
            assert(points[i as int] == shares@[i as int].commitment@);
            assert(is_point_encoding(points[i as int]));
            assert(weights[i as int] == coefficient@);
        }
        let scaled = point_scalar_mul(&shares[i].commitment, &coefficient);
        let next = match total {
            None => {
                proof {
                    lemma_combination_of_one(scaled@, coefficient@, points[i as int]);
                    assert(weights.take(1) =~= seq![coefficient@]);
                    assert(points.take(1) =~= seq![points[0]]);
                }
                scaled
            },
            Some(t) => {
                let next = point_add(&t, &scaled);
                proof {
                    lemma_combination_step(
                        t@,
                        weights.take(i as int),
                        points.take(i as int),
                        coefficient@,
                        points[i as int],
                        scaled@,
                        next@,
                    );
                    assert(weights.take(i as int).push(coefficient@) =~= weights.take(
                        i as int + 1,
                    ));
                    assert(points.take(i as int).push(points[i as int]) =~= points.take(
                        i as int + 1,
                    ));
                }
                next
            },
        };
        total = Some(next);
        i += 1;
    }
    proof {
        assert(weights.take(n as int) =~= weights);
        assert(points.take(n as int) =~= points);
        assert(covariates@.no_duplicates());
    }
    match total {
        Some(secret) => Ok(secret),
        None => Err(Error::EmptyInputError),
    }
}

/// Reconstructs the encoded commitment to a shared secret from encoded
/// commitments and their covariates, paired by position.
pub fn pedersen_aggregate(commitments: Vec<[u8; 32]>, covariates: Vec<u64>) -> (r: Result<
    [u8; 32],
    Error,
>)
    ensures
        match r {
            Ok(secret) => {
                &&& aggregate_rejection(byte_strings(commitments@), covariates@) is None
                &&& weights_defined(covariates@)
                &&& is_point_encoding(secret@)
                &&& is_combination_of(
                    secret@,
                    lagrange_weights(covariates@),
                    byte_strings(commitments@),
                )
            },
            Err(e) => aggregate_rejection(byte_strings(commitments@), covariates@) == Some(e),
        },
{
    if commitments.len() != covariates.len() {
        return Err(Error::DimensionMismatch);
    }
    if commitments.len() == 0 {
        return Err(Error::EmptyInputError);
    }
    let points = match decompress_all(&commitments) {
        Ok(points) => points,
        Err(e) => {
            return Err(e);
        },
    };
    let mut shares: Vec<Share> = Vec::new();
    let mut k: usize = 0;
    while k < points.len()
        invariant
            k <= points.len(),
            points@.len() == covariates@.len(),
            shares@.len() == k,
            forall|j: int| 0 <= j < k ==> (#[trigger] shares@[j]).covariate == covariates@[j],
            forall|j: int| 0 <= j < k ==> (#[trigger] shares@[j]).commitment == points@[j],
        decreases points.len() - k,
    {
        shares.push(Share { covariate: covariates[k], commitment: points[k] });
        k += 1;
    }
    proof {
        assert(share_covariates(shares@) =~= covariates@);
        assert(share_points(shares@) =~= encodings(points@));
    }
    match aggregate(&shares) {
        Ok(secret) => Ok(point_compress(&secret)),
        Err(e) => Err(e),
    }
}

/// Aggregation reconstructs the commitment to the secret. Let a secret be
/// shared by a polynomial with no more coefficients than there are parties,
/// so that the secret is the polynomial's value at zero and each party holds
/// its value at the party's covariate, and let each party commit to its
/// share under a blinding of its own. Then what [`aggregate`] returns for
/// those commitments and covariates is the commitment to the secret, under
/// the Lagrange-weighted sum of the blindings.
///
/// The last two conditions are what [`aggregate`] ensures of its result; it
/// returns one whenever the covariates are pairwise distinct. The secret,
/// the polynomial's value at zero, is its constant coefficient.
pub proof fn law_aggregate_reconstructs(
    coefficients: Seq<nat>,
    covariates: Seq<u64>,
    blindings: Seq<nat>,
    commitments: Seq<Seq<u8>>,
    secret: Seq<u8>,
)
    requires
        coefficients.len() <= covariates.len(),
        blindings.len() == covariates.len(),
        commitments.len() == covariates.len(),
        forall|k: int| 0 <= k < covariates.len() ==> blindings[k] < group_order(),
        forall|k: int|
            0 <= k < covariates.len() ==> commitments[k] == pedersen_point(
                share_value(coefficients, covariates[k]),
                blindings[k],
            ),
        weights_defined(covariates),
        is_combination_of(secret, lagrange_weights(covariates), commitments),
    ensures
        secret == pedersen_point(
            share_value(coefficients, 0),
            weighted_sum(lagrange_weights(covariates), blindings),
        ),
{
    let shares = share_values(coefficients, covariates);
    assert(openings_of(commitments, shares, blindings));
    lemma_shares_interpolate(coefficients, covariates);
}

/// A covariate that occurs among the others occurs twice in the whole list.
pub proof fn lemma_duplicate_found(covariates: Seq<u64>, i: int)
    requires
        0 <= i < covariates.len(),
        covariates.remove(i).contains(covariates[i]),
    ensures
        !covariates.no_duplicates(),
{
    let rest = covariates.remove(i);
    let j = choose|j: int| 0 <= j < rest.len() && rest[j] == covariates[i];
    if j < i {
        assert(covariates[j] == covariates[i]);
    } else {
        assert(covariates[j + 1] == covariates[i]);
    }
}

/// A covariate that does not occur among the others differs from each of them.
pub proof fn lemma_no_duplicate_at(covariates: Seq<u64>, i: int)
    requires
        0 <= i < covariates.len(),
        !covariates.remove(i).contains(covariates[i]),
    ensures
        forall|b: int| 0 <= b < covariates.len() && b != i ==> covariates[i] != covariates[b],
{
    let rest = covariates.remove(i);
    assert forall|b: int| 0 <= b < covariates.len() && b != i implies covariates[i]
        != covariates[b] by {
        if b < i {
            assert(rest[b] == covariates[b]);
        } else {
            assert(rest[b - 1] == covariates[b]);
        }
    }
}

/// A scaled point is the weighted combination of the list that holds the
/// point alone.
pub proof fn lemma_combination_of_one(scaled: Seq<u8>, weight: nat, point: Seq<u8>)
    requires
        is_multiple_of(scaled, weight, point),
    ensures
        is_combination_of(scaled, seq![weight], seq![point]),
{
    let weights = seq![weight];
    assert forall|values: Seq<nat>, blindings: Seq<nat>|
        openings_of(seq![point], values, blindings) implies opens_to(
        scaled,
        weighted_sum(weights, values),
        weighted_sum(weights, blindings),
    ) by {
        assert(opens_to(seq![point][0], values[0], blindings[0]));
        lemma_weighted_sum_of_one(weights, values);
        lemma_weighted_sum_of_one(weights, blindings);
    }
}

/// The weighted sum of a single value is the weight times the value.
pub proof fn lemma_weighted_sum_of_one(weights: Seq<nat>, values: Seq<nat>)
    requires
        weights.len() == 1,
        values.len() == 1,
    ensures
        weighted_sum(weights, values) == mul_mod(weights[0], values[0]),
{
    assert(weights.drop_last().len() == 0);
    assert(weighted_sum(weights.drop_last(), values.drop_last()) == 0);
    vstd::arithmetic::div_mod::lemma_mod_twice(
        (weights[0] * values[0]) as int,
        group_order() as int,
    );
}

/// Adding one more scaled point to a combination gives the combination of
/// the longer lists.
pub proof fn lemma_combination_step(
    total: Seq<u8>,
    weights: Seq<nat>,
    points: Seq<Seq<u8>>,
    weight: nat,
    point: Seq<u8>,
    scaled: Seq<u8>,
    sum: Seq<u8>,
)
    requires
        weights.len() == points.len(),
        is_combination_of(total, weights, points),
        is_multiple_of(scaled, weight, point),
        is_sum_of(sum, total, scaled),
    ensures
        is_combination_of(sum, weights.push(weight), points.push(point)),
{
    let longer = points.push(point);
    let more = weights.push(weight);
    assert forall|values: Seq<nat>, blindings: Seq<nat>|
        openings_of(longer, values, blindings) implies opens_to(
        sum,
        weighted_sum(more, values),
        weighted_sum(more, blindings),
    ) by {
        let v = values.drop_last();
        let b = blindings.drop_last();
        assert forall|i: int| 0 <= i < points.len() implies opens_to(
            #[trigger] points[i],
            v[i],
            b[i],
        ) by {
            assert(opens_to(longer[i], values[i], blindings[i]));
        }
        assert(openings_of(points, v, b));
        assert(opens_to(longer[points.len() as int], values.last(), blindings.last()));
        assert(opens_to(total, weighted_sum(weights, v), weighted_sum(weights, b)));
        assert(opens_to(point, values.last(), blindings.last()));
        assert(opens_to(scaled, mul_mod(weight, values.last()), mul_mod(weight, blindings.last())));
        assert(more.drop_last() =~= weights);
    }
}

} // verus!
