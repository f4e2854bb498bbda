//! Why reconstruction works: Lagrange interpolation at zero is exact on
//! polynomials of degree below the number of points.
//!
//! The proof works over the integers and compares modulo the group order.
//! It needs nothing of the order but that the differences it divides by
//! have inverses, so it never asks whether the order is prime.

use crate::field::{group_order, has_inverse, inv_mod};
use crate::lagrange::{
    denominator, lagrange_at_zero, lagrange_weights, numerator, weighted_sum, weights_defined,
};
use vstd::arithmetic::div_mod::{
    lemma_add_mod_noop, lemma_mod_twice, lemma_mul_mod_noop_general, lemma_small_mod,
    lemma_sub_mod_noop,
};
use vstd::arithmetic::power::{lemma0_pow, lemma_pow0, pow};
use vstd::prelude::*;

verus! {

/// `a` and `b` are the same element of the field.
pub open spec fn congruent(a: int, b: int) -> bool {
    a % (group_order() as int) == b % (group_order() as int)
}

/// `u` is a multiplicative inverse of `a` in the field.
pub open spec fn inverts(a: int, u: int) -> bool {
    congruent(a * u, 1)
}

/// `a` has a multiplicative inverse in the field.
pub open spec fn is_unit(a: int) -> bool {
    exists|u: int| inverts(a, u)
}

/// An inverse of `a` in the field, where it has one.
pub open spec fn unit_inverse(a: int) -> int {
    choose|u: int| inverts(a, u)
}

/// The product of the integers of `factors`.
pub open spec fn int_product(factors: Seq<int>) -> int
    decreases factors.len(),
{
    if factors.len() == 0 {
        1
    } else {
        int_product(factors.drop_last()) * factors.last()
    }
}

/// The sum of the integers of `terms`.
pub open spec fn int_sum(terms: Seq<int>) -> int
    decreases terms.len(),
{
    if terms.len() == 0 {
        0
    } else {
        int_sum(terms.drop_last()) + terms.last()
    }
}

/// The product of `0 - x` over every point `x` but the one at `i`.
pub open spec fn int_numerator(xs: Seq<int>, i: int) -> int {
    int_product(xs.remove(i).map_values(|x: int| 0 - x))
}

/// The product of `xs[i] - x` over every point `x` but the one at `i`.
pub open spec fn int_denominator(xs: Seq<int>, i: int) -> int {
    int_product(xs.remove(i).map_values(|x: int| xs[i] - x))
}

/// Every Lagrange denominator of the points has an inverse in the field.
pub open spec fn all_units(xs: Seq<int>) -> bool {
    forall|i: int| 0 <= i < xs.len() ==> is_unit(#[trigger] int_denominator(xs, i))
}

/// `w` holds Lagrange coefficients of the points for evaluation at zero:
/// each, times its denominator, is congruent to its numerator.
pub open spec fn are_weights(w: Seq<int>, xs: Seq<int>) -> bool {
    &&& w.len() == xs.len()
    &&& forall|i: int|
        0 <= i < xs.len() ==> congruent(
            #[trigger] w[i] * int_denominator(xs, i),
            int_numerator(xs, i),
        )
}

/// Lagrange coefficients of the points, where their denominators are units.
pub open spec fn weights_for(xs: Seq<int>) -> Seq<int> {
    Seq::new(xs.len(), |i: int| int_numerator(xs, i) * unit_inverse(int_denominator(xs, i)))
}

/// The products `w[i] * v[i]`.
pub open spec fn weighted(w: Seq<int>, v: Seq<int>) -> Seq<int> {
    Seq::new(w.len(), |i: int| w[i] * v[i])
}

/// The `k`-th powers of the points.
pub open spec fn powers(xs: Seq<int>, k: nat) -> Seq<int> {
    Seq::new(xs.len(), |i: int| pow(xs[i], k))
}

/// The value at `x` of the polynomial with the given coefficients, the
/// constant one first.
pub open spec fn poly_value(coefficients: Seq<int>, x: int) -> int
    decreases coefficients.len(),
{
    if coefficients.len() == 0 {
        0
    } else {
        poly_value(coefficients.drop_last(), x) + coefficients.last() * pow(
            x,
            (coefficients.len() - 1) as nat,
        )
    }
}

/// The values of a polynomial at the points.
pub open spec fn poly_values(coefficients: Seq<int>, xs: Seq<int>) -> Seq<int> {
    Seq::new(xs.len(), |i: int| poly_value(coefficients, xs[i]))
}

/// The covariates as integers.
pub open spec fn points_of(covariates: Seq<u64>) -> Seq<int> {
    covariates.map_values(|x: u64| x as int)
}

/// Residues as integers.
pub open spec fn as_ints(values: Seq<nat>) -> Seq<int> {
    values.map_values(|v: nat| v as int)
}

/// The value that the party at `covariate` holds of the secret shared by
/// the polynomial with the given coefficients, the constant one first: the
/// polynomial's value there, in the field. At zero it is the secret.
pub open spec fn share_value(coefficients: Seq<nat>, covariate: u64) -> nat {
    (poly_value(as_ints(coefficients), covariate as int) % (group_order() as int)) as nat
}

/// The share values at each covariate.
pub open spec fn share_values(coefficients: Seq<nat>, covariates: Seq<u64>) -> Seq<nat> {
    Seq::new(covariates.len(), |i: int| share_value(coefficients, covariates[i]))
}

/// The position that the point at `i` takes once the point at `m` is removed.
pub open spec fn index_without(i: int, m: int) -> int {
    if i < m {
        i
    } else {
        i - 1
    }
}

/// Products of congruent factors are congruent.
pub proof fn lemma_congruent_mul(a: int, a2: int, b: int, b2: int)
    requires
        congruent(a, a2),
        congruent(b, b2),
    ensures
        congruent(a * b, a2 * b2),
{
    let m = group_order() as int;
    lemma_mul_mod_noop_general(a, b, m);
    lemma_mul_mod_noop_general(a2, b2, m);
}

/// Sums of congruent terms are congruent.
pub proof fn lemma_congruent_add(a: int, a2: int, b: int, b2: int)
    requires
        congruent(a, a2),
        congruent(b, b2),
    ensures
        congruent(a + b, a2 + b2),
{
    let m = group_order() as int;
    lemma_add_mod_noop(a, b, m);
    lemma_add_mod_noop(a2, b2, m);
}

/// Differences of congruent terms are congruent.
pub proof fn lemma_congruent_sub(a: int, a2: int, b: int, b2: int)
    requires
        congruent(a, a2),
        congruent(b, b2),
    ensures
        congruent(a - b, a2 - b2),
{
    let m = group_order() as int;
    lemma_sub_mod_noop(a, b, m);
    lemma_sub_mod_noop(a2, b2, m);
}

/// A unit can be cancelled from both sides of a congruence.
pub proof fn lemma_cancel_unit(u: int, a: int, b: int)
    requires
        is_unit(u),
        congruent(u * a, u * b),
    ensures
        congruent(a, b),
{
    let v = unit_inverse(u);
    lemma_congruent_mul(v, v, u * a, u * b);
    assert(v * (u * a) == (u * v) * a) by (nonlinear_arith);
    assert(v * (u * b) == (u * v) * b) by (nonlinear_arith);
    lemma_congruent_mul(u * v, 1, a, a);
    lemma_congruent_mul(u * v, 1, b, b);
}

/// The factors of a unit are units.
pub proof fn lemma_unit_factors(a: int, b: int)
    requires
        is_unit(a * b),
    ensures
        is_unit(a),
        is_unit(b),
{
    let v = unit_inverse(a * b);
    assert(a * (b * v) == (a * b) * v) by (nonlinear_arith);
    assert(b * (a * v) == (a * b) * v) by (nonlinear_arith);
    assert(inverts(a, b * v));
    assert(inverts(b, a * v));
}

/// A product is its factor at `p` times the product of the other factors.
pub proof fn lemma_int_product_remove(factors: Seq<int>, p: int)
    requires
        0 <= p < factors.len(),
    ensures
        int_product(factors) == int_product(factors.remove(p)) * factors[p],
    decreases factors.len(),
{
    let front = factors.drop_last();
    if p == factors.len() - 1 {
        assert(factors.remove(p) =~= front);
    } else {
        lemma_int_product_remove(front, p);
        let rest = factors.remove(p);
        assert(rest.drop_last() =~= front.remove(p));
        assert(rest.last() == factors.last());
        let (x, y, z) = (int_product(front.remove(p)), factors[p], factors.last());
        assert((x * y) * z == (x * z) * y) by (nonlinear_arith);
    }
}

/// A sum is its term at `p` plus the sum of the other terms.
pub proof fn lemma_int_sum_remove(terms: Seq<int>, p: int)
    requires
        0 <= p < terms.len(),
    ensures
        int_sum(terms) == int_sum(terms.remove(p)) + terms[p],
    decreases terms.len(),
{
    let front = terms.drop_last();
    if p == terms.len() - 1 {
        assert(terms.remove(p) =~= front);
    } else {
        lemma_int_sum_remove(front, p);
        let rest = terms.remove(p);
        assert(rest.drop_last() =~= front.remove(p));
        assert(rest.last() == terms.last());
    }
}

/// Summing is linear: where each term of `s` is `c` times the term of `u`
/// plus `d` times the term of `v`, so are the sums.
pub proof fn lemma_int_sum_linear(s: Seq<int>, c: int, u: Seq<int>, d: int, v: Seq<int>)
    requires
        s.len() == u.len(),
        s.len() == v.len(),
        forall|i: int| 0 <= i < s.len() ==> s[i] == c * u[i] + d * v[i],
    ensures
        int_sum(s) == c * int_sum(u) + d * int_sum(v),
    decreases s.len(),
{
    if s.len() > 0 {
        lemma_int_sum_linear(s.drop_last(), c, u.drop_last(), d, v.drop_last());
        let (a, b) = (int_sum(u.drop_last()), int_sum(v.drop_last()));
        let (x, y) = (u.last(), v.last());
        assert(c * (a + x) + d * (b + y) == (c * a + d * b) + (c * x + d * y))
            by (nonlinear_arith);
    } else {
        assert(c * 0 + d * 0 == 0);
    }
}

/// Sums of congruent terms are congruent.
pub proof fn lemma_int_sum_congruent(s: Seq<int>, u: Seq<int>)
    requires
        s.len() == u.len(),
        forall|i: int| 0 <= i < s.len() ==> congruent(s[i], u[i]),
    ensures
        congruent(int_sum(s), int_sum(u)),
    decreases s.len(),
{
    if s.len() > 0 {
        lemma_int_sum_congruent(s.drop_last(), u.drop_last());
        lemma_congruent_add(int_sum(s.drop_last()), int_sum(u.drop_last()), s.last(), u.last());
    }
}

/// Removing the point at `m` takes one factor out of the numerator and one
/// out of the denominator of every other point.
pub proof fn lemma_split_products(xs: Seq<int>, i: int, m: int)
    requires
        0 <= i < xs.len(),
        0 <= m < xs.len(),
        i != m,
    ensures
        xs.remove(m)[index_without(i, m)] == xs[i],
        int_denominator(xs, i) == int_denominator(xs.remove(m), index_without(i, m)) * (xs[i]
            - xs[m]),
        int_numerator(xs, i) == int_numerator(xs.remove(m), index_without(i, m)) * (0 - xs[m]),
{
    let i2 = index_without(i, m);
    let m2 = index_without(m, i);
    let others = xs.remove(i);
    let fewer = xs.remove(m);
    assert(others[m2] == xs[m]);
    assert(fewer[i2] == xs[i]);
    assert(others.remove(m2) =~= fewer.remove(i2));

    let den = others.map_values(|x: int| xs[i] - x);
    lemma_int_product_remove(den, m2);
    assert(den.remove(m2) =~= fewer.remove(i2).map_values(|x: int| fewer[i2] - x));

    let num = others.map_values(|x: int| 0 - x);
    lemma_int_product_remove(num, m2);
    assert(num.remove(m2) =~= fewer.remove(i2).map_values(|x: int| 0 - x));
}

/// Where the denominators are units, the coefficients built from their
/// inverses are Lagrange coefficients.
pub proof fn lemma_weights_exist(xs: Seq<int>)
    requires
        all_units(xs),
    ensures
        are_weights(weights_for(xs), xs),
{
    let w = weights_for(xs);
    assert forall|i: int| 0 <= i < xs.len() implies congruent(
        #[trigger] w[i] * int_denominator(xs, i),
        int_numerator(xs, i),
    ) by {
        let d = int_denominator(xs, i);
        let n = int_numerator(xs, i);
        let u = unit_inverse(d);
        assert(is_unit(d));
        assert(inverts(d, u));
        assert((n * u) * d == n * (d * u)) by (nonlinear_arith);
        lemma_congruent_mul(n, n, d * u, 1);
    }
}

/// Removing a point leaves denominators that are units.
pub proof fn lemma_units_inherit(xs: Seq<int>, m: int)
    requires
        all_units(xs),
        0 <= m < xs.len(),
    ensures
        all_units(xs.remove(m)),
{
    let fewer = xs.remove(m);
    assert forall|j: int| 0 <= j < fewer.len() implies is_unit(
        #[trigger] int_denominator(fewer, j),
    ) by {
        let i = if j < m {
            j
        } else {
            j + 1
        };
        lemma_split_products(xs, i, m);
        assert(is_unit(int_denominator(xs, i)));
        lemma_unit_factors(int_denominator(fewer, j), xs[i] - xs[m]);
    }
}

/// How a coefficient changes when the point at `m` is removed: the
/// coefficient of another point, times its distance to the removed point,
/// is the coefficient among the remaining points times minus the removed
/// point.
pub proof fn lemma_weight_step(w: Seq<int>, xs: Seq<int>, w2: Seq<int>, m: int, i: int)
    requires
        are_weights(w, xs),
        are_weights(w2, xs.remove(m)),
        all_units(xs.remove(m)),
        0 <= i < xs.len(),
        0 <= m < xs.len(),
        i != m,
    ensures
        congruent(w[i] * (xs[i] - xs[m]), (0 - xs[m]) * w2[index_without(i, m)]),
{
    let fewer = xs.remove(m);
    let i2 = index_without(i, m);
    lemma_split_products(xs, i, m);
    let (d, n) = (int_denominator(xs, i), int_numerator(xs, i));
    let (d2, n2) = (int_denominator(fewer, i2), int_numerator(fewer, i2));
    let (dx, nx) = (xs[i] - xs[m], 0 - xs[m]);
    let (a, b) = (w[i], w2[i2]);
    assert(congruent(a * d, n));
    assert(congruent(b * d2, n2));
    assert(is_unit(d2));
    assert(d2 * (a * dx) == a * (d2 * dx)) by (nonlinear_arith);
    assert(d2 * (nx * b) == (b * d2) * nx) by (nonlinear_arith);
    lemma_congruent_mul(b * d2, n2, nx, nx);
    lemma_cancel_unit(d2, a * dx, nx * b);
}

/// The weighted sum of values that vanish at the point at `m`: it is minus
/// that point times the weighted sum, over the remaining points, of what is
/// left of the values once the vanishing factor is taken out.
pub proof fn lemma_sum_step(w: Seq<int>, xs: Seq<int>, w2: Seq<int>, m: int, h: Seq<int>)
    requires
        are_weights(w, xs),
        are_weights(w2, xs.remove(m)),
        all_units(xs.remove(m)),
        0 <= m < xs.len(),
        h.len() == xs.len(),
    ensures
        congruent(
            int_sum(weighted(w, Seq::new(xs.len(), |i: int| (xs[i] - xs[m]) * h[i]))),
            (0 - xs[m]) * int_sum(weighted(w2, h.remove(m))),
        ),
{
    let g = Seq::new(xs.len(), |i: int| (xs[i] - xs[m]) * h[i]);
    let t = weighted(w, g);
    let r = weighted(w2, h.remove(m));
    let nx = 0 - xs[m];
    let scaled = Seq::new(r.len(), |j: int| nx * r[j]);
    lemma_int_sum_remove(t, m);
    assert(t[m] == 0) by {
        assert(t[m] == w[m] * ((xs[m] - xs[m]) * h[m]));
        assert(w[m] * (0 * h[m]) == 0) by (nonlinear_arith);
    }
    assert forall|j: int| 0 <= j < scaled.len() implies congruent(
        t.remove(m)[j],
        scaled[j],
    ) by {
        let i = if j < m {
            j
        } else {
            j + 1
        };
        assert(index_without(i, m) == j);
        lemma_weight_step(w, xs, w2, m, i);
        let dx = xs[i] - xs[m];
        assert(t.remove(m)[j] == w[i] * (dx * h[i]));
        assert(w[i] * (dx * h[i]) == (w[i] * dx) * h[i]) by (nonlinear_arith);
        assert(h.remove(m)[j] == h[i]);
        assert(scaled[j] == nx * (w2[j] * h[i]));
        assert(nx * (w2[j] * h[i]) == (nx * w2[j]) * h[i]) by (nonlinear_arith);
        lemma_congruent_mul(w[i] * dx, nx * w2[j], h[i], h[i]);
    }
    lemma_int_sum_congruent(t.remove(m), scaled);
    assert forall|j: int| 0 <= j < scaled.len() implies scaled[j] == nx * r[j] + 0 * r[j] by {
        assert(0 * r[j] == 0);
    }
    lemma_int_sum_linear(scaled, nx, r, 0, r);
    assert(0 * int_sum(r) == 0);
}

/// Lagrange coefficients for evaluation at zero sum to one.
pub proof fn lemma_weights_sum_to_one(w: Seq<int>, xs: Seq<int>)
    requires
        are_weights(w, xs),
        all_units(xs),
        xs.len() >= 1,
    ensures
        congruent(int_sum(w), 1),
    decreases xs.len(),
{
    if xs.len() == 1 {
        assert(xs.remove(0).len() == 0);
        assert(int_denominator(xs, 0) == 1);
        assert(int_numerator(xs, 0) == 1);
        assert(congruent(w[0] * int_denominator(xs, 0), int_numerator(xs, 0)));
        assert(w[0] * 1 == w[0]);
        assert(w.drop_last().len() == 0);
        assert(int_sum(w.drop_last()) == 0);
        assert(int_sum(w) == w[0]);
    } else {
        let last = xs.len() - 1;
        let (a, b) = (xs[0], xs[last]);
        let ones = Seq::new(xs.len(), |i: int| 1int);
        let to_b = Seq::new(xs.len(), |i: int| (xs[i] - xs[last]) * ones[i]);
        let to_a = Seq::new(xs.len(), |i: int| (xs[i] - xs[0]) * ones[i]);

        // Leaving the last point out, and then the first.
        lemma_units_inherit(xs, last);
        lemma_units_inherit(xs, 0);
        let w_b = weights_for(xs.remove(last));
        let w_a = weights_for(xs.remove(0));
        lemma_weights_exist(xs.remove(last));
        lemma_weights_exist(xs.remove(0));
        lemma_sum_step(w, xs, w_b, last, ones);
        lemma_sum_step(w, xs, w_a, 0, ones);
        lemma_weights_sum_to_one(w_b, xs.remove(last));
        lemma_weights_sum_to_one(w_a, xs.remove(0));
        lemma_weighted_by_ones(w_b, ones.remove(last));
        lemma_weighted_by_ones(w_a, ones.remove(0));
        lemma_congruent_mul(0 - b, 0 - b, int_sum(weighted(w_b, ones.remove(last))), 1);
        lemma_congruent_mul(0 - a, 0 - a, int_sum(weighted(w_a, ones.remove(0))), 1);
        let sum_b = int_sum(weighted(w, to_b));
        let sum_a = int_sum(weighted(w, to_a));
        assert(congruent(sum_b, 0 - b));
        assert(congruent(sum_a, 0 - a));

        // The two sums differ by the sum of the coefficients, times `a - b`.
        assert forall|i: int| 0 <= i < xs.len() implies weighted(w, to_b)[i] == 1 * weighted(
            w,
            to_a,
        )[i] + (a - b) * w[i] by {
            let (x, c) = (xs[i], w[i]);
            assert(c * ((x - b) * 1) == 1 * (c * ((x - a) * 1)) + (a - b) * c)
                by (nonlinear_arith);
        }
        lemma_int_sum_linear(weighted(w, to_b), 1, weighted(w, to_a), a - b, w);
        lemma_congruent_sub(sum_b, 0 - b, sum_a, 0 - a);
        assert(sum_b - sum_a == (a - b) * int_sum(w));
        assert((a - b) * 1 == (0 - b) - (0 - a));

        lemma_split_products(xs, 0, last);
        assert(is_unit(int_denominator(xs, 0)));
        lemma_unit_factors(int_denominator(xs.remove(last), index_without(0, last)), a - b);
        lemma_cancel_unit(a - b, int_sum(w), 1);
    }
}

/// Weighting values that are all one leaves the sum of the weights.
pub proof fn lemma_weighted_by_ones(w: Seq<int>, ones: Seq<int>)
    requires
        ones.len() == w.len(),
        forall|i: int| 0 <= i < ones.len() ==> ones[i] == 1,
    ensures
        int_sum(weighted(w, ones)) == int_sum(w),
{
    let t = weighted(w, ones);
    assert forall|i: int| 0 <= i < t.len() implies t[i] == 1 * w[i] + 0 * w[i] by {
        assert(w[i] * 1 == 1 * w[i] + 0 * w[i]) by (nonlinear_arith);
    }
    lemma_int_sum_linear(t, 1, w, 0, w);
    assert(1 * int_sum(w) + 0 * int_sum(w) == int_sum(w)) by (nonlinear_arith);
}

/// Interpolation at zero is exact on monomials of degree below the number
/// of points: the weighted sum of the `k`-th powers is one for `k = 0` and
/// zero otherwise.
pub proof fn lemma_monomial(w: Seq<int>, xs: Seq<int>, k: nat)
    requires
        are_weights(w, xs),
        all_units(xs),
        k < xs.len(),
    ensures
        congruent(int_sum(weighted(w, powers(xs, k))), if k == 0 { 1int } else { 0int }),
    decreases xs.len(), k,
{
    let p = powers(xs, k);
    if k == 0 {
        assert forall|i: int| 0 <= i < p.len() implies p[i] == 1 by {
            lemma_pow0(xs[i]);
        }
        lemma_weighted_by_ones(w, p);
        lemma_weights_sum_to_one(w, xs);
    } else {
        let last = xs.len() - 1;
        let b = xs[last];
        let j = (k - 1) as nat;
        let q = powers(xs, j);
        let fewer = xs.remove(last);
        let w2 = weights_for(fewer);
        lemma_units_inherit(xs, last);
        lemma_weights_exist(fewer);
        let g = Seq::new(xs.len(), |i: int| (xs[i] - xs[last]) * q[i]);
        lemma_sum_step(w, xs, w2, last, q);
        assert(q.remove(last) =~= powers(fewer, j));
        lemma_monomial(w2, fewer, j);
        lemma_monomial(w, xs, j);
        let e = if j == 0 { 1int } else { 0int };
        let below = int_sum(weighted(w2, powers(fewer, j)));
        let same = int_sum(weighted(w, q));
        lemma_congruent_mul(0 - b, 0 - b, below, e);
        lemma_congruent_mul(b, b, same, e);
        assert forall|i: int| 0 <= i < xs.len() implies weighted(w, p)[i] == 1 * weighted(w, g)[i]
            + b * weighted(w, q)[i] by {
            let (x, c, y) = (xs[i], w[i], pow(xs[i], j));
            assert(pow(x, k) == x * y) by {
                reveal(pow);
            }
            assert(c * (x * y) == 1 * (c * ((x - b) * y)) + b * (c * y)) by (nonlinear_arith);
        }
        lemma_int_sum_linear(weighted(w, p), 1, weighted(w, g), b, weighted(w, q));
        lemma_congruent_add(int_sum(weighted(w, g)), (0 - b) * e, b * same, b * e);
        assert((0 - b) * e + b * e == 0) by (nonlinear_arith);
    }
}

/// Interpolation at zero is exact on polynomials with no more coefficients
/// than there are points: the weighted sum of the values at the points is
/// the value at zero.
pub proof fn lemma_interpolation(w: Seq<int>, xs: Seq<int>, coefficients: Seq<int>)
    requires
        are_weights(w, xs),
        all_units(xs),
        coefficients.len() <= xs.len(),
    ensures
        congruent(
            int_sum(weighted(w, poly_values(coefficients, xs))),
            poly_value(coefficients, 0),
        ),
    decreases coefficients.len(),
{
    let values = poly_values(coefficients, xs);
    let t = weighted(w, values);
    if coefficients.len() == 0 {
        assert forall|i: int| 0 <= i < t.len() implies t[i] == 0 * w[i] + 0 * w[i] by {
            assert(w[i] * 0 == 0 * w[i] + 0 * w[i]) by (nonlinear_arith);
        }
        lemma_int_sum_linear(t, 0, w, 0, w);
        assert(0 * int_sum(w) + 0 * int_sum(w) == 0) by (nonlinear_arith);
    } else {
        let lower = coefficients.drop_last();
        let a = coefficients.last();
        let k = (coefficients.len() - 1) as nat;
        let t_lower = weighted(w, poly_values(lower, xs));
        let t_top = weighted(w, powers(xs, k));
        lemma_interpolation(w, xs, lower);
        lemma_monomial(w, xs, k);
        assert forall|i: int| 0 <= i < xs.len() implies t[i] == 1 * t_lower[i] + a * t_top[i] by {
            let (c, y, z) = (w[i], poly_value(lower, xs[i]), pow(xs[i], k));
            assert(c * (y + a * z) == 1 * (c * y) + a * (c * z)) by (nonlinear_arith);
        }
        lemma_int_sum_linear(t, 1, t_lower, a, t_top);
        let e = if k == 0 { 1int } else { 0int };
        lemma_congruent_mul(a, a, int_sum(t_top), e);
        lemma_congruent_add(int_sum(t_lower), poly_value(lower, 0), a * int_sum(t_top), a * e);
        assert(pow(0, k) == e) by {
            if k > 0 {
                lemma0_pow(k);
            } else {
                lemma_pow0(0);
            }
        }
    }
}

/// The secret that a polynomial shares is its constant coefficient.
pub proof fn law_secret_is_constant_coefficient(coefficients: Seq<nat>)
    requires
        coefficients.len() >= 1,
    ensures
        share_value(coefficients, 0) == coefficients[0] % group_order(),
{
    lemma_value_at_zero(as_ints(coefficients));
}

/// At zero a polynomial takes the value of its constant coefficient.
pub proof fn lemma_value_at_zero(coefficients: Seq<int>)
    requires
        coefficients.len() >= 1,
    ensures
        poly_value(coefficients, 0) == coefficients[0],
    decreases coefficients.len(),
{
    let lower = coefficients.drop_last();
    let k = (coefficients.len() - 1) as nat;
    if k == 0 {
        lemma_pow0(0);
        assert(poly_value(lower, 0) == 0);
    } else {
        lemma0_pow(k);
        lemma_value_at_zero(lower);
    }
}

/// The field's numerator is the integer one, reduced.
pub proof fn lemma_numerator_is_product(others: Seq<u64>)
    ensures
        numerator(others) == int_product(points_of(others).map_values(|x: int| 0 - x)) % (
        group_order() as int),
    decreases others.len(),
{
    let m = group_order() as int;
    let factors = points_of(others).map_values(|x: int| 0 - x);
    if others.len() > 0 {
        let front = others.drop_last();
        lemma_numerator_is_product(front);
        assert(factors.drop_last() =~= points_of(front).map_values(|x: int| 0 - x));
        let p = int_product(factors.drop_last());
        let f = factors.last();
        assert(f == 0 - others.last() as int);
        lemma_mul_mod_noop_general(p, f, m);
    }
}

/// The field's denominator is the integer one, reduced.
pub proof fn lemma_denominator_is_product(covariate: u64, others: Seq<u64>)
    ensures
        denominator(covariate, others) == int_product(
            points_of(others).map_values(|x: int| covariate as int - x),
        ) % (group_order() as int),
    decreases others.len(),
{
    let m = group_order() as int;
    let factors = points_of(others).map_values(|x: int| covariate as int - x);
    if others.len() > 0 {
        let front = others.drop_last();
        lemma_denominator_is_product(covariate, front);
        assert(factors.drop_last() =~= points_of(front).map_values(
            |x: int| covariate as int - x,
        ));
        let p = int_product(factors.drop_last());
        let f = factors.last();
        assert(f == covariate as int - others.last() as int);
        lemma_mul_mod_noop_general(p, f, m);
    }
}

/// The field's weighted sum is the integer one, reduced.
pub proof fn lemma_weighted_sum_is_sum(w: Seq<nat>, v: Seq<nat>)
    requires
        w.len() == v.len(),
    ensures
        weighted_sum(w, v) == int_sum(weighted(as_ints(w), as_ints(v))) % (group_order() as int),
    decreases w.len(),
{
    let m = group_order() as int;
    let t = weighted(as_ints(w), as_ints(v));
    if w.len() > 0 {
        lemma_weighted_sum_is_sum(w.drop_last(), v.drop_last());
        assert(t.drop_last() =~= weighted(as_ints(w.drop_last()), as_ints(v.drop_last())));
        let s = int_sum(t.drop_last());
        let x = (w.last() * v.last()) as int;
        assert(t.last() == x);
        lemma_add_mod_noop(s, x, m);
    }
}

/// The Lagrange coefficient is the one residue that, times the product of
/// the differences `covariate - x`, is congruent to the product of the
/// negations `0 - x`, over every `x` of the others.
pub proof fn law_coefficient_is_the_quotient(covariate: u64, others: Seq<u64>, c: nat)
    requires
        has_inverse(denominator(covariate, others)),
        c < group_order(),
        congruent(
            c * int_product(points_of(others).map_values(|x: int| covariate as int - x)),
            int_product(points_of(others).map_values(|x: int| 0 - x)),
        ),
    ensures
        lagrange_at_zero(covariate, others) == c,
{
    let m = group_order() as int;
    let d = int_product(points_of(others).map_values(|x: int| covariate as int - x));
    let n = int_product(points_of(others).map_values(|x: int| 0 - x));
    let den = denominator(covariate, others);
    let num = numerator(others) as int;
    let inv = inv_mod(den) as int;
    let w = lagrange_at_zero(covariate, others) as int;
    lemma_denominator_is_product(covariate, others);
    lemma_numerator_is_product(others);
    lemma_mul_mod_noop_general(d, inv, m);
    assert(inverts(d, inv));
    // The coefficient, too, times the denominator is the numerator.
    lemma_mod_twice(num * inv, m);
    lemma_mod_twice(n, m);
    lemma_congruent_mul(num, n, inv, inv);
    lemma_congruent_mul(w, n * inv, d, d);
    assert((n * inv) * d == n * (d * inv)) by (nonlinear_arith);
    lemma_congruent_mul(n, n, d * inv, 1);
    assert(d * w == w * d && d * c == c * d) by (nonlinear_arith);
    lemma_cancel_unit(d, w, c as int);
    lemma_small_mod(c, group_order());
    lemma_small_mod(w as nat, group_order());
}

/// Where every covariate has a Lagrange coefficient in the field, those
/// coefficients are Lagrange coefficients of the covariates as integers.
pub proof fn lemma_field_weights(covariates: Seq<u64>)
    requires
        weights_defined(covariates),
    ensures
        all_units(points_of(covariates)),
        are_weights(as_ints(lagrange_weights(covariates)), points_of(covariates)),
{
    let m = group_order() as int;
    let xs = points_of(covariates);
    let w = as_ints(lagrange_weights(covariates));
    assert forall|i: int| 0 <= i < xs.len() implies is_unit(#[trigger] int_denominator(xs, i))
        && congruent(w[i] * int_denominator(xs, i), int_numerator(xs, i)) by {
        let others = covariates.remove(i);
        let den = denominator(covariates[i], others);
        let num = numerator(others) as int;
        let inv = inv_mod(den) as int;
        let d = int_denominator(xs, i);
        let n = int_numerator(xs, i);
        assert(has_inverse(den));
        lemma_denominator_is_product(covariates[i], others);
        lemma_numerator_is_product(others);
        assert(points_of(others) =~= xs.remove(i));
        assert(xs.remove(i).map_values(|x: int| covariates[i] as int - x) =~= xs.remove(
            i,
        ).map_values(|x: int| xs[i] - x));
        assert(den == d % m);
        assert(num == n % m);
        // The inverse in the field inverts the integer denominator.
        lemma_mul_mod_noop_general(d, inv, m);
        assert(inverts(d, inv));
        // The coefficient is the numerator times that inverse.
        assert(w[i] == lagrange_at_zero(covariates[i], others));
        assert(w[i] == (num * inv) % m);
        lemma_mod_twice(num * inv, m);
        lemma_mod_twice(n, m);
        assert(congruent(w[i], num * inv));
        lemma_congruent_mul(num, n, inv, inv);
        lemma_congruent_mul(w[i], n * inv, d, d);
        assert((n * inv) * d == n * (d * inv)) by (nonlinear_arith);
        lemma_congruent_mul(n, n, d * inv, 1);
    }
}

/// The Lagrange-weighted sum of the shares of a secret is the secret,
/// where there are at least as many shares as the sharing polynomial has
/// coefficients.
pub proof fn lemma_shares_interpolate(coefficients: Seq<nat>, covariates: Seq<u64>)
    requires
        weights_defined(covariates),
        coefficients.len() <= covariates.len(),
    ensures
        weighted_sum(lagrange_weights(covariates), share_values(coefficients, covariates))
            == share_value(coefficients, 0),
{
    let m = group_order() as int;
    let xs = points_of(covariates);
    let c = as_ints(coefficients);
    let weights = lagrange_weights(covariates);
    let w = as_ints(weights);
    let shares = share_values(coefficients, covariates);
    lemma_field_weights(covariates);
    lemma_interpolation(w, xs, c);
    lemma_weighted_sum_is_sum(weights, shares);
    let reduced = weighted(w, as_ints(shares));
    let exact = weighted(w, poly_values(c, xs));
    assert forall|i: int| 0 <= i < reduced.len() implies congruent(reduced[i], exact[i]) by {
        let y = poly_value(c, xs[i]);
        assert(as_ints(shares)[i] == y % m);
        lemma_mod_twice(y, m);
        lemma_congruent_mul(w[i], w[i], y % m, y);
    }
    lemma_int_sum_congruent(reduced, exact);
}

} // verus!
