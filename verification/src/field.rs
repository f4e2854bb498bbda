//! The scalar field: integers modulo the order of the ristretto255 group.
//!
//! A [`Scalar`] holds the canonical little-endian encoding of a residue and
//! is viewed as that residue. The arithmetic itself is done by
//! `curve25519_dalek_ng`; the functions here say what each call returns.

use crate::bytes::le_value;
use crate::errors::Error;
use curve25519_dalek_ng::constants::BASEPOINT_ORDER;
use vstd::arithmetic::div_mod::{
    lemma_add_mod_noop, lemma_fundamental_div_mod_converse, lemma_mod_twice,
    lemma_mul_mod_noop_general, lemma_mul_mod_noop_left, lemma_mul_mod_noop_right,
    lemma_small_mod, lemma_sub_mod_noop, lemma_sub_mod_noop_right,
};
use vstd::prelude::*;

verus! {

/// The order of the group: `2^252 + 27742317777372353535851937790883648493`.
pub open spec fn group_order() -> nat {
    7237005577332262213973186563042994240857116359379907606001950938285454250989nat
}

/// `a + b` in the field.
pub open spec fn add_mod(a: nat, b: nat) -> nat {
    (a + b) % group_order()
}

/// `a - b` in the field.
pub open spec fn sub_mod(a: nat, b: nat) -> nat {
    ((a as int - b as int) % (group_order() as int)) as nat
}

/// `-a` in the field.
pub open spec fn neg_mod(a: nat) -> nat {
    sub_mod(0, a)
}

/// `a * b` in the field.
pub open spec fn mul_mod(a: nat, b: nat) -> nat {
    (a * b) % group_order()
}

/// `x` is the reduced multiplicative inverse of `a`.
pub open spec fn is_inverse(a: nat, x: nat) -> bool {
    x < group_order() && (a * x) % group_order() == 1
}

/// The multiplicative inverse of `a` in the field, where it has one.
pub open spec fn inv_mod(a: nat) -> nat {
    choose|x: nat| is_inverse(a, x)
}

/// `a` has a multiplicative inverse in the field.
pub open spec fn has_inverse(a: nat) -> bool {
    is_inverse(a, inv_mod(a))
}

/// A residue modulo the group order, held as its canonical encoding.
#[derive(Clone, Copy, Debug, PartialEq, Eq)]
pub struct Scalar {
    bytes: [u8; 32],
}

impl View for Scalar {
    type V = nat;

    open spec fn view(&self) -> nat {
        le_value(self.encoding())
    }
}

impl Scalar {
    /// The 32 bytes held.
    pub closed spec fn encoding(&self) -> Seq<u8> {
        self.bytes@
    }

    /// The encoding is the canonical one: it encodes a value below the group order.
    pub open spec fn wf(&self) -> bool {
        self.encoding().len() == 32 && self@ < group_order()
    }
}

/// Calls `Scalar::from_bytes_mod_order`, which reads the bytes as a 256-bit
/// little-endian integer and reduces it modulo the group order; the result
/// is handed back as its encoding.
#[verifier::external_body]
fn dalek_reduce(bytes: &[u8; 32]) -> (r: [u8; 32])
    ensures
        le_value(r@) == le_value(bytes@) % group_order(),
{
    curve25519_dalek_ng::scalar::Scalar::from_bytes_mod_order(*bytes).to_bytes()
}

/// Calls `Scalar::from(u64)`: the scalar whose value is the given integer.
#[verifier::external_body]
fn dalek_from_u64(x: u64) -> (r: [u8; 32])
    ensures
        le_value(r@) == x as nat,
{
    curve25519_dalek_ng::scalar::Scalar::from(x).to_bytes()
}

/// Calls `Scalar::random` on the thread's generator. The value drawn is not
/// predictable; the scalar returned is reduced, as every scalar the outside
/// crate computes is.
#[verifier::external_body]
fn dalek_random() -> (r: [u8; 32])
    ensures
        le_value(r@) < group_order(),
{
    curve25519_dalek_ng::scalar::Scalar::random(&mut rand::thread_rng()).to_bytes()
}

/// Calls the outside crate's `+` on two scalars: addition modulo the group order.
#[verifier::external_body]
fn dalek_add(a: &[u8; 32], b: &[u8; 32]) -> (r: [u8; 32])
    ensures
        le_value(r@) == add_mod(le_value(a@), le_value(b@)),
{
    let x = curve25519_dalek_ng::scalar::Scalar::from_bytes_mod_order(*a);
    let y = curve25519_dalek_ng::scalar::Scalar::from_bytes_mod_order(*b);
    (x + y).to_bytes()
}

/// Calls the outside crate's `-` on two scalars: subtraction modulo the group order.
#[verifier::external_body]
fn dalek_sub(a: &[u8; 32], b: &[u8; 32]) -> (r: [u8; 32])
    ensures
        le_value(r@) == sub_mod(le_value(a@), le_value(b@)),
{
    let x = curve25519_dalek_ng::scalar::Scalar::from_bytes_mod_order(*a);
    let y = curve25519_dalek_ng::scalar::Scalar::from_bytes_mod_order(*b);
    (x - y).to_bytes()
}

/// Calls the outside crate's unary `-` on a scalar: negation modulo the group order.
#[verifier::external_body]
fn dalek_neg(a: &[u8; 32]) -> (r: [u8; 32])
    ensures
        le_value(r@) == neg_mod(le_value(a@)),
{
    (-curve25519_dalek_ng::scalar::Scalar::from_bytes_mod_order(*a)).to_bytes()
}

/// Calls the outside crate's `*` on two scalars: multiplication modulo the group order.
#[verifier::external_body]
fn dalek_mul(a: &[u8; 32], b: &[u8; 32]) -> (r: [u8; 32])
    ensures
        le_value(r@) == mul_mod(le_value(a@), le_value(b@)),
{
    let x = curve25519_dalek_ng::scalar::Scalar::from_bytes_mod_order(*a);
    let y = curve25519_dalek_ng::scalar::Scalar::from_bytes_mod_order(*b);
    (x * y).to_bytes()
}

/// Calls `Scalar::invert`, which the outside crate documents for nonzero
/// scalars only: the result is the reduced scalar whose product with the
/// argument is one.
#[verifier::external_body]
fn dalek_invert(a: &[u8; 32]) -> (r: [u8; 32])
    requires
        le_value(a@) % group_order() != 0,
    ensures
        is_inverse(le_value(a@), le_value(r@)),
{
    curve25519_dalek_ng::scalar::Scalar::from_bytes_mod_order(*a).invert().to_bytes()
}

/// Reads the outside crate's constant `BASEPOINT_ORDER`: the encoding of the
/// group order itself.
#[verifier::external_body]
fn dalek_order_bytes() -> (r: [u8; 32])
    ensures
        le_value(r@) == group_order(),
{
    BASEPOINT_ORDER.to_bytes()
}

/// The group order as 32 little-endian bytes.
pub fn get_group_order() -> (order: [u8; 32])
    ensures
        le_value(order@) == group_order(),
{
    dalek_order_bytes()
}

/// Decodes a scalar, reducing modulo the group order: every input is accepted.
pub fn scalar_from_bytes(bytes: [u8; 32]) -> (s: Scalar)
    ensures
        s.wf(),
        s@ == le_value(bytes@) % group_order(),
{
    Scalar { bytes: dalek_reduce(&bytes) }
}

/// The canonical encoding of a scalar.
pub fn scalar_to_bytes(s: &Scalar) -> (bytes: [u8; 32])
    ensures
        bytes@ == s.encoding(),
        le_value(bytes@) == s@,
{
    s.bytes
}

/// The scalar whose value is `x`.
pub fn scalar_from_u64(x: u64) -> (s: Scalar)
    ensures
        s.wf(),
        s@ == x as nat,
{
    Scalar { bytes: dalek_from_u64(x) }
}

/// A scalar drawn from the thread's secure random generator.
pub fn scalar_random() -> (s: Scalar)
    ensures
        s.wf(),
{
    Scalar { bytes: dalek_random() }
}

/// `a + b` modulo the group order.
pub fn scalar_add(a: &Scalar, b: &Scalar) -> (s: Scalar)
    ensures
        s.wf(),
        s@ == add_mod(a@, b@),
{
    Scalar { bytes: dalek_add(&a.bytes, &b.bytes) }
}

/// `a - b` modulo the group order.
pub fn scalar_sub(a: &Scalar, b: &Scalar) -> (s: Scalar)
    ensures
        s.wf(),
        s@ == sub_mod(a@, b@),
{
    Scalar { bytes: dalek_sub(&a.bytes, &b.bytes) }
}

/// `-a` modulo the group order.
pub fn scalar_neg(a: &Scalar) -> (s: Scalar)
    ensures
        s.wf(),
        s@ == neg_mod(a@),
{
    Scalar { bytes: dalek_neg(&a.bytes) }
}

/// `a * b` modulo the group order.
pub fn scalar_mul(a: &Scalar, b: &Scalar) -> (s: Scalar)
    ensures
        s.wf(),
        s@ == mul_mod(a@, b@),
{
    Scalar { bytes: dalek_mul(&a.bytes, &b.bytes) }
}

/// Whether `a` is the zero scalar.
pub fn scalar_is_zero(a: &Scalar) -> (zero: bool)
    ensures
        zero == (a@ == 0),
{
    let mut i: usize = 0;
    while i < 32
        invariant
            i <= 32,
            a.bytes@.len() == 32,
            forall|j: int| 0 <= j < i ==> a.bytes@[j] == 0,
        decreases 32 - i,
    {
        if a.bytes[i] != 0 {
            proof {
                lemma_le_value_zero(a.bytes@);
            }
            return false;
        }
        i += 1;
    }
    proof {
        lemma_le_value_zero(a.bytes@);
    }
    true
}

/// The multiplicative inverse of `a`; the zero scalar has none.
pub fn scalar_invert(a: &Scalar) -> (r: Result<Scalar, Error>)
    requires
        a.wf(),
    ensures
        a@ == 0 <==> r is Err,
        r is Err ==> r == Err::<Scalar, Error>(Error::DivisionByZero),
        r matches Ok(x) ==> x.wf() && x@ == inv_mod(a@) && mul_mod(a@, x@) == 1,
{
    if scalar_is_zero(a) {
        return Err(Error::DivisionByZero);
    }
    proof {
        lemma_small_mod(a@, group_order());
    }
    let x = Scalar { bytes: dalek_invert(&a.bytes) };
    proof {
        lemma_inverse_unique(a@, x@, inv_mod(a@));
    }
    Ok(x)
}

/// A byte string encodes zero exactly when all its bytes are zero.
pub proof fn lemma_le_value_zero(s: Seq<u8>)
    ensures
        le_value(s) == 0 <==> forall|i: int| 0 <= i < s.len() ==> s[i] == 0,
    decreases s.len(),
{
    if s.len() > 0 {
        let rest = s.drop_first();
        lemma_le_value_zero(rest);
        if le_value(s) == 0 {
            assert forall|i: int| 0 <= i < s.len() implies s[i] == 0 by {
                if i > 0 {
                    assert(rest[i - 1] == s[i]);
                }
            }
        }
        if forall|i: int| 0 <= i < s.len() ==> s[i] == 0 {
            assert forall|i: int| 0 <= i < rest.len() implies rest[i] == 0 by {
                assert(rest[i] == s[i + 1]);
            }
        }
    }
}

/// A residue has at most one reduced inverse.
pub proof fn lemma_inverse_unique(a: nat, x: nat, y: nat)
    requires
        is_inverse(a, x),
        is_inverse(a, y),
    ensures
        x == y,
{
    let m = group_order() as int;
    let (ai, xi, yi) = (a as int, x as int, y as int);
    assert(xi * (ai * yi) == (ai * xi) * yi) by (nonlinear_arith);
    lemma_mul_mod_noop_right(xi, ai * yi, m);
    lemma_mul_mod_noop_left(ai * xi, yi, m);
    lemma_small_mod(x, group_order());
    lemma_small_mod(y, group_order());
    assert(xi * 1 == xi && 1 * yi == yi);
}

/// The product of two inverses is the inverse of the product.
pub proof fn lemma_inverse_of_product(a: nat, x: nat, b: nat, y: nat)
    requires
        is_inverse(a, x),
        is_inverse(b, y),
    ensures
        is_inverse(mul_mod(a, b), mul_mod(x, y)),
{
    let m = group_order() as int;
    let (ai, xi, bi, yi) = (a as int, x as int, b as int, y as int);
    assert((ai * bi) * (xi * yi) == (ai * xi) * (bi * yi)) by (nonlinear_arith);
    lemma_mul_mod_noop_general(ai * bi, xi * yi, m);
    lemma_mul_mod_noop_general(ai * xi, bi * yi, m);
}

/// Two different 64-bit integers differ in the field too.
pub proof fn lemma_sub_mod_nonzero(x: u64, y: u64)
    requires
        x != y,
    ensures
        sub_mod(x as nat, y as nat) != 0,
{
    let m = group_order() as int;
    let d = x as int - y as int;
    if d > 0 {
        lemma_fundamental_div_mod_converse(d, m, 0, d);
    } else {
        lemma_fundamental_div_mod_converse(d, m, -1, d + m);
    }
}

/// Addition in the field is associative.
pub proof fn lemma_add_mod_associates(x: nat, y: nat, z: nat)
    ensures
        add_mod(add_mod(x, y), z) == add_mod(x, add_mod(y, z)),
{
    let m = group_order() as int;
    lemma_add_mod_noop((x + y) as int, z as int, m);
    lemma_add_mod_noop(x as int, (y + z) as int, m);
    lemma_mod_twice((x + y) as int, m);
    lemma_mod_twice((y + z) as int, m);
    lemma_add_mod_noop(((x + y) % group_order()) as int, z as int, m);
    lemma_add_mod_noop(x as int, ((y + z) % group_order()) as int, m);
}

/// Taking `y` away from `x + y` gives `x` back.
pub proof fn lemma_sub_undoes_add(x: nat, y: nat)
    requires
        x < group_order(),
    ensures
        sub_mod(add_mod(x, y), y) == x,
{
    let m = group_order() as int;
    let s = (x + y) as int;
    lemma_sub_mod_noop(s, y as int, m);
    lemma_sub_mod_noop_right(s % m, y as int, m);
    lemma_small_mod(x, group_order());
}

} // verus!
