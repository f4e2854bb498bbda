//! Bulletproofs range proofs over Pedersen commitments.
//!
//! A range proof shows that committed values lie in `[0, 2^bits)` without
//! revealing them. Proofs are made and checked by the `bulletproofs` crate,
//! over a transcript that prover and verifier start from the same label and
//! a generator set sized to the bit width and to the number of values proved
//! together. What is decided here is everything around those calls: which
//! inputs are refused before any cryptographic work, what a proof must look
//! like to be worth checking, and how the outcome is reported.
//!
//! A generator set is costly to build and never changes. The functions that
//! take a [`Generators`] let a caller build each set once and share it; the
//! `zkrp_` functions build the set they need for one call.

use crate::bytes::le_value;
use crate::errors::Error;
use crate::field::{group_order, scalar_from_bytes, scalar_random, scalar_to_bytes};
use crate::group::{
    all_point_encodings, byte_strings, is_point_encoding, opens_to, pedersen_point,
    point_decompress,
};
use bulletproofs::{BulletproofGens, PedersenGens, ProofError, RangeProof};
use merlin::Transcript;
use vstd::arithmetic::power2::{
    lemma2_to64, lemma_pow2_adds, lemma_pow2_pos, lemma_pow2_strictly_increases,
    lemma_pow2_unfold, pow2,
};
use vstd::prelude::*;

verus! {

/// The most bits that one proof can speak of, over all its values: a proof
/// records one folding round for each halving of that number, and fewer
/// than 32 rounds.
pub const MAX_STATEMENT_BITS: usize = 0x8000_0000;

/// The outside crate's proof of a range statement.
#[verifier::external_type_specification]
#[verifier::external_body]
pub struct ExRangeProof(bulletproofs::RangeProof);

/// The outside crate's generator set for range proofs.
#[verifier::external_type_specification]
#[verifier::external_body]
pub struct ExBulletproofGens(bulletproofs::BulletproofGens);

/// The outside crate's error for proving, verifying and parsing.
#[verifier::external_type_specification]
#[verifier::external_body]
pub struct ExProofError(bulletproofs::ProofError);

/// The Fiat-Shamir transcript of the `merlin` crate.
#[verifier::external_type_specification]
#[verifier::external_body]
pub struct ExTranscript(merlin::Transcript);

/// What went wrong in the outside crate, by the kind of its error.
#[derive(Clone, Copy, Debug, PartialEq, Eq, Structural)]
pub enum ProofFailure {
    /// A proof did not verify.
    Verification,
    /// Proof bytes could not be parsed.
    Format,
    /// Values and blinding factors differ in number.
    WrongNumBlindingFactors,
    /// A bit width other than 8, 16, 32 or 64.
    InvalidBitsize,
    /// A number of values that is not a power of two.
    InvalidAggregation,
    /// Too few generators for the proof.
    InvalidGeneratorsLength,
    /// The proving protocol failed inside.
    Proving,
}

/// The public parameters of range proofs for `parties` values of `bits`
/// bits each.
pub struct Generators {
    set: BulletproofGens,
    bits: usize,
    parties: usize,
}

/// The label every transcript starts from.
pub open spec fn transcript_label_text() -> Seq<char> {
    "zkrp"@
}

/// The bit widths for which a range can be proved.
pub open spec fn supported_bitsize(bits: usize) -> bool {
    bits == 8 || bits == 16 || bits == 32 || bits == 64
}

/// `value` lies in `[0, 2^bits)`.
pub open spec fn fits_in_bits(value: u64, bits: usize) -> bool {
    (value as nat) < pow2(bits as nat)
}

/// Every value of `values` lies in `[0, 2^bits)`.
pub open spec fn all_fit_in_bits(values: Seq<u64>, bits: usize) -> bool {
    forall|i: int| 0 <= i < values.len() ==> fits_in_bits(#[trigger] values[i], bits)
}

/// `count` is one of 1, 2, 4, 8, ...
pub open spec fn is_power_of_two(count: nat) -> bool {
    exists|k: nat| count == pow2(k)
}

/// Why no generator set serves `count` values of `bits` bits each, if none
/// does: the count must be a power of two, the width one that can be
/// proved, and the two together within what one proof can speak of.
pub open spec fn dimensions_rejection(bits: usize, count: nat) -> Option<Error> {
    if !is_power_of_two(count) {
        Some(Error::DimensionMismatch)
    } else if !supported_bitsize(bits) {
        Some(Error::InvalidRangeError)
    } else if bits * count > MAX_STATEMENT_BITS {
        Some(Error::DimensionMismatch)
    } else {
        None
    }
}

/// The 32 bytes of `bytes` that make up its element number `index`.
pub open spec fn proof_element(bytes: Seq<u8>, index: int) -> Seq<u8> {
    bytes.subrange(32 * index, 32 * index + 32)
}

/// `bytes` is the canonical encoding of a scalar.
pub open spec fn is_canonical_scalar(bytes: Seq<u8>) -> bool {
    le_value(bytes) < group_order()
}

/// The number of folding rounds that a proof of `len` bytes records: a
/// proof is nine 32-byte elements and two more for each round.
pub open spec fn proof_rounds(len: nat) -> nat {
    ((len / 32 - 9) / 2) as nat
}

/// `bytes` can be read as a range proof: a whole number of 32-byte
/// elements, nine of them and two more for each of fewer than 32 rounds,
/// with a canonical scalar wherever the format holds a scalar (elements
/// 4, 5 and 6, and the last two).
pub open spec fn is_well_formed_proof(bytes: Seq<u8>) -> bool {
    let count = bytes.len() as int / 32;
    &&& bytes.len() % 32 == 0
    &&& count >= 9
    &&& (count - 9) % 2 == 0
    &&& (count - 9) / 2 < 32
    &&& is_canonical_scalar(proof_element(bytes, 4))
    &&& is_canonical_scalar(proof_element(bytes, 5))
    &&& is_canonical_scalar(proof_element(bytes, 6))
    &&& is_canonical_scalar(proof_element(bytes, count - 2))
    &&& is_canonical_scalar(proof_element(bytes, count - 1))
}

/// A proof of `len` bytes has the size of a proof for `count` values of
/// `bits` bits each: its rounds halve `bits * count` down to one.
pub open spec fn proof_fits(len: nat, bits: usize, count: nat) -> bool {
    &&& supported_bitsize(bits)
    &&& len >= 288
    &&& bits * count == pow2(proof_rounds(len))
}

/// The failure reported for each kind of failure of the outside crate.
pub open spec fn error_of(failure: ProofFailure) -> Error {
    match failure {
        ProofFailure::Verification => Error::InvalidRangeError,
        ProofFailure::Format => Error::ProofDeserializationError,
        ProofFailure::WrongNumBlindingFactors => Error::DimensionMismatch,
        ProofFailure::InvalidBitsize => Error::InvalidRangeError,
        ProofFailure::InvalidAggregation => Error::DimensionMismatch,
        ProofFailure::InvalidGeneratorsLength => Error::DimensionMismatch,
        ProofFailure::Proving => Error::InvalidRangeError,
    }
}

/// Why values and blindings are refused before any proving, if they are:
/// lists of different lengths first, then no value at all, then a value
/// that does not fit, and last dimensions that no generator set serves.
pub open spec fn prove_rejection(values: Seq<u64>, blindings: nat, bits: usize) -> Option<Error> {
    if values.len() != blindings {
        Some(Error::DimensionMismatch)
    } else if values.len() == 0 {
        Some(Error::EmptyInputError)
    } else if !all_fit_in_bits(values, bits) {
        Some(Error::InvalidRangeError)
    } else {
        dimensions_rejection(bits, values.len())
    }
}

/// Why values and blindings are refused with a given generator set, if they
/// are: lists of different lengths first, then no value at all, then a
/// value that does not fit, and last a number of values other than the set
/// was built for.
pub open spec fn prove_rejection_with(
    generators: Generators,
    values: Seq<u64>,
    blindings: nat,
) -> Option<Error> {
    if values.len() != blindings {
        Some(Error::DimensionMismatch)
    } else if values.len() == 0 {
        Some(Error::EmptyInputError)
    } else if !all_fit_in_bits(values, generators.bits()) {
        Some(Error::InvalidRangeError)
    } else if values.len() != generators.parties() {
        Some(Error::DimensionMismatch)
    } else {
        None
    }
}

/// Why proof bytes are of no use for `count` values of `bits` bits each, if
/// they are not: bytes that cannot be read back as a proof, or a proof of
/// the wrong size for the statement.
pub open spec fn unusable_proof(proof: Seq<u8>, bits: usize, count: nat) -> Option<ProofFailure> {
    if !is_well_formed_proof(proof) {
        Some(ProofFailure::Format)
    } else if !proof_fits(proof.len(), bits, count) {
        Some(ProofFailure::Verification)
    } else {
        None
    }
}

/// What verification answers without any cryptographic work, where the
/// bytes alone decide: malformed proof bytes are an error; dimensions that
/// no generator set serves, a proof of the wrong size for the statement, or
/// a commitment that encodes no group element, cannot verify.
pub open spec fn verify_refusal(proof: Seq<u8>, commitments: Seq<Seq<u8>>, bits: usize) -> Option<
    Result<bool, Error>,
> {
    if !is_well_formed_proof(proof) {
        Some(Err(Error::ProofDeserializationError))
    } else if dimensions_rejection(bits, commitments.len()) is Some {
        Some(Ok(false))
    } else if !proof_fits(proof.len(), bits, commitments.len()) {
        Some(Ok(false))
    } else if !all_point_encodings(commitments) {
        Some(Ok(false))
    } else {
        None
    }
}

/// What verification with a given generator set answers without any
/// cryptographic work: malformed proof bytes are an error; a number of
/// commitments other than the set was built for, a proof of the wrong size
/// for the statement, or a commitment that encodes no group element, cannot
/// verify.
pub open spec fn verify_refusal_with(
    generators: Generators,
    proof: Seq<u8>,
    commitments: Seq<Seq<u8>>,
) -> Option<Result<bool, Error>> {
    if !is_well_formed_proof(proof) {
        Some(Err(Error::ProofDeserializationError))
    } else if commitments.len() != generators.parties() {
        Some(Ok(false))
    } else if !proof_fits(proof.len(), generators.bits(), commitments.len()) {
        Some(Ok(false))
    } else if !all_point_encodings(commitments) {
        Some(Ok(false))
    } else {
        None
    }
}

/// Calls `BulletproofGens::new`: generators for `party_capacity` parties,
/// `gens_capacity` for each. The call allocates all of them, so their
/// number is kept within what one proof can use.
#[verifier::external_body]
fn new_generators(gens_capacity: usize, party_capacity: usize) -> BulletproofGens
    requires
        gens_capacity * party_capacity <= MAX_STATEMENT_BITS,
{
    BulletproofGens::new(gens_capacity, party_capacity)
}

/// Calls `Transcript::new` with the bytes of `label` as domain separator.
#[verifier::external_body]
fn new_transcript(label: &'static str) -> Transcript {
    Transcript::new(label.as_bytes())
}

/// Calls `RangeProof::from_bytes`, which accepts exactly the byte strings
/// that are a whole number of 32-byte elements, at least nine and an odd
/// number of them, with fewer than 32 pairs after the first seven, and a
/// canonical scalar in elements 4, 5, 6 and in the last two.
#[verifier::external_body]
fn parse_proof(bytes: &[u8]) -> (r: Option<RangeProof>)
    ensures
        r is Some <==> is_well_formed_proof(bytes@),
{
    RangeProof::from_bytes(bytes).ok()
}

/// Calls `RangeProof::to_bytes`.
#[verifier::external_body]
fn serialize_proof(proof: &RangeProof) -> Vec<u8> {
    proof.to_bytes()
}

/// Tells the variants of the outside crate's `ProofError` apart.
#[verifier::external_body]
fn failure_kind(error: &ProofError) -> ProofFailure {
    match error {
        ProofError::VerificationError => ProofFailure::Verification,
        ProofError::FormatError => ProofFailure::Format,
        ProofError::WrongNumBlindingFactors => ProofFailure::WrongNumBlindingFactors,
        ProofError::InvalidBitsize => ProofFailure::InvalidBitsize,
        ProofError::InvalidAggregation => ProofFailure::InvalidAggregation,
        ProofError::InvalidGeneratorsLength => ProofFailure::InvalidGeneratorsLength,
        ProofError::ProvingError(_) => ProofFailure::Proving,
    }
}

/// Calls `RangeProof::prove_single` with the default Pedersen generators.
/// Whether it succeeds, and the proof it makes, depend on the randomness it
/// draws; the commitment it hands back with a proof is the one to `value`
/// under `blinding`.
#[verifier::external_body]
fn outside_prove_single(
    generators: &BulletproofGens,
    transcript: &mut Transcript,
    value: u64,
    blinding: &[u8; 32],
    bits: usize,
) -> (r: Result<(RangeProof, [u8; 32]), ProofError>)
    requires
        le_value(blinding@) < group_order(),
    ensures
        r matches Ok((_, commitment)) ==> commitment@ == pedersen_point(
            value as nat,
            le_value(blinding@),
        ),
{
    let b = curve25519_dalek_ng::scalar::Scalar::from_bytes_mod_order(*blinding);
    RangeProof::prove_single(generators, &PedersenGens::default(), transcript, value, &b, bits)
        .map(|(proof, commitment)| (proof, commitment.to_bytes()))
}

/// Calls `RangeProof::prove_multiple` with the default Pedersen generators.
/// Whether it succeeds, and the proof it makes, depend on the randomness it
/// draws; the commitments it hands back with a proof are, in order, those to
/// each value under the blinding at the same position.
#[verifier::external_body]
fn outside_prove_multiple(
    generators: &BulletproofGens,
    transcript: &mut Transcript,
    values: &Vec<u64>,
    blindings: &Vec<[u8; 32]>,
    bits: usize,
) -> (r: Result<(RangeProof, Vec<[u8; 32]>), ProofError>)
    requires
        values@.len() == blindings@.len(),
        forall|i: int|
            0 <= i < blindings@.len() ==> le_value(#[trigger] blindings@[i]@) < group_order(),
    ensures
        r matches Ok((_, commitments)) ==> {
            &&& commitments@.len() == values@.len()
            &&& forall|i: int|
                0 <= i < values@.len() ==> (#[trigger] commitments@[i])@ == pedersen_point(
                    values@[i] as nat,
                    le_value(blindings@[i]@),
                )
        },
{
    let b: Vec<curve25519_dalek_ng::scalar::Scalar> = blindings.iter().map(
        |x| curve25519_dalek_ng::scalar::Scalar::from_bytes_mod_order(*x),
    ).collect();
    RangeProof::prove_multiple(generators, &PedersenGens::default(), transcript, values, &b, bits)
        .map(|(proof, commitments)| (proof, commitments.iter().map(|c| c.to_bytes()).collect()))
}

/// Calls `RangeProof::verify_single` with the default Pedersen generators.
/// The verifier draws randomness of its own, so nothing is said of its
/// answer.
#[verifier::external_body]
fn outside_verify_single(
    proof: &RangeProof,
    generators: &BulletproofGens,
    transcript: &mut Transcript,
    commitment: &[u8; 32],
    bits: usize,
) -> Result<(), ProofError> {
    let v = curve25519_dalek_ng::ristretto::CompressedRistretto(*commitment);
    proof.verify_single(generators, &PedersenGens::default(), transcript, &v, bits)
}

/// Calls `RangeProof::verify_multiple` with the default Pedersen generators.
/// The verifier draws randomness of its own, so nothing is said of its
/// answer.
#[verifier::external_body]
fn outside_verify_multiple(
    proof: &RangeProof,
    generators: &BulletproofGens,
    transcript: &mut Transcript,
    commitments: &Vec<[u8; 32]>,
    bits: usize,
) -> Result<(), ProofError> {
    let v: Vec<curve25519_dalek_ng::ristretto::CompressedRistretto> = commitments.iter().map(
        |c| curve25519_dalek_ng::ristretto::CompressedRistretto(*c),
    ).collect();
    proof.verify_multiple(generators, &PedersenGens::default(), transcript, &v, bits)
}

/// The label every transcript starts from: prover and verifier must agree on it.
pub fn transcript_label() -> (label: &'static str)
    ensures
        label@ == transcript_label_text(),
{
    "zkrp"
}

/// The failure reported for a failure of the outside crate.
pub fn failure_to_error(failure: ProofFailure) -> (e: Error)
    ensures
        e == error_of(failure),
{
    match failure {
        ProofFailure::Verification => Error::InvalidRangeError,
        ProofFailure::Format => Error::ProofDeserializationError,
        ProofFailure::WrongNumBlindingFactors => Error::DimensionMismatch,
        ProofFailure::InvalidBitsize => Error::InvalidRangeError,
        ProofFailure::InvalidAggregation => Error::DimensionMismatch,
        ProofFailure::InvalidGeneratorsLength => Error::DimensionMismatch,
        ProofFailure::Proving => Error::InvalidRangeError,
    }
}

/// Whether a range of `bits` bits can be proved.
pub fn is_supported_bitsize(bits: usize) -> (supported: bool)
    ensures
        supported == supported_bitsize(bits),
{
    bits == 8 || bits == 16 || bits == 32 || bits == 64
}

/// Whether `value` lies in `[0, 2^bits)`.
pub fn value_fits(value: u64, bits: usize) -> (fits: bool)
    ensures
        fits == fits_in_bits(value, bits),
{
    proof {
        lemma2_to64();
    }
    if bits >= 64 {
        proof {
            if bits > 64 {
                lemma_pow2_strictly_increases(64, bits as nat);
            }
        }
        return true;
    }
    let mut limit: u64 = 1;
    let mut k: usize = 0;
    while k < bits
        invariant
            k <= bits < 64,
            limit == pow2(k as nat),
            pow2(64) == 0x1_0000_0000_0000_0000,
        decreases bits - k,
    {
        proof {
            lemma_pow2_unfold((k + 1) as nat);
            if k + 1 < 64 {
                lemma_pow2_strictly_increases((k + 1) as nat, 64);
            }
        }
        limit = limit * 2;
        k += 1;
    }
    value < limit
}

/// Whether every value lies in `[0, 2^bits)`.
pub fn all_values_fit(values: &Vec<u64>, bits: usize) -> (fit: bool)
    ensures
        fit == all_fit_in_bits(values@, bits),
{
    let mut i: usize = 0;
    while i < values.len()
        invariant
            i <= values.len(),
            forall|j: int| 0 <= j < i ==> fits_in_bits(#[trigger] values@[j], bits),
        decreases values.len() - i,
    {
        if !value_fits(values[i], bits) {
            return false;
        }
        i += 1;
    }
    true
}

/// Whether `count` is a power of two.
pub fn count_is_power_of_two(count: usize) -> (yes: bool)
    ensures
        yes == is_power_of_two(count as nat),
{
    let mut power: usize = 1;
    let ghost mut k: nat = 0;
    proof {
        lemma2_to64();
    }
    while power < count
        invariant
            power >= 1,
            power == pow2(k),
            k == 0 || pow2((k - 1) as nat) < count,
        decreases usize::MAX - power,
    {
        proof {
            lemma_pow2_unfold(k + 1);
        }
        if power > usize::MAX / 2 {
            proof {
                lemma_not_power_of_two(count as nat, k);
            }
            return false;
        }
        power = power * 2;
        proof {
            k = k + 1;
        }
    }
    if power == count {
        true
    } else {
        proof {
            if k == 0 {
                assert forall|j: nat| count != pow2(j) by {
                    lemma_pow2_pos(j);
                }
            } else {
                lemma_pow2_unfold(k);
                lemma_not_power_of_two(count as nat, (k - 1) as nat);
            }
        }
        false
    }
}

/// Why no generator set serves `count` values of `bits` bits each, if none
/// does.
pub fn check_dimensions(bits: usize, count: usize) -> (refusal: Option<Error>)
    ensures
        refusal == dimensions_rejection(bits, count as nat),
{
    if !count_is_power_of_two(count) {
        return Some(Error::DimensionMismatch);
    }
    if !is_supported_bitsize(bits) {
        return Some(Error::InvalidRangeError);
    }
    assert(bits * count <= 0x40 * 0xffff_ffff_ffff_ffff) by (nonlinear_arith)
        requires
            bits <= 64,
            count <= 0xffff_ffff_ffff_ffff,
    ;
    if (bits as u128) * (count as u128) > MAX_STATEMENT_BITS as u128 {
        return Some(Error::DimensionMismatch);
    }
    None
}

/// Whether a proof of `len` bytes has the size of a proof for `count`
/// values of `bits` bits each.
pub fn proof_has_size_for(len: usize, bits: usize, count: usize) -> (fits: bool)
    ensures
        fits == proof_fits(len as nat, bits, count as nat),
{
    if !is_supported_bitsize(bits) || len < 288 {
        return false;
    }
    let rounds = (len / 32 - 9) / 2;
    assert(bits * count <= 0x40 * 0xffff_ffff_ffff_ffff) by (nonlinear_arith)
        requires
            bits <= 64,
            count <= 0xffff_ffff_ffff_ffff,
    ;
    let wanted: u128 = (bits as u128) * (count as u128);
    proof {
        lemma2_to64();
        lemma_pow2_adds(64, 6);
    }
    if rounds >= 70 {
        proof {
            if rounds > 70 {
                lemma_pow2_strictly_increases(70, rounds as nat);
            }
        }
        return false;
    }
    let mut size: u128 = 1;
    let mut k: usize = 0;
    while k < rounds
        invariant
            k <= rounds < 70,
            size == pow2(k as nat),
            pow2(70) == 0x1_0000_0000_0000_0000 * 0x40,
        decreases rounds - k,
    {
        proof {
            lemma_pow2_unfold((k + 1) as nat);
            lemma_pow2_strictly_increases((k + 1) as nat, 71);
            lemma_pow2_unfold(71);
        }
        size = size * 2;
        k += 1;
    }
    wanted == size
}

/// Whether every string of the list encodes a group element.
pub fn all_decode(list: &Vec<[u8; 32]>) -> (yes: bool)
    ensures
        yes == all_point_encodings(byte_strings(list@)),
{
    let mut i: usize = 0;
    while i < list.len()
        invariant
            i <= list.len(),
            forall|j: int| 0 <= j < i ==> is_point_encoding(#[trigger] byte_strings(list@)[j]),
        decreases list.len() - i,
    {
        if point_decompress(&list[i]).is_err() {
            assert(!is_point_encoding(byte_strings(list@)[i as int]));
            return false;
        }
        assert(byte_strings(list@)[i as int] == list@[i as int]@);
        i += 1;
    }
    true
}

/// Whether the bytes can be read as a range proof.
pub fn is_well_formed(proof: &Vec<u8>) -> (yes: bool)
    ensures
        yes == is_well_formed_proof(proof@),
{
    parse_proof(proof.as_slice()).is_some()
}

/// Why values and blindings are refused before any proving, if they are.
pub fn check_statement(values: &Vec<u64>, blindings: usize, bits: usize) -> (refusal: Option<Error>)
    ensures
        refusal == prove_rejection(values@, blindings as nat, bits),
{
    if values.len() != blindings {
        return Some(Error::DimensionMismatch);
    }
    if values.len() == 0 {
        return Some(Error::EmptyInputError);
    }
    if !all_values_fit(values, bits) {
        return Some(Error::InvalidRangeError);
    }
    check_dimensions(bits, values.len())
}

/// Why proof bytes are of no use for `count` values of `bits` bits each, if
/// they are not.
pub fn check_made_proof(proof: &Vec<u8>, bits: usize, count: usize) -> (failure: Option<
    ProofFailure,
>)
    ensures
        failure == unusable_proof(proof@, bits, count as nat),
{
    if !is_well_formed(proof) {
        return Some(ProofFailure::Format);
    }
    if !proof_has_size_for(proof.len(), bits, count) {
        return Some(ProofFailure::Verification);
    }
    None
}

/// What verification answers without any cryptographic work, where the
/// bytes alone decide.
pub fn check_proof(proof: &Vec<u8>, commitments: &Vec<[u8; 32]>, bits: usize) -> (answer: Option<
    Result<bool, Error>,
>)
    ensures
        answer == verify_refusal(proof@, byte_strings(commitments@), bits),
{
    if !is_well_formed(proof) {
        return Some(Err(Error::ProofDeserializationError));
    }
    if check_dimensions(bits, commitments.len()).is_some() {
        return Some(Ok(false));
    }
    if !proof_has_size_for(proof.len(), bits, commitments.len()) {
        return Some(Ok(false));
    }
    if !all_decode(commitments) {
        return Some(Ok(false));
    }
    None
}

impl Generators {
    /// The bit width the set was built for.
    pub closed spec fn bits(&self) -> usize {
        self.bits
    }

    /// The number of values the set was built for.
    pub closed spec fn parties(&self) -> usize {
        self.parties
    }

    /// The set was built for dimensions that a generator set serves.
    pub open spec fn wf(&self) -> bool {
        dimensions_rejection(self.bits(), self.parties() as nat) is None
    }

    /// Builds the generator set for `parties` values of `bits` bits each.
    pub fn new(bits: usize, parties: usize) -> (r: Result<Generators, Error>)
        ensures
            match r {
                Ok(generators) => {
                    &&& dimensions_rejection(bits, parties as nat) is None
                    &&& generators.wf()
                    &&& generators.bits() == bits
                    &&& generators.parties() == parties
                },
                Err(e) => dimensions_rejection(bits, parties as nat) == Some(e),
            },
    {
        match check_dimensions(bits, parties) {
            Some(e) => Err(e),
            None => Ok(Generators { set: new_generators(bits, parties), bits, parties }),
        }
    }

    /// The bit width the set was built for.
    pub fn bit_width(&self) -> (bits: usize)
        ensures
            bits == self.bits(),
    {
        self.bits
    }

    /// The number of values the set was built for.
    pub fn party_count(&self) -> (parties: usize)
        ensures
            parties == self.parties(),
    {
        self.parties
    }
}

/// What is reported once the outside prover has answered. Its proof is
/// handed on, with the commitments and the blindings as they were given,
/// only if it can be read back and has the size of a proof for as many
/// values of `bits` bits each; otherwise, and for an error of the prover,
/// the failure that stands for it.
pub fn finish_proving(
    outcome: Result<(Vec<u8>, Vec<[u8; 32]>), ProofFailure>,
    blindings: Vec<[u8; 32]>,
    bits: usize,
) -> (r: Result<(Vec<u8>, Vec<[u8; 32]>, Vec<[u8; 32]>), Error>)
    ensures
        r == match outcome {
            Ok((proof, commitments)) => match unusable_proof(proof@, bits, commitments@.len()) {
                Some(failure) => Err(error_of(failure)),
                None => Ok::<(Vec<u8>, Vec<[u8; 32]>, Vec<[u8; 32]>), Error>(
                    (proof, commitments, blindings),
                ),
            },
            Err(failure) => Err(error_of(failure)),
        },
{
    match outcome {
        Ok((proof, commitments)) => match check_made_proof(&proof, bits, commitments.len()) {
            Some(failure) => Err(failure_to_error(failure)),
            None => Ok((proof, commitments, blindings)),
        },
        Err(failure) => Err(failure_to_error(failure)),
    }
}

/// Whether the outside verifier accepted.
pub fn verification_accepted(outcome: Result<(), ProofFailure>) -> (accepted: bool)
    ensures
        accepted == (outcome is Ok),
{
    match outcome {
        Ok(_) => true,
        Err(_) => false,
    }
}

/// The encodings of the scalars that the byte strings encode, each reduced
/// modulo the group order.
pub fn reduce_all(list: &Vec<[u8; 32]>) -> (reduced: Vec<[u8; 32]>)
    ensures
        reduced@.len() == list@.len(),
        forall|i: int|
            0 <= i < list@.len() ==> le_value(#[trigger] reduced@[i]@) == le_value(list@[i]@)
                % group_order(),
{
    let mut reduced: Vec<[u8; 32]> = Vec::new();
    let mut i: usize = 0;
    while i < list.len()
        invariant
            i <= list.len(),
            reduced@.len() == i,
            forall|j: int|
                0 <= j < i ==> le_value(#[trigger] reduced@[j]@) == le_value(list@[j]@)
                    % group_order(),
        decreases list.len() - i,
    {
        reduced.push(scalar_to_bytes(&scalar_from_bytes(list[i])));
        i += 1;
    }
    reduced
}

/// Proves, with a generator set built for one value, that `value` lies in
/// the set's range, and commits to it. The commitment is made under the
/// scalar that `blinding` encodes, reduced modulo the group order, or under
/// a freshly drawn scalar where none is given. Returns the proof, the
/// encoded commitment and the blinding: the bytes given, or the encoding of
/// the scalar drawn. No proof is returned that does not read back as a
/// proof of the size of its statement.
///
/// A value that does not fit is refused first, then a generator set built
/// for more than one value.
pub fn prove_single(generators: &Generators, value: u64, blinding: Option<[u8; 32]>) -> (r: Result<
    (Vec<u8>, [u8; 32], [u8; 32]),
    Error,
>)
    requires
        generators.wf(),
    ensures
        match r {
            Ok((proof, commitment, used)) => {
                &&& prove_rejection_with(*generators, seq![value], 1) is None
                &&& is_well_formed_proof(proof@)
                &&& proof_fits(proof@.len(), generators.bits(), 1)
                &&& blinding matches Some(given) ==> used == given
                &&& blinding is None ==> le_value(used@) < group_order()
                &&& commitment@ == pedersen_point(value as nat, le_value(used@) % group_order())
                &&& is_point_encoding(commitment@)
            },
            Err(e) => match prove_rejection_with(*generators, seq![value], 1) {
                Some(refusal) => e == refusal,
                None => exists|failure: ProofFailure| e == error_of(failure),
            },
        },
{
    if !value_fits(value, generators.bits) {
        assert(!fits_in_bits(seq![value][0], generators.bits()));
        return Err(Error::InvalidRangeError);
    }
    if generators.parties != 1 {
        return Err(Error::DimensionMismatch);
    }
    let used = match blinding {
        Some(given) => given,
        None => scalar_to_bytes(&scalar_random()),
    };
    let reduced = scalar_to_bytes(&scalar_from_bytes(used));
    let mut transcript = new_transcript(transcript_label());
    match outside_prove_single(&generators.set, &mut transcript, value, &reduced, generators.bits) {
        Ok((proof, commitment)) => {
            proof {
                lemma_u64_below_order(value);
                assert(opens_to(commitment@, value as nat, le_value(reduced@)));
            }
            let bytes = serialize_proof(&proof);
            match check_made_proof(&bytes, generators.bits, 1) {
                Some(failure) => Err(failure_to_error(failure)),
                None => Ok((bytes, commitment, used)),
            }
        },
        Err(e) => Err(failure_to_error(failure_kind(&e))),
    }
}

/// Proves jointly, with a generator set built for as many values, that
/// every value lies in the set's range, and commits to each under the
/// scalar that the blinding at the same position encodes, reduced modulo
/// the group order. Returns the proof, the encoded commitments and the
/// blindings as they were given. No proof is returned that does not read
/// back as a proof of the size of its statement.
///
/// Lists of different lengths are refused first, before any cryptographic
/// work; then empty lists, a value that does not fit, and a number of
/// values other than the set was built for.
pub fn prove_multiple(generators: &Generators, values: Vec<u64>, blindings: Vec<[u8; 32]>) -> (r:
    Result<(Vec<u8>, Vec<[u8; 32]>, Vec<[u8; 32]>), Error>)
    requires
        generators.wf(),
    ensures
        match r {
            Ok((proof, commitments, returned)) => {
                &&& prove_rejection_with(*generators, values@, blindings@.len()) is None
                &&& is_well_formed_proof(proof@)
                &&& proof_fits(proof@.len(), generators.bits(), values@.len())
                &&& returned == blindings
                &&& commitments@.len() == values@.len()
                &&& forall|i: int|
                    0 <= i < values@.len() ==> (#[trigger] commitments@[i])@ == pedersen_point(
                        values@[i] as nat,
                        le_value(blindings@[i]@) % group_order(),
                    )
                &&& all_point_encodings(byte_strings(commitments@))
            },
            Err(e) => match prove_rejection_with(*generators, values@, blindings@.len()) {
                Some(refusal) => e == refusal,
                None => exists|failure: ProofFailure| e == error_of(failure),
            },
        },
{
    if values.len() != blindings.len() {
        return Err(Error::DimensionMismatch);
    }
    if values.len() == 0 {
        return Err(Error::EmptyInputError);
    }
    if !all_values_fit(&values, generators.bits) {
        return Err(Error::InvalidRangeError);
    }
    if values.len() != generators.parties {
        return Err(Error::DimensionMismatch);
    }
    let reduced = reduce_all(&blindings);
    let mut transcript = new_transcript(transcript_label());
    let outcome = match outside_prove_multiple(
        &generators.set,
        &mut transcript,
        &values,
        &reduced,
        generators.bits,
    ) {
        Ok((proof, commitments)) => {
            proof {
                assert forall|i: int| 0 <= i < commitments@.len() implies is_point_encoding(
                    #[trigger] byte_strings(commitments@)[i],
                ) by {
                    lemma_u64_below_order(values@[i]);
                    assert(opens_to(
                        commitments@[i]@,
                        values@[i] as nat,
                        le_value(reduced@[i]@),
                    ));
                }
            }
            Ok((serialize_proof(&proof), commitments))
        },
        Err(e) => Err(failure_kind(&e)),
    };
    finish_proving(outcome, blindings, generators.bits)
}

/// Checks, with a generator set built for one value, a proof that the
/// value behind the encoded `commitment` lies in the set's range.
/// Malformed proof bytes are an error; a proof that does not hold is
/// answered with `false`.
pub fn verify_single(generators: &Generators, proof: &Vec<u8>, commitment: &[u8; 32]) -> (r: Result<
    bool,
    Error,
>)
    requires
        generators.wf(),
    ensures
        match verify_refusal_with(*generators, proof@, seq![commitment@]) {
            Some(answer) => r == answer,
            None => r is Ok,
        },
{
    let parsed = match parse_proof(proof.as_slice()) {
        Some(parsed) => parsed,
        None => {
            return Err(Error::ProofDeserializationError);
        },
    };
    if generators.parties != 1 {
        return Ok(false);
    }
    if !proof_has_size_for(proof.len(), generators.bits, 1) {
        return Ok(false);
    }
    if point_decompress(commitment).is_err() {
        assert(!is_point_encoding(seq![commitment@][0]));
        return Ok(false);
    }
    let mut transcript = new_transcript(transcript_label());
    let outcome = match outside_verify_single(
        &parsed,
        &generators.set,
        &mut transcript,
        commitment,
        generators.bits,
    ) {
        Ok(_) => Ok(()),
        Err(e) => Err(failure_kind(&e)),
    };
    Ok(verification_accepted(outcome))
}

/// Checks, with a generator set built for as many values, a joint proof
/// that the values behind the encoded `commitments` all lie in the set's
/// range. Malformed proof bytes are an error; a proof that does not hold,
/// or whose size does not match the generator set, is answered with
/// `false`.
pub fn verify_multiple(generators: &Generators, proof: &Vec<u8>, commitments: &Vec<[u8; 32]>) -> (r:
    Result<bool, Error>)
    requires
        generators.wf(),
    ensures
        match verify_refusal_with(*generators, proof@, byte_strings(commitments@)) {
            Some(answer) => r == answer,
            None => r is Ok,
        },
{
    let parsed = match parse_proof(proof.as_slice()) {
        Some(parsed) => parsed,
        None => {
            return Err(Error::ProofDeserializationError);
        },
    };
    if commitments.len() != generators.parties {
        return Ok(false);
    }
    if !proof_has_size_for(proof.len(), generators.bits, commitments.len()) {
        return Ok(false);
    }
    if !all_decode(commitments) {
        return Ok(false);
    }
    let mut transcript = new_transcript(transcript_label());
    let outcome = match outside_verify_multiple(
        &parsed,
        &generators.set,
        &mut transcript,
        commitments,
        generators.bits,
    ) {
        Ok(_) => Ok(()),
        Err(e) => Err(failure_kind(&e)),
    };
    Ok(verification_accepted(outcome))
}

/// Proves that `value` lies in `[0, 2^bits)` under a freshly drawn
/// blinding. Returns the proof, the encoded commitment and the encoded
/// blinding.
///
/// A value that does not fit, or a width for which no proof exists, is
/// refused before anything is drawn or computed.
pub fn zkrp_prove(value: u64, bits: usize) -> (r: Result<(Vec<u8>, [u8; 32], [u8; 32]), Error>)
    ensures
        match r {
            Ok((proof, commitment, blinding)) => {
                &&& supported_bitsize(bits) && fits_in_bits(value, bits)
                &&& is_well_formed_proof(proof@)
                &&& proof_fits(proof@.len(), bits, 1)
                &&& opens_to(commitment@, value as nat, le_value(blinding@))
            },
            Err(e) => if supported_bitsize(bits) && fits_in_bits(value, bits) {
                exists|failure: ProofFailure| e == error_of(failure)
            } else {
                e == Error::InvalidRangeError
            },
        },
{
    prove_one(value, None, bits)
}

/// Proves that `value` lies in `[0, 2^bits)` under the blinding that
/// `blinding` encodes, reduced modulo the group order. Returns the proof,
/// the encoded commitment and the blinding bytes as they were given.
///
/// A value that does not fit, or a width for which no proof exists, is
/// refused before anything is computed.
pub fn zkrp_prove_single(value: u64, blinding: [u8; 32], bits: usize) -> (r: Result<
    (Vec<u8>, [u8; 32], [u8; 32]),
    Error,
>)
    ensures
        match r {
            Ok((proof, commitment, returned)) => {
                &&& supported_bitsize(bits) && fits_in_bits(value, bits)
                &&& is_well_formed_proof(proof@)
                &&& proof_fits(proof@.len(), bits, 1)
                &&& returned == blinding
                &&& commitment@ == pedersen_point(
                    value as nat,
                    le_value(blinding@) % group_order(),
                )
            },
            Err(e) => if supported_bitsize(bits) && fits_in_bits(value, bits) {
                exists|failure: ProofFailure| e == error_of(failure)
            } else {
                e == Error::InvalidRangeError
            },
        },
{
    prove_one(value, Some(blinding), bits)
}

/// Builds the generator set for one value of `bits` bits and proves with it.
fn prove_one(value: u64, blinding: Option<[u8; 32]>, bits: usize) -> (r: Result<
    (Vec<u8>, [u8; 32], [u8; 32]),
    Error,
>)
    ensures
        match r {
            Ok((proof, commitment, used)) => {
                &&& supported_bitsize(bits) && fits_in_bits(value, bits)
                &&& is_well_formed_proof(proof@)
                &&& proof_fits(proof@.len(), bits, 1)
                &&& blinding matches Some(given) ==> used == given
                &&& blinding is None ==> le_value(used@) < group_order()
                &&& commitment@ == pedersen_point(value as nat, le_value(used@) % group_order())
            },
            Err(e) => if supported_bitsize(bits) && fits_in_bits(value, bits) {
                exists|failure: ProofFailure| e == error_of(failure)
            } else {
                e == Error::InvalidRangeError
            },
        },
{
    proof {
        lemma2_to64();
        assert(is_power_of_two(1)) by {
            assert(1 == pow2(0));
        }
        assert(seq![value][0] == value);
    }
    if !value_fits(value, bits) {
        return Err(Error::InvalidRangeError);
    }
    if !is_supported_bitsize(bits) {
        return Err(Error::InvalidRangeError);
    }
    let generators = match Generators::new(bits, 1) {
        Ok(generators) => generators,
        Err(e) => {
            return Err(e);
        },
    };
    prove_single(&generators, value, blinding)
}

/// Proves jointly that every value lies in `[0, 2^bits)`, each under the
/// blinding that the bytes at the same position encode, reduced modulo the
/// group order. Returns the proof, the encoded commitments and the blinding
/// bytes as they were given.
///
/// Lists of different lengths are refused first, before any cryptographic
/// work; then empty lists, a value that does not fit, and dimensions that
/// no generator set serves.
pub fn zkrp_prove_multiple(values: Vec<u64>, blindings: Vec<[u8; 32]>, bits: usize) -> (r: Result<
    (Vec<u8>, Vec<[u8; 32]>, Vec<[u8; 32]>),
    Error,
>)
    ensures
        match r {
            Ok((proof, commitments, returned)) => {
                &&& prove_rejection(values@, blindings@.len(), bits) is None
                &&& is_well_formed_proof(proof@)
                &&& proof_fits(proof@.len(), bits, values@.len())
                &&& returned == blindings
                &&& commitments@.len() == values@.len()
                &&& forall|i: int|
                    0 <= i < values@.len() ==> (#[trigger] commitments@[i])@ == pedersen_point(
                        values@[i] as nat,
                        le_value(blindings@[i]@) % group_order(),
                    )
            },
            Err(e) => match prove_rejection(values@, blindings@.len(), bits) {
                Some(refusal) => e == refusal,
                None => exists|failure: ProofFailure| e == error_of(failure),
            },
        },
{
    match check_statement(&values, blindings.len(), bits) {
        Some(e) => {
            return Err(e);
        },
        None => {},
    }
    let generators = match Generators::new(bits, values.len()) {
        Ok(generators) => generators,
        Err(e) => {
            return Err(e);
        },
    };
    prove_multiple(&generators, values, blindings)
}

/// Checks a proof that the value behind the encoded `commitment` lies in
/// `[0, 2^bits)`. Malformed proof bytes are an error; a proof that does not
/// hold is answered with `false`.
pub fn zkrp_verify_single(proof: Vec<u8>, commitment: [u8; 32], bits: usize) -> (r: Result<
    bool,
    Error,
>)
    ensures
        match verify_refusal(proof@, seq![commitment@], bits) {
            Some(answer) => r == answer,
            None => r is Ok,
        },
{
    let commitments = vec![commitment];
    assert(byte_strings(commitments@) =~= seq![commitment@]);
    match check_proof(&proof, &commitments, bits) {
        Some(answer) => {
            return answer;
        },
        None => {},
    }
    match Generators::new(bits, 1) {
        Ok(generators) => verify_single(&generators, &proof, &commitment),
        Err(_) => Ok(false),
    }
}

/// Checks a joint proof that the values behind the encoded `commitments`
/// all lie in `[0, 2^bits)`. Malformed proof bytes are an error; a proof
/// that does not hold, or whose size does not match the number of
/// commitments, is answered with `false`.
pub fn zkrp_verify_multiple(proof: Vec<u8>, commitments: Vec<[u8; 32]>, bits: usize) -> (r: Result<
    bool,
    Error,
>)
    ensures
        match verify_refusal(proof@, byte_strings(commitments@), bits) {
            Some(answer) => r == answer,
            None => r is Ok,
        },
{
    match check_proof(&proof, &commitments, bits) {
        Some(answer) => {
            return answer;
        },
        None => {},
    }
    match Generators::new(bits, commitments.len()) {
        Ok(generators) => verify_multiple(&generators, &proof, &commitments),
        Err(_) => Ok(false),
    }
}

/// A batch with a value that does not fit is refused as an invalid range,
/// whatever the size of the batch and whatever the width, as long as there
/// are as many blindings as values.
pub proof fn law_value_out_of_range_is_refused(values: Seq<u64>, bits: usize, i: int)
    requires
        0 <= i < values.len(),
        !fits_in_bits(values[i], bits),
    ensures
        prove_rejection(values, values.len(), bits) == Some(Error::InvalidRangeError),
{
}

/// Lists of values and blindings of different lengths are refused as a
/// dimension mismatch, whatever they hold.
pub proof fn law_length_mismatch_is_refused(values: Seq<u64>, blindings: nat, bits: usize)
    requires
        values.len() != blindings,
    ensures
        prove_rejection(values, blindings, bits) == Some(Error::DimensionMismatch),
{
}

/// Bytes that cannot be read as a proof are an error to verify, whatever
/// the commitments and the width.
pub proof fn law_malformed_proof_is_an_error(
    proof: Seq<u8>,
    commitments: Seq<Seq<u8>>,
    bits: usize,
)
    requires
        !is_well_formed_proof(proof),
    ensures
        verify_refusal(proof, commitments, bits) == Some(
            Err::<bool, Error>(Error::ProofDeserializationError),
        ),
{
}

/// A well-formed proof does not verify against commitments one of which
/// encodes no group element.
pub proof fn law_invalid_commitment_does_not_verify(
    proof: Seq<u8>,
    commitments: Seq<Seq<u8>>,
    bits: usize,
    i: int,
)
    requires
        is_well_formed_proof(proof),
        0 <= i < commitments.len(),
        !is_point_encoding(commitments[i]),
    ensures
        verify_refusal(proof, commitments, bits) == Some(Ok::<bool, Error>(false)),
{
}

/// Every 64-bit integer is below the group order.
pub proof fn lemma_u64_below_order(value: u64)
    ensures
        (value as nat) < group_order(),
{
}

/// A number strictly between two neighbouring powers of two is not one.
pub proof fn lemma_not_power_of_two(count: nat, k: nat)
    requires
        pow2(k) < count < pow2(k + 1),
    ensures
        !is_power_of_two(count),
{
    assert forall|j: nat| count != pow2(j) by {
        if j < k {
            lemma_pow2_strictly_increases(j, k);
        } else if j > k + 1 {
            lemma_pow2_strictly_increases(k + 1, j);
        }
    }
}

} // verus!
