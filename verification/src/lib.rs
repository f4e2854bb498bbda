//! Pedersen commitments over ristretto255 for threshold secret sharing:
//! commitment algebra, Lagrange reconstruction at zero, and Bulletproofs
//! range proofs bound to those commitments.
//!
//! Scalars and points are handled by their canonical 32-byte encodings.
//! Every contract is stated over the integer a scalar encodes and over the
//! openings `(value, blinding)` of a commitment.

pub mod bytes;
pub mod errors;
pub mod field;
pub mod group;
pub mod interpolation;
pub mod lagrange;
pub mod pedersen;
pub mod rangeproof;

pub use crate::bytes::read32;
pub use crate::errors::Error;
pub use crate::lagrange::lagrange_coefficient;
