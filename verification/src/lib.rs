//! Arithmetic for the BN254 (alt_bn128) pairing-friendly elliptic curve:
//! fixed-width big integers, the base and scalar prime fields, the extension
//! tower Fq -> Fq2 -> Fq6 -> Fq12, the groups G1 and G2 in Jacobian
//! coordinates, and the optimal ate pairing into Gt.

pub mod arith;
pub mod fields;
pub mod fq2;
pub mod fq6;
pub mod fq12;
pub mod groups;
pub mod pairing;
pub mod ethereum;

use vstd::prelude::*;

pub use fields::{Fr, Fq, FieldError};
pub use fq2::Fq2;
pub use groups::{G1, AffineG1, G2, AffineG2, Group, GroupError};
pub use pairing::{Gt, pairing, pairing_batch, miller_loop_batch};

verus! {

/// Failures of point decoding and conversion.
#[derive(Clone, Copy, PartialEq, Eq, Structural, Debug)]
pub enum CurveError {
    InvalidEncoding,
    NotMember,
    Field(FieldError),
    ToAffineConversion,
}

impl From<FieldError> for CurveError {
    fn from(fe: FieldError) -> (r: Self) {
        CurveError::Field(fe)
    }
}

impl vstd::std_specs::convert::FromSpecImpl<FieldError> for CurveError {
    open spec fn obeys_from_spec() -> bool {
        true
    }

    open spec fn from_spec(fe: FieldError) -> Self {
        CurveError::Field(fe)
    }
}

} // verus!
