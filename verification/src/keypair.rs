//! Validator keys.

use crate::field::Scalar;
use crate::group::G2Point;
use vstd::prelude::*;

verus! {

/// A validator's public key: `[dk] H`.
#[derive(Clone, Copy, Debug, PartialEq, Eq)]
pub struct PublicKey {
    pub encryption_key: G2Point,
}

/// A validator's key pair, of which the library reads the private scalar `dk`.
#[derive(Clone, Copy, Debug, PartialEq, Eq)]
pub struct Keypair {
    pub decryption_key: Scalar,
}

} // verus!
