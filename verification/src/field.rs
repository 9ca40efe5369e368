//! Scalars of BLS12-381: integers modulo the prime order of the groups.

use ark_ff::{Field, PrimeField, UniformRand};
use ark_serialize::CanonicalSerialize;
use vstd::prelude::*;

verus! {

/// The order of the BLS12-381 groups, which is the modulus of the scalar field.
pub open spec fn scalar_modulus() -> nat {
    52435875175126190479447740508185965837690552500527637822603658699938581184513nat
}

/// Little-endian value of a byte string.
pub open spec fn le_value(bytes: Seq<u8>) -> nat
    decreases bytes.len(),
{
    if bytes.len() == 0 {
        0
    } else {
        bytes[0] as nat + 256 * le_value(bytes.drop_first())
    }
}

/// An element of the scalar field, held as a 32-byte little-endian integer that stands
/// for its residue modulo the group order. The arithmetic below always returns the
/// canonical (fully reduced) encoding, which is the one arkworks serializes.
#[derive(Clone, Copy, Debug, PartialEq, Eq, Hash)]
pub struct Scalar {
    pub bytes: [u8; 32],
}

impl View for Scalar {
    type V = nat;

    open spec fn view(&self) -> nat {
        le_value(self.bytes@) % scalar_modulus()
    }
}

impl Scalar {
    /// The encoding is canonical: its integer is already below the modulus.
    pub open spec fn is_canonical(&self) -> bool {
        le_value(self.bytes@) < scalar_modulus()
    }
}

/// Bytes that are all zero stand for zero.
proof fn lemma_le_value_zeros(s: Seq<u8>)
    requires
        forall|i: int| 0 <= i < s.len() ==> s[i] == 0,
    ensures
        le_value(s) == 0,
    decreases s.len(),
{
    if s.len() > 0 {
        lemma_le_value_zeros(s.drop_first());
    }
}

impl Scalar {
    /// The scalar zero.
    pub fn zero() -> (res: Scalar)
        ensures
            res@ == 0,
            res.is_canonical(),
    {
        let bytes = [0u8; 32];
        proof {
            lemma_le_value_zeros(bytes@);
        }
        Scalar { bytes }
    }

    /// The scalar one.
    pub fn one() -> (res: Scalar)
        ensures
            res@ == 1,
            res.is_canonical(),
    {
        let mut bytes = [0u8; 32];
        bytes[0] = 1;
        proof {
            lemma_le_value_zeros(bytes@.drop_first());
        }
        Scalar { bytes }
    }
}

/// The random number generator the library draws its randomness from.
#[verifier::external_type_specification]
#[verifier::external_body]
pub struct ExStdRng(rand::rngs::StdRng);

/// `Fr::rand(rng)`: a uniformly random scalar. Nothing is claimed of its value but that
/// its encoding is canonical.
#[verifier::external_body]
pub(crate) fn random_scalar(rng: &mut rand::rngs::StdRng) -> (res: Scalar)
    ensures
        res.is_canonical(),
{
    let v = ark_bls12_381::Fr::rand(rng);
    let mut bytes = [0u8; 32];
    v.serialize_compressed(&mut bytes[..]).unwrap();
    Scalar { bytes }
}

/// `a - b` in `Fr`.
#[verifier::external_body]
pub(crate) fn fr_sub(a: &Scalar, b: &Scalar) -> (res: Scalar)
    ensures
        res@ == (a@ + scalar_modulus() - b@) % scalar_modulus() as int,
        res.is_canonical(),
{
    let x = ark_bls12_381::Fr::from_le_bytes_mod_order(&a.bytes);
    let y = ark_bls12_381::Fr::from_le_bytes_mod_order(&b.bytes);
    let mut bytes = [0u8; 32];
    (x - y).serialize_compressed(&mut bytes[..]).unwrap();
    Scalar { bytes }
}

/// `a * b` in `Fr`.
#[verifier::external_body]
pub(crate) fn fr_mul(a: &Scalar, b: &Scalar) -> (res: Scalar)
    ensures
        res@ == (a@ * b@) % scalar_modulus(),
        res.is_canonical(),
{
    let x = ark_bls12_381::Fr::from_le_bytes_mod_order(&a.bytes);
    let y = ark_bls12_381::Fr::from_le_bytes_mod_order(&b.bytes);
    let mut bytes = [0u8; 32];
    (x * y).serialize_compressed(&mut bytes[..]).unwrap();
    Scalar { bytes }
}

/// `i` is a residue whose product with `a` is one.
pub open spec fn is_inverse_of(a: nat, i: nat) -> bool {
    i < scalar_modulus() && (a * i) % scalar_modulus() == 1
}

/// The inverse of a residue: the residue whose product with it is one.
pub open spec fn scalar_inverse(a: nat) -> nat {
    choose|i: nat| #[trigger] is_inverse_of(a, i)
}

/// `a.inverse()` in `Fr`: none for zero, otherwise the scalar whose product with `a` is one.
#[verifier::external_body]
pub(crate) fn fr_inverse(a: &Scalar) -> (res: Option<Scalar>)
    ensures
        res is None <==> a@ == 0,
        res matches Some(i) ==> (a@ * i@) % scalar_modulus() == 1 && i@ == scalar_inverse(a@)
            && i.is_canonical(),
{
    let x = ark_bls12_381::Fr::from_le_bytes_mod_order(&a.bytes);
    match x.inverse() {
        Some(v) => {
            let mut bytes = [0u8; 32];
            v.serialize_compressed(&mut bytes[..]).unwrap();
            Some(Scalar { bytes })
        },
        None => None,
    }
}

/// `a == b` in `Fr`: equality of residues.
#[verifier::external_body]
pub(crate) fn fr_eq(a: &Scalar, b: &Scalar) -> (res: bool)
    ensures
        res == (a@ == b@),
{
    ark_bls12_381::Fr::from_le_bytes_mod_order(&a.bytes)
        == ark_bls12_381::Fr::from_le_bytes_mod_order(&b.bytes)
}

} // verus!
