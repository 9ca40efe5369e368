//! Points of the BLS12-381 groups and of the pairing target group.
//!
//! Every point is held as its canonical compressed encoding (48 bytes in G1, 96 in G2,
//! 576 for an element of the target field), which is what arkworks serializes. A value
//! of these types always holds an encoding that arkworks reads back.

use ark_ec::pairing::Pairing;
use ark_ec::{AffineRepr, CurveGroup};
use ark_ff::{Field, One, PrimeField};
use ark_serialize::{CanonicalDeserialize, CanonicalSerialize};
use crate::error::SerializationFailure;
use crate::field::{scalar_modulus, Scalar};
use vstd::prelude::*;

verus! {

/// Whether arkworks reads these bytes as a compressed point of G1 in the prime-order subgroup.
pub uninterp spec fn g1_decodes(bytes: Seq<u8>) -> bool;

/// Whether arkworks reads these bytes as a compressed point of G2 in the prime-order subgroup.
pub uninterp spec fn g2_decodes(bytes: Seq<u8>) -> bool;

/// The prime modulus of the base field `Fq` of BLS12-381.
pub open spec fn base_modulus() -> nat {
    4002409555221667393417789825735904156556882819939007885332058136124031650490837864442687629129015664037894272559787nat
}

/// The integer that the bytes encode, least significant byte first.
pub open spec fn le_value(bytes: Seq<u8>) -> nat
    decreases bytes.len(),
{
    if bytes.len() == 0 {
        0
    } else {
        bytes[0] as nat + 256 * le_value(bytes.drop_first())
    }
}

/// Whether arkworks reads these bytes as an element of the target field: twelve coordinates
/// in `Fq` of 48 bytes each, least significant byte first, each below the modulus.
pub open spec fn gt_decodes(bytes: Seq<u8>) -> bool {
    &&& bytes.len() == 576
    &&& forall|i: int|
        0 <= i < 12 ==> #[trigger] le_value(bytes.subrange(48 * i, 48 * i + 48)) < base_modulus()
}

/// The encoding of `[s] p` in G1, for a point encoding `p` and a reduced scalar `s`.
pub uninterp spec fn g1_mul_named(p: Seq<u8>, s: nat) -> Seq<u8>;

/// The encoding of `[s] p` in G2, for a point encoding `p` and a reduced scalar `s`.
pub uninterp spec fn g2_mul_named(p: Seq<u8>, s: nat) -> Seq<u8>;

/// The encoding of the pairing `e(p, q)`.
pub uninterp spec fn pairing_named(p: Seq<u8>, q: Seq<u8>) -> Seq<u8>;

/// The encoding of the product of two target-field elements.
pub uninterp spec fn gt_mul_named(a: Seq<u8>, b: Seq<u8>) -> Seq<u8>;

/// The encoding of `a` raised to the integer `e`: one, multiplied by `a` `e` times.
pub open spec fn gt_power(a: Seq<u8>, e: nat) -> Seq<u8>
    decreases e,
{
    if e == 0 {
        gt_one_bytes()
    } else {
        gt_mul_named(gt_power(a, (e - 1) as nat), a)
    }
}

/// `[s] p` in G1; multiplying by one leaves the point as it is.
pub open spec fn g1_smul(p: Seq<u8>, s: nat) -> Seq<u8> {
    if s == 1 { p } else { g1_mul_named(p, s) }
}

/// `[s] p` in G2; multiplying by one leaves the point as it is.
pub open spec fn g2_smul(p: Seq<u8>, s: nat) -> Seq<u8> {
    if s == 1 { p } else { g2_mul_named(p, s) }
}

/// The encoding of `e([c] G, H)`, `G` and `H` the standard generators: every element of the
/// target group that the scheme computes has this form.
pub open spec fn target_exp(c: nat) -> Seq<u8> {
    pairing_named(g1_smul(g1_generator_bytes(), c), g2_generator_bytes())
}

/// The compressed encoding of the standard generator of G1.
pub open spec fn g1_generator_bytes() -> Seq<u8> {
    seq![
        0x97u8, 0xf1, 0xd3, 0xa7, 0x31, 0x97, 0xd7, 0x94, 0x26, 0x95, 0x63, 0x8c, 0x4f, 0xa9, 0xac, 0x0f,
        0xc3, 0x68, 0x8c, 0x4f, 0x97, 0x74, 0xb9, 0x05, 0xa1, 0x4e, 0x3a, 0x3f, 0x17, 0x1b, 0xac, 0x58,
        0x6c, 0x55, 0xe8, 0x3f, 0xf9, 0x7a, 0x1a, 0xef, 0xfb, 0x3a, 0xf0, 0x0a, 0xdb, 0x22, 0xc6, 0xbb,
    ]
}

/// The compressed encoding of the standard generator of G2.
pub open spec fn g2_generator_bytes() -> Seq<u8> {
    seq![
        0x93u8, 0xe0, 0x2b, 0x60, 0x52, 0x71, 0x9f, 0x60, 0x7d, 0xac, 0xd3, 0xa0, 0x88, 0x27, 0x4f, 0x65,
        0x59, 0x6b, 0xd0, 0xd0, 0x99, 0x20, 0xb6, 0x1a, 0xb5, 0xda, 0x61, 0xbb, 0xdc, 0x7f, 0x50, 0x49,
        0x33, 0x4c, 0xf1, 0x12, 0x13, 0x94, 0x5d, 0x57, 0xe5, 0xac, 0x7d, 0x05, 0x5d, 0x04, 0x2b, 0x7e,
        0x02, 0x4a, 0xa2, 0xb2, 0xf0, 0x8f, 0x0a, 0x91, 0x26, 0x08, 0x05, 0x27, 0x2d, 0xc5, 0x10, 0x51,
        0xc6, 0xe4, 0x7a, 0xd4, 0xfa, 0x40, 0x3b, 0x02, 0xb4, 0x51, 0x0b, 0x64, 0x7a, 0xe3, 0xd1, 0x77,
        0x0b, 0xac, 0x03, 0x26, 0xa8, 0x05, 0xbb, 0xef, 0xd4, 0x80, 0x56, 0xc8, 0xc1, 0x21, 0xbd, 0xb8,
    ]
}

/// The encoding of the identity of the target field: the integer one in the first
/// coordinate, zero in the eleven others.
pub open spec fn gt_one_bytes() -> Seq<u8> {
    seq![1u8] + Seq::new(575, |i: int| 0u8)
}

/// A point of G1 (the group of the ciphertext commitment and the public key).
#[derive(Clone, Copy, Debug, PartialEq, Eq, Hash)]
pub struct G1Point {
    pub(crate) bytes: [u8; 48],
}

/// A point of G2 (the group of key shares and of the ciphertext tag).
#[derive(Clone, Copy, Debug, PartialEq, Eq, Hash)]
pub struct G2Point {
    pub(crate) bytes: [u8; 96],
}

/// An element of the pairing target field.
#[derive(Clone, Copy, Debug, PartialEq, Eq, Hash)]
pub struct Gt {
    pub(crate) bytes: [u8; 576],
}

impl G1Point {
    #[verifier::type_invariant]
    spec fn decodes(self) -> bool {
        g1_decodes(self.bytes@)
    }

    /// The canonical compressed encoding.
    pub fn to_bytes(&self) -> (res: [u8; 48])
        ensures
            res@ == self@,
            g1_decodes(res@),
    {
        proof {
            use_type_invariant(self);
        }
        self.bytes
    }
}

impl G2Point {
    #[verifier::type_invariant]
    spec fn decodes(self) -> bool {
        g2_decodes(self.bytes@)
    }

    /// The canonical compressed encoding.
    pub fn to_bytes(&self) -> (res: [u8; 96])
        ensures
            res@ == self@,
            g2_decodes(res@),
    {
        proof {
            use_type_invariant(self);
        }
        self.bytes
    }
}

impl Gt {
    #[verifier::type_invariant]
    spec fn decodes(self) -> bool {
        gt_decodes(self.bytes@)
    }

    /// The canonical encoding.
    pub fn to_bytes(&self) -> (res: [u8; 576])
        ensures
            res@ == self@,
            gt_decodes(res@),
    {
        proof {
            use_type_invariant(self);
        }
        self.bytes
    }
}

impl View for G1Point {
    type V = Seq<u8>;

    closed spec fn view(&self) -> Seq<u8> {
        self.bytes@
    }
}

impl View for G2Point {
    type V = Seq<u8>;

    closed spec fn view(&self) -> Seq<u8> {
        self.bytes@
    }
}

impl View for Gt {
    type V = Seq<u8>;

    closed spec fn view(&self) -> Seq<u8> {
        self.bytes@
    }
}


impl Gt {
    /// Whether two elements are equal; the encoding is canonical, so this compares the bytes.
    pub fn equals(&self, other: &Gt) -> (res: bool)
        ensures
            res == (self@ == other@),
    {
        let a = self.to_bytes();
        let b = other.to_bytes();
        let mut i: usize = 0;
        while i < 576
            invariant
                i <= 576,
                a@ == self@,
                b@ == other@,
                forall|j: int| 0 <= j < i ==> a@[j] == b@[j],
            decreases 576 - i,
        {
            if a[i] != b[i] {
                return false;
            }
            i = i + 1;
        }
        assert(a@ =~= b@);
        true
    }
}

/// `G1Affine::generator()`, serialized: the contract claims the standard generator's encoding.
#[verifier::external_body]
pub(crate) fn g1_generator() -> (res: G1Point)
    ensures
        res@ == g1_generator_bytes(),
        g1_decodes(res@),
{
    let mut bytes = [0u8; 48];
    ark_bls12_381::G1Affine::generator().serialize_compressed(&mut bytes[..]).unwrap();
    G1Point { bytes }
}

/// `G2Affine::generator()`, serialized: the contract claims the standard generator's encoding.
#[verifier::external_body]
pub(crate) fn g2_generator() -> (res: G2Point)
    ensures
        res@ == g2_generator_bytes(),
        g2_decodes(res@),
{
    let mut bytes = [0u8; 96];
    ark_bls12_381::G2Affine::generator().serialize_compressed(&mut bytes[..]).unwrap();
    G2Point { bytes }
}

/// Scalar multiplication `p * s` in G1 (arkworks `Mul<Fr> for G1Affine`, then `into_affine`).
/// The contract names the result and claims that multiplying a multiple of `x` by `s`
/// gives the multiple by the product of the scalars, reduced modulo the group order.
#[verifier::external_body]
pub(crate) fn g1_mul(p: &G1Point, s: &Scalar) -> (res: G1Point)
    ensures
        res@ == (if s@ == 1 { p@ } else { g1_mul_named(p@, s@) }),
        g1_decodes(res@),
        forall|x: Seq<u8>, c: nat|
            c < scalar_modulus() && #[trigger] g1_smul(x, c) == p@ ==> res@ == g1_smul(
                x,
                (c * s@) % scalar_modulus(),
            ),
{
    let pt = ark_bls12_381::G1Affine::deserialize_compressed_unchecked(&p.bytes[..]).unwrap();
    let sc = ark_bls12_381::Fr::from_le_bytes_mod_order(&s.bytes);
    let mut bytes = [0u8; 48];
    (pt * sc).into_affine().serialize_compressed(&mut bytes[..]).unwrap();
    G1Point { bytes }
}

/// Scalar multiplication `p * s` in G2 (arkworks `Mul<Fr> for G2Affine`, then `into_affine`).
/// The contract names the result and claims that multiplying a multiple of `x` by `s`
/// gives the multiple by the product of the scalars, reduced modulo the group order.
#[verifier::external_body]
pub(crate) fn g2_mul(p: &G2Point, s: &Scalar) -> (res: G2Point)
    ensures
        res@ == (if s@ == 1 { p@ } else { g2_mul_named(p@, s@) }),
        g2_decodes(res@),
        forall|x: Seq<u8>, c: nat|
            c < scalar_modulus() && #[trigger] g2_smul(x, c) == p@ ==> res@ == g2_smul(
                x,
                (c * s@) % scalar_modulus(),
            ),
{
    let pt = ark_bls12_381::G2Affine::deserialize_compressed_unchecked(&p.bytes[..]).unwrap();
    let sc = ark_bls12_381::Fr::from_le_bytes_mod_order(&s.bytes);
    let mut bytes = [0u8; 96];
    (pt * sc).into_affine().serialize_compressed(&mut bytes[..]).unwrap();
    G2Point { bytes }
}

/// `Bls12_381::pairing(p, q)`. The contract names the result and claims bilinearity: the
/// pairing of `[a] x` with `[c] y` is the pairing of `[a c] x` with `y`.
#[verifier::external_body]
pub(crate) fn pairing(p: &G1Point, q: &G2Point) -> (res: Gt)
    ensures
        res@ == pairing_named(p@, q@),
        gt_decodes(res@),
        forall|x: Seq<u8>, a: nat, y: Seq<u8>, c: nat|
            a < scalar_modulus() && c < scalar_modulus() && #[trigger] g1_smul(x, a) == p@
                && #[trigger] g2_smul(y, c) == q@ ==> res@ == pairing_named(
                g1_smul(x, (a * c) % scalar_modulus()),
                y,
            ),
{
    let a = ark_bls12_381::G1Affine::deserialize_compressed_unchecked(&p.bytes[..]).unwrap();
    let b = ark_bls12_381::G2Affine::deserialize_compressed_unchecked(&q.bytes[..]).unwrap();
    let mut bytes = [0u8; 576];
    ark_bls12_381::Bls12_381::pairing(a, b).0.serialize_compressed(&mut bytes[..]).unwrap();
    Gt { bytes }
}

/// Product of two target-field elements (arkworks `Fq12` multiplication). The contract
/// names the result and claims that `e([c1] G, H) * e([c2] G, H) = e([c1 + c2] G, H)`.
#[verifier::external_body]
pub(crate) fn gt_mul(a: &Gt, b: &Gt) -> (res: Gt)
    ensures
        res@ == gt_mul_named(a@, b@),
        gt_decodes(res@),
        forall|c1: nat, c2: nat|
            c1 < scalar_modulus() && c2 < scalar_modulus() && #[trigger] target_exp(c1) == a@
                && #[trigger] target_exp(c2) == b@ ==> res@ == target_exp(
                (c1 + c2) % scalar_modulus(),
            ),
{
    let x = ark_bls12_381::Fq12::deserialize_compressed_unchecked(&a.bytes[..]).unwrap();
    let y = ark_bls12_381::Fq12::deserialize_compressed_unchecked(&b.bytes[..]).unwrap();
    let mut bytes = [0u8; 576];
    (x * y).serialize_compressed(&mut bytes[..]).unwrap();
    Gt { bytes }
}

/// `a.pow(s.into_bigint())` in the target field: `a` raised to the reduced scalar. The
/// contract states the result as one multiplied by `a` that many times ([gt_power]), and
/// claims that `e([c] G, H)^s = e([c s] G, H)`.
#[verifier::external_body]
pub(crate) fn gt_pow(a: &Gt, s: &Scalar) -> (res: Gt)
    ensures
        res@ == gt_power(a@, s@),
        gt_decodes(res@),
        forall|c: nat|
            c < scalar_modulus() && #[trigger] target_exp(c) == a@ ==> res@ == target_exp(
                (c * s@) % scalar_modulus(),
            ),
{
    let x = ark_bls12_381::Fq12::deserialize_compressed_unchecked(&a.bytes[..]).unwrap();
    let e = ark_bls12_381::Fr::from_le_bytes_mod_order(&s.bytes).into_bigint();
    let mut bytes = [0u8; 576];
    x.pow(e).serialize_compressed(&mut bytes[..]).unwrap();
    Gt { bytes }
}

/// `Fq12::one()`, serialized: the contract claims the encoding of one, which is
/// `e([0] G, H)`.
#[verifier::external_body]
pub(crate) fn gt_one() -> (res: Gt)
    ensures
        res@ == gt_one_bytes(),
        gt_decodes(res@),
        res@ == target_exp(0),
{
    let mut bytes = [0u8; 576];
    ark_bls12_381::Fq12::one().serialize_compressed(&mut bytes[..]).unwrap();
    Gt { bytes }
}

/// `ark_bls12_381::G1Affine::deserialize_compressed`: reads the first 48 bytes. The
/// contract claims success exactly when they are a canonical encoding, and that the point
/// read is encoded by those bytes.
#[verifier::external_body]
pub fn deserialize_g1(bytes: &[u8]) -> (res: Result<G1Point, SerializationFailure>)
    ensures
        res is Ok <==> (bytes@.len() >= 48 && g1_decodes(bytes@.take(48))),
        res matches Ok(p) ==> p@ == bytes@.take(48),
{
    match ark_bls12_381::G1Affine::deserialize_compressed(bytes) {
        Ok(pt) => {
            let mut out = [0u8; 48];
            pt.serialize_compressed(&mut out[..]).unwrap();
            Ok(G1Point { bytes: out })
        },
        Err(e) => Err(serialization_error(e)),
    }
}

/// `ark_bls12_381::G2Affine::deserialize_compressed`: reads the first 96 bytes. The
/// contract claims success exactly when they are a canonical encoding, and that the point
/// read is encoded by those bytes.
#[verifier::external_body]
pub fn deserialize_g2(bytes: &[u8]) -> (res: Result<G2Point, SerializationFailure>)
    ensures
        res is Ok <==> (bytes@.len() >= 96 && g2_decodes(bytes@.take(96))),
        res matches Ok(p) ==> p@ == bytes@.take(96),
{
    match ark_bls12_381::G2Affine::deserialize_compressed(bytes) {
        Ok(pt) => {
            let mut out = [0u8; 96];
            pt.serialize_compressed(&mut out[..]).unwrap();
            Ok(G2Point { bytes: out })
        },
        Err(e) => Err(serialization_error(e)),
    }
}

/// `ark_bls12_381::Fq12::deserialize_compressed`: reads the first 576 bytes. The contract
/// claims success exactly when they are a canonical encoding (each coordinate read with
/// `Fp::from_bigint`, which refuses values not below the modulus), and that the element read
/// is encoded by those bytes.
#[verifier::external_body]
pub fn deserialize_target(bytes: &[u8]) -> (res: Result<Gt, SerializationFailure>)
    ensures
        res is Ok <==> (bytes@.len() >= 576 && gt_decodes(bytes@.take(576))),
        res matches Ok(p) ==> p@ == bytes@.take(576),
{
    match ark_bls12_381::Fq12::deserialize_compressed(bytes) {
        Ok(x) => {
            let mut out = [0u8; 576];
            x.serialize_compressed(&mut out[..]).unwrap();
            Ok(Gt { bytes: out })
        },
        Err(e) => Err(serialization_error(e)),
    }
}

/// The error type of arkworks serialization.
#[verifier::external_type_specification]
#[verifier::external_body]
pub struct ExArkSerializationError(ark_serialize::SerializationError);

/// Tells the variants of `ark_serialize::SerializationError` apart.
#[verifier::external_body]
fn serialization_error(e: ark_serialize::SerializationError) -> (res: SerializationFailure) {
    match e {
        ark_serialize::SerializationError::NotEnoughSpace => SerializationFailure::NotEnoughSpace,
        ark_serialize::SerializationError::InvalidData => SerializationFailure::InvalidData,
        ark_serialize::SerializationError::UnexpectedFlags => SerializationFailure::UnexpectedFlags,
        ark_serialize::SerializationError::IoError(_) => SerializationFailure::IoError,
    }
}

} // verus!
