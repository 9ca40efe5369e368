//! Hashing of byte strings to points of G2 (RFC 9380, BLS12381G2_XMD:SHA-256_SSWU_RO_).

use ark_ec::hashing::{
    curve_maps::wb::WBMap, map_to_curve_hasher::MapToCurveBasedHasher, HashToCurve,
};
use ark_ff::field_hashers::DefaultFieldHasher;
use ark_serialize::CanonicalSerialize;
use crate::group::{g2_decodes, G2Point};
use sha2::Sha256;
use vstd::prelude::*;

verus! {

/// Domain separation tag for RFC9380 BLS12-381 G2 hash-to-curve:
/// the ASCII bytes of `QUUX-V01-CS02-with-BLS12381G2_XMD:SHA-256_SSWU_RO_`.
pub const HTP_BLS12381_G2_DST: [u8; 50] = [
    0x51, 0x55, 0x55, 0x58, 0x2d, 0x56, 0x30, 0x31, 0x2d, 0x43, 0x53, 0x30, 0x32, 0x2d, 0x77, 0x69, 0x74, 0x68, 0x2d, 0x42, 0x4c, 0x53, 0x31, 0x32, 0x33, 0x38, 0x31, 0x47, 0x32, 0x5f, 0x58, 0x4d, 0x44, 0x3a, 0x53, 0x48, 0x41, 0x2d, 0x32, 0x35, 0x36, 0x5f, 0x53, 0x53, 0x57, 0x55, 0x5f, 0x52, 0x4f, 0x5f,
];

/// The encoding of the point that RFC 9380 hashes `msg` to under the domain separation
/// tag `dst`.
pub uninterp spec fn hash_to_g2_named(dst: Seq<u8>, msg: Seq<u8>) -> Seq<u8>;

/// The domain separation tag of the library's hash to G2.
pub open spec fn htp_dst() -> Seq<u8> {
    HTP_BLS12381_G2_DST@
}

/// Hash to BLS12-381 G2 per RFC9380 under the tag `dst`: arkworks' `MapToCurveBasedHasher`
/// with the SSWU map and the Wahby-Boneh isogeny (a tag longer than 255 bytes is hashed
/// first, as RFC 9380 says). The contract names the result.
#[verifier::external_body]
fn hash_to_g2(dst: &[u8], msg: &[u8]) -> (res: G2Point)
    ensures
        res@ == hash_to_g2_named(dst@, msg@),
        g2_decodes(res@),
{
    let hasher = MapToCurveBasedHasher::<
        ark_bls12_381::G2Projective,
        DefaultFieldHasher<Sha256, 128>,
        WBMap<ark_bls12_381::g2::Config>,
    >::new(dst).expect("hash-to-curve hasher init");
    let point = hasher.hash(msg).expect("hash-to-curve");
    let mut bytes = [0u8; 96];
    point.serialize_compressed(&mut bytes[..]).unwrap();
    G2Point { bytes }
}

/// Hash to BLS12-381 G2 per RFC9380 with [HTP_BLS12381_G2_DST].
pub fn htp_bls12381_g2(msg: &[u8]) -> (res: G2Point)
    ensures
        res@ == hash_to_g2_named(htp_dst(), msg@),
        g2_decodes(res@),
{
    let dst = HTP_BLS12381_G2_DST;
    hash_to_g2(dst.as_slice(), msg)
}

} // verus!
