//! Threshold encryption: ciphertexts, their validity check, encryption and decryption.

use core::marker::PhantomData;
use chacha20poly1305::aead::{generic_array::GenericArray, Aead, KeyInit, Payload};
use chacha20poly1305::ChaCha20Poly1305;
use sha2::{Digest, Sha256};
use crate::bytes::{append_bytes, to_vec};
use crate::codec::Codec;
use crate::combine::SharedSecret;
use crate::error::{CodecFailure, Error};
use crate::field::{random_scalar, scalar_modulus, Scalar};
use crate::group::{
    deserialize_g2, g1_decodes, g1_generator, g1_generator_bytes, g1_mul, g1_smul, g2_decodes,
    g2_generator, g2_generator_bytes, g2_mul, g2_smul, pairing,
    pairing_named, target_exp, G1Point, G2Point,
};
use crate::hash_to_curve::{hash_to_g2_named, htp_bls12381_g2, htp_dst};
use crate::key_share::{DkgPublicKey, PrivateKeyShare};
use crate::serialization::{
    decode_g1, decode_g2, encode_g1, encode_g2, is_suffix, read_g1, read_g2, scale_bytes,
    scale_decode_bytes, scale_decoding, scale_encode_bytes,
};
use vstd::prelude::*;

verus! {

/// The SHA-256 digest of a byte string.
pub uninterp spec fn sha256_named(data: Seq<u8>) -> Seq<u8>;

/// What ChaCha20-Poly1305 encryption returns for a key, nonce, message and associated
/// data: the ciphertext with its tag appended, or nothing when it refuses.
pub uninterp spec fn aead_seal_named(
    key: Seq<u8>,
    nonce: Seq<u8>,
    msg: Seq<u8>,
    aad: Seq<u8>,
) -> Option<Seq<u8>>;

/// What ChaCha20-Poly1305 decryption returns: the plaintext, or nothing when the tag
/// does not authenticate the ciphertext and associated data.
pub uninterp spec fn aead_open_named(
    key: Seq<u8>,
    nonce: Seq<u8>,
    ct: Seq<u8>,
    aad: Seq<u8>,
) -> Option<Seq<u8>>;

/// Marks a ciphertext of raw bytes.
#[derive(Clone, Copy, Debug, PartialEq, Eq)]
pub struct Raw;

/// A ciphertext of the threshold scheme, tagged with the type of its plaintext.
#[derive(Clone, Debug, PartialEq, Eq, Hash)]
pub struct Ciphertext<T = Raw> {
    /// `U = [r] G`.
    pub commitment: G1Point,
    /// `W = [r] H_G2(U, sha256(ciphertext), aad)`.
    pub auth_tag: G2Point,
    /// The message encrypted with ChaCha20-Poly1305.
    pub ciphertext: Vec<u8>,
    /// Inner type the ciphertext binds to.
    pub _type: PhantomData<T>,
}

/// A ciphertext of raw bytes.
pub type RawCiphertext = Ciphertext<Raw>;

/// The part of a ciphertext that decryption shares are made from.
#[derive(Clone, Copy, Debug, PartialEq, Eq)]
pub struct CiphertextHeader {
    pub commitment: G1Point,
    pub auth_tag: G2Point,
    pub ciphertext_hash: [u8; 32],
}

/// The point of G2 that binds the commitment, the ciphertext digest and the associated data.
pub open spec fn tag_point(commitment: Seq<u8>, ciphertext_hash: Seq<u8>, aad: Seq<u8>) -> Seq<u8> {
    hash_to_g2_named(htp_dst(), commitment + ciphertext_hash + aad)
}

/// The validity check of section 4.4.2 of the Ferveo paper:
/// `e(U, H_G2(U, digest, aad)) == e(G, W)`, `G` the generator of G1.
pub open spec fn header_is_valid(
    commitment: Seq<u8>,
    auth_tag: Seq<u8>,
    ciphertext_hash: Seq<u8>,
    aad: Seq<u8>,
) -> bool {
    pairing_named(commitment, tag_point(commitment, ciphertext_hash, aad)) == pairing_named(
        g1_generator_bytes(),
        auth_tag,
    )
}

/// The tag point hashes the whole associated data: it is the hash to G2 of the commitment,
/// the digest and all of `aad`, so associated data that differ anywhere give different hash
/// inputs.
pub proof fn lemma_tag_point_hashes_whole_aad(
    commitment: Seq<u8>,
    ciphertext_hash: Seq<u8>,
    aad: Seq<u8>,
    other_aad: Seq<u8>,
)
    ensures
        tag_point(commitment, ciphertext_hash, aad) == hash_to_g2_named(
            htp_dst(),
            commitment + ciphertext_hash + aad,
        ),
        aad != other_aad ==> commitment + ciphertext_hash + aad != commitment + ciphertext_hash
            + other_aad,
{
    let prefix = commitment + ciphertext_hash;
    if prefix + aad == prefix + other_aad {
        assert(aad =~= (prefix + aad).skip(prefix.len() as int));
        assert(other_aad =~= (prefix + other_aad).skip(prefix.len() as int));
    }
}

/// A header is valid exactly when `e(U, H_G2(U || digest || aad)) == e(G, W)`, the hash taken
/// over the whole associated data.
pub proof fn lemma_header_validity_is_the_pairing_equation(
    commitment: Seq<u8>,
    auth_tag: Seq<u8>,
    ciphertext_hash: Seq<u8>,
    aad: Seq<u8>,
)
    ensures
        header_is_valid(commitment, auth_tag, ciphertext_hash, aad) <==> pairing_named(
            commitment,
            hash_to_g2_named(htp_dst(), commitment + ciphertext_hash + aad),
        ) == pairing_named(g1_generator_bytes(), auth_tag),
{
}

/// The symmetric nonce: the first 12 bytes of the digest of the commitment.
pub open spec fn nonce_bytes(commitment: Seq<u8>) -> Seq<u8> {
    sha256_named(commitment).take(12)
}

/// The symmetric key: the digest of the encoded shared secret.
pub open spec fn symmetric_key(shared_secret: Seq<u8>) -> Seq<u8> {
    sha256_named(shared_secret)
}

/// `(U, W, ciphertext)` is the encryption of `msg` with associated data `aad` under the
/// randomness `r` and the shared secret `shared_secret`.
pub open spec fn is_encryption_of(
    commitment: Seq<u8>,
    auth_tag: Seq<u8>,
    ciphertext: Seq<u8>,
    r: nat,
    msg: Seq<u8>,
    aad: Seq<u8>,
    shared_secret: Seq<u8>,
) -> bool {
    &&& r < scalar_modulus()
    &&& commitment == g1_smul(g1_generator_bytes(), r)
    &&& auth_tag == g2_smul(tag_point(commitment, sha256_named(ciphertext), aad), r)
    &&& aead_seal_named(symmetric_key(shared_secret), nonce_bytes(commitment), msg, aad) == Some(
        ciphertext,
    )
}

/// An encryption with randomness `r` has commitment `U = [r] G`, tag `W = [r] H_G2(U || sha256(ct)
/// || aad)` over the whole associated data, and the symmetric ciphertext sealed under the
/// digest of the shared secret with the first 12 bytes of the digest of `U` as nonce.
pub proof fn lemma_encryption_is_commitment_tag_and_seal(
    commitment: Seq<u8>,
    auth_tag: Seq<u8>,
    ciphertext: Seq<u8>,
    r: nat,
    msg: Seq<u8>,
    aad: Seq<u8>,
    shared_secret: Seq<u8>,
)
    ensures
        is_encryption_of(commitment, auth_tag, ciphertext, r, msg, aad, shared_secret) <==> (r
            < scalar_modulus() && commitment == g1_smul(g1_generator_bytes(), r) && auth_tag
            == g2_smul(
            hash_to_g2_named(htp_dst(), commitment + sha256_named(ciphertext) + aad),
            r,
        ) && aead_seal_named(
            sha256_named(shared_secret),
            sha256_named(commitment).take(12),
            msg,
            aad,
        ) == Some(ciphertext)),
{
}

/// The shared secret of an encryption with randomness `r` under the public key `pk`:
/// `e([r] pk, H)`.
pub open spec fn encryption_shared_secret(pk: Seq<u8>, r: nat) -> Seq<u8> {
    pairing_named(g1_smul(pk, r), g2_generator_bytes())
}

/// What decrypting `(U, W, ciphertext)` with associated data `aad` under the shared secret
/// gives: the check of the header first, then the authenticated decryption.
pub open spec fn decryption_result(
    commitment: Seq<u8>,
    auth_tag: Seq<u8>,
    ciphertext: Seq<u8>,
    aad: Seq<u8>,
    shared_secret: Seq<u8>,
) -> Result<Seq<u8>, Error> {
    if !header_is_valid(commitment, auth_tag, sha256_named(ciphertext), aad) {
        Err(Error::CiphertextVerificationFailed)
    } else {
        match aead_open_named(
            symmetric_key(shared_secret),
            nonce_bytes(commitment),
            ciphertext,
            aad,
        ) {
            Some(p) => Ok(p),
            None => Err(Error::CiphertextVerificationFailed),
        }
    }
}

/// Decryption checks the ciphertext first: when `e(U, H_G2(U || sha256(ct) || aad)) != e(G, W)`
/// it is refused with the verification error whatever the shared secret, and it gives a
/// plaintext only when that equation holds and the AEAD, keyed by the digest of the shared
/// secret with the first 12 bytes of the digest of `U` as nonce, opens the ciphertext to it.
pub proof fn lemma_decryption_checks_the_header_first(
    commitment: Seq<u8>,
    auth_tag: Seq<u8>,
    ciphertext: Seq<u8>,
    aad: Seq<u8>,
    shared_secret: Seq<u8>,
)
    ensures
        pairing_named(
            commitment,
            hash_to_g2_named(htp_dst(), commitment + sha256_named(ciphertext) + aad),
        ) != pairing_named(g1_generator_bytes(), auth_tag) ==> decryption_result(
            commitment,
            auth_tag,
            ciphertext,
            aad,
            shared_secret,
        ) == Err::<Seq<u8>, Error>(Error::CiphertextVerificationFailed),
        decryption_result(commitment, auth_tag, ciphertext, aad, shared_secret) matches Ok(p)
            ==> pairing_named(
            commitment,
            hash_to_g2_named(htp_dst(), commitment + sha256_named(ciphertext) + aad),
        ) == pairing_named(g1_generator_bytes(), auth_tag) && aead_open_named(
            sha256_named(shared_secret),
            sha256_named(commitment).take(12),
            ciphertext,
            aad,
        ) == Some(p),
        decryption_result(commitment, auth_tag, ciphertext, aad, shared_secret) matches Err(e)
            ==> e == Error::CiphertextVerificationFailed,
{
}

/// The view of a byte result.
pub open spec fn bytes_result(r: Result<Vec<u8>, Error>) -> Result<Seq<u8>, Error> {
    match r {
        Ok(v) => Ok(v@),
        Err(e) => Err(e),
    }
}

/// `Sha256::digest`: the contract names the result.
#[verifier::external_body]
fn sha256(input: &[u8]) -> (res: [u8; 32])
    ensures
        res@ == sha256_named(input@),
{
    let mut hasher = Sha256::new();
    hasher.update(input);
    hasher.finalize().into()
}

/// `Clone` of `PhantomData`: the marker carries no data, so the copy equals the value cloned.
pub assume_specification<T: core::marker::PointeeSized>[ <core::marker::PhantomData<T> as core::clone::Clone>::clone ](
    marker: &core::marker::PhantomData<T>,
) -> (res: core::marker::PhantomData<T>)
    ensures
        res == *marker,
;

/// `ChaCha20Poly1305::new(key).encrypt(nonce, Payload { msg, aad })`, its error turned
/// into `None`. The contract names the result and claims what the crate's source shows: it
/// refuses only a message of `2^32 - 1` blocks of 64 bytes or more, and appends a 16-byte tag.
#[verifier::external_body]
fn chacha_seal(key: &[u8; 32], nonce: &[u8; 12], msg: &[u8], aad: &[u8]) -> (res: Option<Vec<u8>>)
    ensures
        match res {
            Some(c) => aead_seal_named(key@, nonce@, msg@, aad@) == Some(c@),
            None => aead_seal_named(key@, nonce@, msg@, aad@) is None,
        },
        res is Some <==> msg@.len() / 64 < 0xffff_ffff,
        res matches Some(c) ==> c@.len() == msg@.len() + 16,
{
    ChaCha20Poly1305::new(GenericArray::from_slice(&key[..])).encrypt(
        GenericArray::from_slice(&nonce[..]),
        Payload { msg, aad },
    ).ok()
}

/// `ChaCha20Poly1305::new(key).decrypt(nonce, Payload { msg: ct, aad })`, its error turned
/// into `None`. The contract names the result and claims that it gives back the message
/// that encryption under the same key, nonce and associated data turned into `ct`.
#[verifier::external_body]
fn chacha_open(key: &[u8; 32], nonce: &[u8; 12], ct: &[u8], aad: &[u8]) -> (res: Option<Vec<u8>>)
    ensures
        match res {
            Some(p) => aead_open_named(key@, nonce@, ct@, aad@) == Some(p@),
            None => aead_open_named(key@, nonce@, ct@, aad@) is None,
        },
        forall|m: Seq<u8>|
            #[trigger] aead_seal_named(key@, nonce@, m, aad@) == Some(ct@) ==> res is Some
                && res.unwrap()@ == m,
{
    ChaCha20Poly1305::new(GenericArray::from_slice(&key[..])).decrypt(
        GenericArray::from_slice(&nonce[..]),
        Payload { msg: ct, aad },
    ).ok()
}

/// Wrapper around the nonce of ChaCha20-Poly1305.
pub struct Nonce(pub [u8; 12]);

impl Nonce {
    /// The nonce of a ciphertext: the first 12 bytes of the digest of its commitment.
    pub fn from_commitment(commitment: G1Point) -> (res: Result<Nonce, Error>)
        ensures
            res matches Ok(n) && n.0@ == nonce_bytes(commitment@),
    {
        let commitment_bytes = commitment.to_bytes();
        let commitment_hash = sha256(&commitment_bytes);
        let mut out = [0u8; 12];
        let mut i: usize = 0;
        while i < 12
            invariant
                i <= 12,
                commitment_hash@ == sha256_named(commitment@),
                forall|j: int| 0 <= j < i ==> out@[j] == commitment_hash@[j],
            decreases 12 - i,
        {
            out[i] = commitment_hash[i];
            i = i + 1;
        }
        assert(out@ =~= sha256_named(commitment@).take(12));
        Ok(Nonce(out))
    }
}

/// Hashes a message to G2 and reads the point back from its encoding.
fn hash_to_g2(message: &[u8]) -> (res: Result<G2Point, Error>)
    ensures
        res matches Ok(p) && p@ == hash_to_g2_named(htp_dst(), message@),
{
    let point = htp_bls12381_g2(message);
    let point_ser = point.to_bytes();
    match deserialize_g2(&point_ser) {
        Ok(p) => {
            assert(point_ser@.take(96) =~= point_ser@);
            Ok(p)
        },
        Err(e) => {
            assert(point_ser@.take(96) =~= point_ser@);
            Err(Error::ArkSerializeError(e))
        },
    }
}

/// `H_G2(U, digest, aad)`: the hash to G2 of the encoded commitment, the ciphertext digest
/// and the associated data.
fn construct_tag_hash(commitment: G1Point, ciphertext_hash: &[u8], aad: &[u8]) -> (res: Result<
    G2Point,
    Error,
>)
    ensures
        res matches Ok(p) && p@ == hash_to_g2_named(
            htp_dst(),
            commitment@ + ciphertext_hash@ + aad@,
        ),
        res matches Ok(p) && p@ == tag_point(commitment@, ciphertext_hash@, aad@),
{
    let mut hash_input: Vec<u8> = Vec::new();
    let c = commitment.to_bytes();
    append_bytes(&mut hash_input, &c);
    append_bytes(&mut hash_input, ciphertext_hash);
    append_bytes(&mut hash_input, aad);
    assert(hash_input@ =~= commitment@ + ciphertext_hash@ + aad@);
    hash_to_g2(hash_input.as_slice())
}

impl CiphertextHeader {
    /// Checks the header against the associated data: `Ok(true)` when
    /// `e(U, H_G2(U, digest, aad)) == e(G, W)`, the verification error otherwise.
    pub fn check(&self, aad: &[u8]) -> (res: Result<bool, Error>)
        ensures
            res is Ok <==> (pairing_named(
                self.commitment@,
                hash_to_g2_named(htp_dst(), self.commitment@ + self.ciphertext_hash@ + aad@),
            ) == pairing_named(g1_generator_bytes(), self.auth_tag@)),
            res matches Ok(b) ==> b,
            res matches Err(e) ==> e == Error::CiphertextVerificationFailed,
            res == (if header_is_valid(
                self.commitment@,
                self.auth_tag@,
                self.ciphertext_hash@,
                aad@,
            ) {
                Ok::<bool, Error>(true)
            } else {
                Err(Error::CiphertextVerificationFailed)
            }),
            forall|r: nat|
                r < scalar_modulus() && #[trigger] g1_smul(g1_generator_bytes(), r)
                    == self.commitment@ && self.auth_tag@ == g2_smul(
                    tag_point(self.commitment@, self.ciphertext_hash@, aad@),
                    r,
                ) ==> res == Ok::<bool, Error>(true),
    {
        let hash_g2 = match construct_tag_hash(self.commitment, &self.ciphertext_hash, aad) {
            Ok(h) => h,
            Err(e) => {
                return Err(e);
            },
        };
        let g = g1_generator();
        let lhs = pairing(&self.commitment, &hash_g2);
        let rhs = pairing(&g, &self.auth_tag);
        proof {
            // An honest header: U = [r] G and W = [r] Q give e(U, Q) = e([r] G, Q) = e(G, W).
            assert(g1_smul(g1_generator_bytes(), 1) == g@);
            assert(g2_smul(hash_g2@, 1) == hash_g2@);
            assert forall|r: nat|
                r < scalar_modulus() && #[trigger] g1_smul(g1_generator_bytes(), r)
                    == self.commitment@ && self.auth_tag@ == g2_smul(hash_g2@, r) implies lhs@
                == rhs@ by {
                assert((r * 1) % scalar_modulus() == r);
                assert((1 * r) % scalar_modulus() == r);
            }
        }
        if lhs.equals(&rhs) {
            Ok(true)
        } else {
            Err(Error::CiphertextVerificationFailed)
        }
    }
}

impl<T> Ciphertext<T> {
    /// The SHA-256 digest of the symmetric ciphertext.
    pub fn ciphertext_hash(&self) -> (res: [u8; 32])
        ensures
            res@ == sha256_named(self.ciphertext@),
    {
        sha256(self.ciphertext.as_slice())
    }

    /// The header: commitment, tag and digest of the symmetric ciphertext.
    pub fn header(&self) -> (res: CiphertextHeader)
        ensures
            res.commitment == self.commitment,
            res.auth_tag == self.auth_tag,
            res.ciphertext_hash@ == sha256_named(self.ciphertext@),
    {
        CiphertextHeader {
            commitment: self.commitment,
            auth_tag: self.auth_tag,
            ciphertext_hash: self.ciphertext_hash(),
        }
    }

    /// Checks the ciphertext against the associated data, as its header does.
    pub fn check(&self, aad: &[u8]) -> (res: Result<bool, Error>)
        ensures
            res is Ok <==> (pairing_named(
                self.commitment@,
                hash_to_g2_named(htp_dst(), self.commitment@ + sha256_named(self.ciphertext@) + aad@),
            ) == pairing_named(g1_generator_bytes(), self.auth_tag@)),
            res matches Ok(b) ==> b,
            res matches Err(e) ==> e == Error::CiphertextVerificationFailed,
            res == (if header_is_valid(
                self.commitment@,
                self.auth_tag@,
                sha256_named(self.ciphertext@),
                aad@,
            ) {
                Ok::<bool, Error>(true)
            } else {
                Err(Error::CiphertextVerificationFailed)
            }),
            forall|r: nat|
                r < scalar_modulus() && #[trigger] g1_smul(g1_generator_bytes(), r)
                    == self.commitment@ && self.auth_tag@ == g2_smul(
                    tag_point(self.commitment@, sha256_named(self.ciphertext@), aad@),
                    r,
                ) ==> res == Ok::<bool, Error>(true),
    {
        self.header().check(aad)
    }

    /// A copy of the symmetric ciphertext.
    pub fn payload(&self) -> (res: Vec<u8>)
        ensures
            res@ == self.ciphertext@,
    {
        to_vec(self.ciphertext.as_slice())
    }
}

/// The symmetric key derived from a shared secret: the SHA-256 digest of its encoding.
/// The ChaCha20-Poly1305 cipher of a ciphertext is keyed by it.
pub fn shared_secret_key(shared_secret: &SharedSecret) -> (res: [u8; 32])
    ensures
        res@ == symmetric_key(shared_secret.0@),
{
    let prf_key = shared_secret.0.to_bytes();
    sha256(&prf_key)
}

/// Encrypts `message` with associated data `aad` under `pubkey` with the randomness `r`:
/// `U = [r] G`, the shared secret `e([r] pubkey, H)`, the symmetric ciphertext under the
/// key derived from it, and `W = [r] H_G2(U, digest, aad)`.
pub fn encrypt_with_randomness<T>(
    message: &[u8],
    aad: &[u8],
    pubkey: &DkgPublicKey,
    r: &Scalar,
) -> (res: Result<Ciphertext<T>, Error>)
    ensures
        res matches Ok(ct) ==> ct.commitment@ == g1_smul(g1_generator_bytes(), r@) && ct.auth_tag@
            == g2_smul(
            hash_to_g2_named(htp_dst(), ct.commitment@ + sha256_named(ct.ciphertext@) + aad@),
            r@,
        ) && aead_seal_named(
            sha256_named(pairing_named(g1_smul(pubkey.0@, r@), g2_generator_bytes())),
            sha256_named(ct.commitment@).take(12),
            message@,
            aad@,
        ) == Some(ct.ciphertext@),
        res is Ok <==> message@.len() / 64 < 0xffff_ffff,
        res matches Err(e) ==> e == Error::SymmetricEncryptionError,
        res matches Ok(ct) ==> ct.ciphertext@.len() == message@.len() + 16,
        res matches Ok(ct) ==> is_encryption_of(
            ct.commitment@,
            ct.auth_tag@,
            ct.ciphertext@,
            r@,
            message@,
            aad@,
            encryption_shared_secret(pubkey.0@, r@),
        ),
        res matches Ok(ct) ==> forall|a: nat|
            a < scalar_modulus() && #[trigger] g1_smul(g1_generator_bytes(), a) == pubkey.0@
                ==> encryption_shared_secret(pubkey.0@, r@) == pairing_named(
                g1_smul(g1_generator_bytes(), (a * r@) % scalar_modulus()),
                g2_generator_bytes(),
            ),
{
    let g1 = g1_generator();
    let h_gen = g2_generator();
    let ry = g1_mul(&pubkey.0, r);
    let product = pairing(&ry, &h_gen);
    let commitment = g1_mul(&g1, r);
    let nonce = match Nonce::from_commitment(commitment) {
        Ok(n) => n,
        Err(e) => {
            return Err(e);
        },
    };
    let shared_secret = SharedSecret(product);
    let key = shared_secret_key(&shared_secret);
    let ciphertext = match chacha_seal(&key, &nonce.0, message, aad) {
        Some(c) => c,
        None => {
            return Err(Error::SymmetricEncryptionError);
        },
    };
    let ciphertext_hash = sha256(ciphertext.as_slice());
    let tag_hash = match construct_tag_hash(commitment, &ciphertext_hash, aad) {
        Ok(h) => h,
        Err(e) => {
            return Err(e);
        },
    };
    let auth_tag = g2_mul(&tag_hash, r);
    Ok(Ciphertext { commitment, ciphertext, auth_tag, _type: PhantomData })
}


/// Encrypts `message` under `pubkey` with randomness drawn from `rng`.
fn encrypt_raw_bytes<T>(
    message: &[u8],
    aad: &[u8],
    pubkey: &DkgPublicKey,
    rng: &mut rand::rngs::StdRng,
) -> (res: Result<Ciphertext<T>, Error>)
    ensures
        res is Ok <==> message@.len() / 64 < 0xffff_ffff,
        res matches Err(e) ==> e == Error::SymmetricEncryptionError,
        res matches Ok(ct) ==> exists|r: nat|
            #![trigger encryption_shared_secret(pubkey.0@, r)]
            is_encryption_of(
                ct.commitment@,
                ct.auth_tag@,
                ct.ciphertext@,
                r,
                message@,
                aad@,
                encryption_shared_secret(pubkey.0@, r),
            ) && forall|a: nat|
                a < scalar_modulus() && #[trigger] g1_smul(g1_generator_bytes(), a) == pubkey.0@
                    ==> encryption_shared_secret(pubkey.0@, r) == pairing_named(
                    g1_smul(g1_generator_bytes(), (a * r) % scalar_modulus()),
                    g2_generator_bytes(),
                ),
{
    let r = random_scalar(rng);
    encrypt_with_randomness(message, aad, pubkey, &r)
}

/// Encrypts byte-like plaintext with associated data under the DKG public key, with a
/// random `r` drawn from `rng`: the ciphertext is the encryption of `message` under that
/// randomness, as [encrypt_with_randomness] states it.
pub fn encrypt_raw(
    message: &[u8],
    aad: &[u8],
    pubkey: &DkgPublicKey,
    rng: &mut rand::rngs::StdRng,
) -> (res: Result<RawCiphertext, Error>)
    ensures
        res is Ok <==> message@.len() / 64 < 0xffff_ffff,
        res matches Err(e) ==> e == Error::SymmetricEncryptionError,
        res matches Ok(ct) ==> exists|r: nat|
            #![trigger encryption_shared_secret(pubkey.0@, r)]
            is_encryption_of(
                ct.commitment@,
                ct.auth_tag@,
                ct.ciphertext@,
                r,
                message@,
                aad@,
                encryption_shared_secret(pubkey.0@, r),
            ) && forall|a: nat|
                a < scalar_modulus() && #[trigger] g1_smul(g1_generator_bytes(), a) == pubkey.0@
                    ==> encryption_shared_secret(pubkey.0@, r) == pairing_named(
                    g1_smul(g1_generator_bytes(), (a * r) % scalar_modulus()),
                    g2_generator_bytes(),
                ),
{
    encrypt_raw_bytes(message, aad, pubkey, rng)
}

/// Encodes a typed plaintext with its [Codec], then encrypts the encoding as
/// [encrypt_raw] does: an error of the encoding is returned as it is; otherwise the result is
/// that of encrypting the encoded bytes with a random `r`.
pub fn encrypt<T: Codec>(
    message: &T,
    aad: &[u8],
    pubkey: &DkgPublicKey,
    rng: &mut rand::rngs::StdRng,
) -> (res: Result<Ciphertext<T>, Error>)
    ensures
        match message.encoding() {
            Err(e) => res matches Err(e2) && e2 == e,
            Ok(m) => {
                &&& res is Ok <==> m.len() / 64 < 0xffff_ffff
                &&& res matches Err(e) ==> e == Error::SymmetricEncryptionError
                &&& res matches Ok(ct) ==> exists|r: nat|
                    #![trigger encryption_shared_secret(pubkey.0@, r)]
                    is_encryption_of(
                        ct.commitment@,
                        ct.auth_tag@,
                        ct.ciphertext@,
                        r,
                        m,
                        aad@,
                        encryption_shared_secret(pubkey.0@, r),
                    ) && forall|a: nat|
                        a < scalar_modulus() && #[trigger] g1_smul(g1_generator_bytes(), a)
                            == pubkey.0@ ==> encryption_shared_secret(pubkey.0@, r)
                            == pairing_named(
                            g1_smul(g1_generator_bytes(), (a * r) % scalar_modulus()),
                            g2_generator_bytes(),
                        )
            },
        },
{
    let encoded = match message.encode() {
        Ok(e) => e,
        Err(e) => {
            return Err(e);
        },
    };
    encrypt_raw_bytes(encoded.as_slice(), aad, pubkey, rng)
}

/// Checks the ciphertext, then decrypts its symmetric part with the key derived from the
/// shared secret. An honest encryption of `m` under that shared secret decrypts to `m`.
fn decrypt_with_shared_secret<T>(
    ciphertext: &Ciphertext<T>,
    aad: &[u8],
    shared_secret: &SharedSecret,
) -> (res: Result<Vec<u8>, Error>)
    ensures
        !(pairing_named(
            ciphertext.commitment@,
            hash_to_g2_named(htp_dst(), ciphertext.commitment@ + sha256_named(ciphertext.ciphertext@) + aad@),
        ) == pairing_named(g1_generator_bytes(), ciphertext.auth_tag@)) ==> (res matches Err(e) && e == Error::CiphertextVerificationFailed),
        res matches Ok(pt) ==> (pairing_named(
            ciphertext.commitment@,
            hash_to_g2_named(htp_dst(), ciphertext.commitment@ + sha256_named(ciphertext.ciphertext@) + aad@),
        ) == pairing_named(g1_generator_bytes(), ciphertext.auth_tag@)) && (aead_open_named(
            sha256_named(shared_secret.0@),
            sha256_named(ciphertext.commitment@).take(12),
            ciphertext.ciphertext@,
            aad@,
        ) == Some(pt@)),
        bytes_result(res) == decryption_result(
            ciphertext.commitment@,
            ciphertext.auth_tag@,
            ciphertext.ciphertext@,
            aad@,
            shared_secret.0@,
        ),
        forall|r: nat, m: Seq<u8>|
            #[trigger] is_encryption_of(
                ciphertext.commitment@,
                ciphertext.auth_tag@,
                ciphertext.ciphertext@,
                r,
                m,
                aad@,
                shared_secret.0@,
            ) ==> bytes_result(res) == Ok::<Seq<u8>, Error>(m),
{
    match ciphertext.check(aad) {
        Ok(_) => {},
        Err(e) => {
            return Err(e);
        },
    }
    let nonce = match Nonce::from_commitment(ciphertext.commitment) {
        Ok(n) => n,
        Err(e) => {
            return Err(e);
        },
    };
    let key = shared_secret_key(shared_secret);
    match chacha_open(&key, &nonce.0, ciphertext.ciphertext.as_slice(), aad) {
        Some(p) => Ok(p),
        None => Err(Error::CiphertextVerificationFailed),
    }
}

/// Decrypts with a combined threshold shared secret and returns the plaintext bytes.
/// An honest encryption of `m` under that shared secret decrypts to `m`.
pub fn decrypt_raw(
    ciphertext: &RawCiphertext,
    aad: &[u8],
    shared_secret: &SharedSecret,
) -> (res: Result<Vec<u8>, Error>)
    ensures
        !(pairing_named(
            ciphertext.commitment@,
            hash_to_g2_named(htp_dst(), ciphertext.commitment@ + sha256_named(ciphertext.ciphertext@) + aad@),
        ) == pairing_named(g1_generator_bytes(), ciphertext.auth_tag@)) ==> (res matches Err(e) && e == Error::CiphertextVerificationFailed),
        res matches Ok(pt) ==> (pairing_named(
            ciphertext.commitment@,
            hash_to_g2_named(htp_dst(), ciphertext.commitment@ + sha256_named(ciphertext.ciphertext@) + aad@),
        ) == pairing_named(g1_generator_bytes(), ciphertext.auth_tag@)) && (aead_open_named(
            sha256_named(shared_secret.0@),
            sha256_named(ciphertext.commitment@).take(12),
            ciphertext.ciphertext@,
            aad@,
        ) == Some(pt@)),
        bytes_result(res) == decryption_result(
            ciphertext.commitment@,
            ciphertext.auth_tag@,
            ciphertext.ciphertext@,
            aad@,
            shared_secret.0@,
        ),
        forall|r: nat, m: Seq<u8>|
            #[trigger] is_encryption_of(
                ciphertext.commitment@,
                ciphertext.auth_tag@,
                ciphertext.ciphertext@,
                r,
                m,
                aad@,
                shared_secret.0@,
            ) ==> bytes_result(res) == Ok::<Seq<u8>, Error>(m),
{
    decrypt_with_shared_secret(ciphertext, aad, shared_secret)
}

/// Decrypts with a combined threshold shared secret, then decodes the plaintext with the
/// [Codec] of its type. An error of the decryption is returned as it is; otherwise the
/// result is what decoding the plaintext gives. An honest encryption of the bytes `m` under
/// that shared secret decodes from `m`.
pub fn decrypt<T: Codec>(
    ciphertext: &Ciphertext<T>,
    aad: &[u8],
    shared_secret: &SharedSecret,
) -> (res: Result<T, Error>)
    ensures
        !(pairing_named(
            ciphertext.commitment@,
            hash_to_g2_named(htp_dst(), ciphertext.commitment@ + sha256_named(ciphertext.ciphertext@) + aad@),
        ) == pairing_named(g1_generator_bytes(), ciphertext.auth_tag@)) ==> (res matches Err(e) && e == Error::CiphertextVerificationFailed),
        res is Ok ==> (pairing_named(
            ciphertext.commitment@,
            hash_to_g2_named(htp_dst(), ciphertext.commitment@ + sha256_named(ciphertext.ciphertext@) + aad@),
        ) == pairing_named(g1_generator_bytes(), ciphertext.auth_tag@)) && (aead_open_named(
            sha256_named(shared_secret.0@),
            sha256_named(ciphertext.commitment@).take(12),
            ciphertext.ciphertext@,
            aad@,
        ) matches Some(pt) && T::decodes_as(pt, res)),
        match decryption_result(
            ciphertext.commitment@,
            ciphertext.auth_tag@,
            ciphertext.ciphertext@,
            aad@,
            shared_secret.0@,
        ) {
            Ok(p) => T::decodes_as(p, res),
            Err(e) => res matches Err(e2) && e2 == e,
        },
        forall|r: nat, m: Seq<u8>|
            #[trigger] is_encryption_of(
                ciphertext.commitment@,
                ciphertext.auth_tag@,
                ciphertext.ciphertext@,
                r,
                m,
                aad@,
                shared_secret.0@,
            ) ==> T::decodes_as(m, res),
{
    let plaintext = match decrypt_with_shared_secret(ciphertext, aad, shared_secret) {
        Ok(p) => p,
        Err(e) => {
            return Err(e);
        },
    };
    T::decode(plaintext.as_slice())
}

/// The shared secret that the whole private key `[a] H` gives for a ciphertext: `e(U, [a] H)`.
fn symmetric_shared_secret<T>(ciphertext: &Ciphertext<T>, private_key: &PrivateKeyShare) -> (res:
    SharedSecret)
    ensures
        res.0@ == pairing_named(ciphertext.commitment@, private_key.0@),
        forall|r: nat, a: nat|
            r < scalar_modulus() && a < scalar_modulus() && #[trigger] g1_smul(
                g1_generator_bytes(),
                r,
            ) == ciphertext.commitment@ && #[trigger] g2_smul(g2_generator_bytes(), a)
                == private_key.0@ ==> res.0@ == pairing_named(
                g1_smul(g1_generator_bytes(), (a * r) % scalar_modulus()),
                g2_generator_bytes(),
            ),
{
    let s = pairing(&ciphertext.commitment, &private_key.0);
    proof {
        assert forall|r: nat, a: nat|
            r < scalar_modulus() && a < scalar_modulus() && #[trigger] g1_smul(
                g1_generator_bytes(),
                r,
            ) == ciphertext.commitment@ && #[trigger] g2_smul(g2_generator_bytes(), a)
                == private_key.0@ implies s@ == pairing_named(
                g1_smul(g1_generator_bytes(), (a * r) % scalar_modulus()),
                g2_generator_bytes(),
            ) by {
            assert(r * a == a * r) by (nonlinear_arith);
        }
    }
    SharedSecret(s)
}

/// Decrypts directly with the private key and returns the plaintext bytes: the shared
/// secret is `e(U, [a] H)`. An honest encryption of `m` under the public key `[a] G`
/// decrypts to `m` with the private key `[a] H`; for `U = [r] G` the shared secret is
/// `e([a r] G, H)`.
pub fn decrypt_symmetric_raw(
    ciphertext: &RawCiphertext,
    aad: &[u8],
    private_key: &PrivateKeyShare,
) -> (res: Result<Vec<u8>, Error>)
    ensures
        !(pairing_named(
            ciphertext.commitment@,
            hash_to_g2_named(htp_dst(), ciphertext.commitment@ + sha256_named(ciphertext.ciphertext@) + aad@),
        ) == pairing_named(g1_generator_bytes(), ciphertext.auth_tag@)) ==> (res matches Err(e) && e == Error::CiphertextVerificationFailed),
        res matches Ok(pt) ==> (pairing_named(
            ciphertext.commitment@,
            hash_to_g2_named(htp_dst(), ciphertext.commitment@ + sha256_named(ciphertext.ciphertext@) + aad@),
        ) == pairing_named(g1_generator_bytes(), ciphertext.auth_tag@)) && (aead_open_named(
            sha256_named(pairing_named(ciphertext.commitment@, private_key.0@)),
            sha256_named(ciphertext.commitment@).take(12),
            ciphertext.ciphertext@,
            aad@,
        ) == Some(pt@)),
        bytes_result(res) == decryption_result(
            ciphertext.commitment@,
            ciphertext.auth_tag@,
            ciphertext.ciphertext@,
            aad@,
            pairing_named(ciphertext.commitment@, private_key.0@),
        ),
        forall|r: nat, a: nat|
            r < scalar_modulus() && a < scalar_modulus() && #[trigger] g1_smul(
                g1_generator_bytes(),
                r,
            ) == ciphertext.commitment@ && #[trigger] g2_smul(g2_generator_bytes(), a)
                == private_key.0@ ==> bytes_result(res) == decryption_result(
                ciphertext.commitment@,
                ciphertext.auth_tag@,
                ciphertext.ciphertext@,
                aad@,
                target_exp((a * r) % scalar_modulus()),
            ),
        forall|r: nat, a: nat, m: Seq<u8>|
            a < scalar_modulus() && #[trigger] g2_smul(g2_generator_bytes(), a) == private_key.0@
                && #[trigger] is_encryption_of(
                ciphertext.commitment@,
                ciphertext.auth_tag@,
                ciphertext.ciphertext@,
                r,
                m,
                aad@,
                pairing_named(
                    g1_smul(g1_generator_bytes(), (a * r) % scalar_modulus()),
                    g2_generator_bytes(),
                ),
            ) ==> bytes_result(res) == Ok::<Seq<u8>, Error>(m),
{
    let shared_secret = symmetric_shared_secret(ciphertext, private_key);
    decrypt_with_shared_secret(ciphertext, aad, &shared_secret)
}

/// Decrypts directly with the private key as [decrypt_symmetric_raw] does, then decodes
/// the plaintext with the [Codec] of its type. An error of the decryption is returned as it
/// is; otherwise the result is what decoding the plaintext gives. An honest encryption of
/// the bytes `m` under the public key `[a] G` decodes from `m` with the private key `[a] H`.
pub fn decrypt_symmetric<T: Codec>(
    ciphertext: &Ciphertext<T>,
    aad: &[u8],
    private_key: &PrivateKeyShare,
) -> (res: Result<T, Error>)
    ensures
        !(pairing_named(
            ciphertext.commitment@,
            hash_to_g2_named(htp_dst(), ciphertext.commitment@ + sha256_named(ciphertext.ciphertext@) + aad@),
        ) == pairing_named(g1_generator_bytes(), ciphertext.auth_tag@)) ==> (res matches Err(e) && e == Error::CiphertextVerificationFailed),
        res is Ok ==> (pairing_named(
            ciphertext.commitment@,
            hash_to_g2_named(htp_dst(), ciphertext.commitment@ + sha256_named(ciphertext.ciphertext@) + aad@),
        ) == pairing_named(g1_generator_bytes(), ciphertext.auth_tag@)) && (aead_open_named(
            sha256_named(pairing_named(ciphertext.commitment@, private_key.0@)),
            sha256_named(ciphertext.commitment@).take(12),
            ciphertext.ciphertext@,
            aad@,
        ) matches Some(pt) && T::decodes_as(pt, res)),
        match decryption_result(
            ciphertext.commitment@,
            ciphertext.auth_tag@,
            ciphertext.ciphertext@,
            aad@,
            pairing_named(ciphertext.commitment@, private_key.0@),
        ) {
            Ok(p) => T::decodes_as(p, res),
            Err(e) => res matches Err(e2) && e2 == e,
        },
        forall|r: nat, a: nat, m: Seq<u8>|
            a < scalar_modulus() && #[trigger] g2_smul(g2_generator_bytes(), a) == private_key.0@
                && #[trigger] is_encryption_of(
                ciphertext.commitment@,
                ciphertext.auth_tag@,
                ciphertext.ciphertext@,
                r,
                m,
                aad@,
                pairing_named(
                    g1_smul(g1_generator_bytes(), (a * r) % scalar_modulus()),
                    g2_generator_bytes(),
                ),
            ) ==> T::decodes_as(m, res),
{
    let shared_secret = symmetric_shared_secret(ciphertext, private_key);
    let plaintext = match decrypt_with_shared_secret(ciphertext, aad, &shared_secret) {
        Ok(p) => p,
        Err(e) => {
            return Err(e);
        },
    };
    T::decode(plaintext.as_slice())
}


/// The SCALE encoding of a ciphertext: the framed commitment, the framed tag, then the
/// framed symmetric ciphertext.
pub open spec fn ciphertext_encoding(commitment: Seq<u8>, auth_tag: Seq<u8>, ciphertext: Seq<u8>) -> Seq<u8> {
    scale_bytes(commitment) + scale_bytes(auth_tag) + scale_bytes(ciphertext)
}

impl<T> Ciphertext<T> {
    /// Appends the SCALE encoding of the ciphertext to `dest`. The symmetric ciphertext must
    /// be shorter than `2^32` bytes, as SCALE frames lengths in 32 bits.
    pub fn encode_to(&self, dest: &mut Vec<u8>)
        requires
            self.ciphertext@.len() < 0x1_0000_0000,
        ensures
            final(dest)@ == old(dest)@ + ciphertext_encoding(
                self.commitment@,
                self.auth_tag@,
                self.ciphertext@,
            ),
    {
        let ghost start = dest@;
        encode_g1(&self.commitment, dest);
        encode_g2(&self.auth_tag, dest);
        let enc = scale_encode_bytes(self.ciphertext.as_slice());
        append_bytes(dest, enc.as_slice());
        assert(dest@ =~= start + ciphertext_encoding(
            self.commitment@,
            self.auth_tag@,
            self.ciphertext@,
        ));
    }

    /// Reads a ciphertext from its SCALE encoding at the start of `input`, advancing `input`
    /// past it. The encoding of a ciphertext followed by any bytes reads back as that
    /// ciphertext, leaving those bytes.
    pub fn decode(input: &mut &[u8]) -> (res: Result<Self, Error>)
        ensures
            match read_g1(old(input)@) {
                Err(f) => res matches Err(e) && e == Error::ParityCodecError(f),
                Ok((c, r1)) => match read_g2(r1) {
                    Err(f) => res matches Err(e) && e == Error::ParityCodecError(f),
                    Ok((w, r2)) => match scale_decoding(r2) {
                        None => res matches Err(e) && e == Error::ParityCodecError(
                            CodecFailure::InvalidFrame,
                        ),
                        Some((ct, r3)) => res matches Ok(x) && x.commitment@ == c && x.auth_tag@
                            == w && x.ciphertext@ == ct && final(input)@ == r3,
                    },
                },
            },
            is_suffix(final(input)@, old(input)@),
            forall|c: Seq<u8>, w: Seq<u8>, ct: Seq<u8>, rest: Seq<u8>|
                #[trigger] (ciphertext_encoding(c, w, ct) + rest) == old(input)@ && c.len() == 48
                    && g1_decodes(c) && w.len() == 96 && g2_decodes(w) && ct.len() < 0x1_0000_0000
                    ==> (res matches Ok(x) && x.commitment@ == c && x.auth_tag@ == w
                    && x.ciphertext@ == ct) && final(input)@ == rest,
    {
        let ghost in0 = *input;
        let commitment = match decode_g1(input) {
            Ok(p) => p,
            Err(e) => {
                proof {
                    assert forall|c: Seq<u8>, w: Seq<u8>, ct: Seq<u8>, rest: Seq<u8>|
                        #[trigger] (ciphertext_encoding(c, w, ct) + rest) == in0@ && c.len() == 48
                            && g1_decodes(c) implies false by {
                        assert(ciphertext_encoding(c, w, ct) + rest =~= scale_bytes(c) + (
                        scale_bytes(w) + (scale_bytes(ct) + rest)));
                    }
                }
                return Err(e);
            },
        };
        let ghost in1 = *input;
        let auth_tag = match decode_g2(input) {
            Ok(p) => p,
            Err(e) => {
                proof {
                    lemma_suffix_trans(in1@, in0@, (*input)@);
                    assert forall|c: Seq<u8>, w: Seq<u8>, ct: Seq<u8>, rest: Seq<u8>|
                        #[trigger] (ciphertext_encoding(c, w, ct) + rest) == in0@ && c.len() == 48
                            && g1_decodes(c) && w.len() == 96 && g2_decodes(w) implies false by {
                        assert(ciphertext_encoding(c, w, ct) + rest =~= scale_bytes(c) + (
                        scale_bytes(w) + (scale_bytes(ct) + rest)));
                        assert(in1@ == scale_bytes(w) + (scale_bytes(ct) + rest));
                    }
                }
                return Err(e);
            },
        };
        let ghost in2 = *input;
        proof {
            lemma_suffix_trans(in1@, in0@, in2@);
            assert forall|c: Seq<u8>, w: Seq<u8>, ct: Seq<u8>, rest: Seq<u8>|
                #[trigger] (ciphertext_encoding(c, w, ct) + rest) == in0@ && c.len() == 48
                    && g1_decodes(c) && w.len() == 96 && g2_decodes(w) implies commitment@ == c
                && auth_tag@ == w && in2@ == scale_bytes(ct) + rest by {
                assert(ciphertext_encoding(c, w, ct) + rest =~= scale_bytes(c) + (scale_bytes(w)
                    + (scale_bytes(ct) + rest)));
                assert(in1@ == scale_bytes(w) + (scale_bytes(ct) + rest));
            }
        }
        let (read, rest) = scale_decode_bytes(*input);
        *input = rest;
        proof {
            lemma_suffix_trans(in2@, in0@, rest@);
        }
        let ciphertext = match read {
            Some(v) => v,
            None => {
                return Err(Error::ParityCodecError(CodecFailure::InvalidFrame));
            },
        };
        Ok(Ciphertext { commitment, auth_tag, ciphertext, _type: PhantomData })
    }
}

/// A suffix of a suffix is a suffix.
pub(crate) proof fn lemma_suffix_trans(mid: Seq<u8>, whole: Seq<u8>, end: Seq<u8>)
    requires
        is_suffix(mid, whole),
        is_suffix(end, mid),
    ensures
        is_suffix(end, whole),
{
    assert(whole.subrange(whole.len() - end.len(), whole.len() as int) =~= mid.subrange(
        mid.len() - end.len(),
        mid.len() as int,
    ));
}

} // verus!
