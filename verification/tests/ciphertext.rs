use ark_ec::pairing::Pairing;
use ark_serialize::CanonicalSerialize;
use ferveo_tdec::{
    deal, decrypt_symmetric, decrypt_symmetric_raw, deserialize_g1, deserialize_g2, encrypt,
    encrypt_raw, encrypt_with_randomness, shared_secret_key, Ciphertext,
    CodecFailure, DealerOutput, Error, RawCiphertext, Scalar, SharedSecret,
};
use rand::rngs::StdRng;
use rand::SeedableRng;
use sha2::Digest;
use std::marker::PhantomData;


/// The scalar of a machine integer, in the library's encoding.
fn scalar_from_u64(v: u64) -> Scalar {
    let mut bytes = [0u8; 32];
    ark_bls12_381::Fr::from(v).serialize_compressed(&mut bytes[..]).unwrap();
    Scalar { bytes }
}

type E = ark_bls12_381::Bls12_381;

fn test_rng() -> StdRng {
    StdRng::seed_from_u64(1)
}

#[test]
fn symmetric_encryption() {
    let rng = &mut test_rng();
    let shares_num = 16;
    let threshold = shares_num * 2 / 3;
    let msg = "my-msg".as_bytes().to_vec();
    let aad: &[u8] = "my-aad".as_bytes();

    let DealerOutput { public_key: pubkey, private_key: privkey, .. } =
        deal(shares_num, threshold, rng);

    let ciphertext = encrypt_raw(&msg, aad, &pubkey, rng).unwrap();

    let plaintext = decrypt_symmetric_raw(&ciphertext, aad, &privkey).unwrap();

    assert_eq!(msg, plaintext);

    let bad: &[u8] = "bad-aad".as_bytes();

    assert!(decrypt_symmetric_raw(&ciphertext, bad, &privkey).is_err());
}

#[test]
fn ciphertext_validity_check() {
    let rng = &mut test_rng();
    let shares_num = 16;
    let threshold = shares_num * 2 / 3;
    let msg = "my-msg".as_bytes().to_vec();
    let aad: &[u8] = "my-aad".as_bytes();
    let DealerOutput { public_key: pubkey, .. } = deal(shares_num, threshold, rng);
    let mut ciphertext = encrypt_raw(&msg, aad, &pubkey, rng).unwrap();

    // So far, the ciphertext is valid
    assert!(ciphertext.check(aad).is_ok());

    // Malformed the ciphertext
    ciphertext.ciphertext[0] += 1;
    assert!(ciphertext.check(aad).is_err());

    // Malformed the AAD
    let aad = "bad aad".as_bytes();
    assert!(ciphertext.check(aad).is_err());
}

fn identity_bytes(n: usize) -> Vec<u8> {
    // The compressed encoding of the point at infinity: the compression and infinity flags.
    let mut v = vec![0u8; n];
    v[0] = 0xc0;
    v
}

#[test]
fn ciphertext_serde_correct() {
    // The default points of arkworks are the identities; the ciphertext goes through its
    // SCALE encoding and back.
    let mut g1 = Vec::new();
    <E as Pairing>::G1Affine::default().serialize_compressed(&mut g1).unwrap();
    let mut g2 = Vec::new();
    <E as Pairing>::G2Affine::default().serialize_compressed(&mut g2).unwrap();
    assert_eq!(g1, identity_bytes(48));
    assert_eq!(g2, identity_bytes(96));
    let ciphertext = Ciphertext::<u64> {
        commitment: deserialize_g1(&g1).unwrap(),
        auth_tag: deserialize_g2(&g2).unwrap(),
        ciphertext: vec![1u8, 2u8, 3u8],
        _type: PhantomData,
    };

    let mut serialized = Vec::new();
    ciphertext.encode_to(&mut serialized);
    let mut input = serialized.as_slice();
    let deserialized: Ciphertext<u64> = Ciphertext::decode(&mut input).unwrap();

    assert_eq!(deserialized, ciphertext);
    // The framing: compact lengths 48 and 96 take one and two bytes, 3 takes one.
    assert_eq!(serialized.len(), (1 + 48) + (2 + 96) + (1 + 3));
    assert_eq!(serialized[0], 48 * 4);
    assert_eq!(&serialized[serialized.len() - 4..], &[12u8, 1, 2, 3][..]);
}

#[test]
fn ciphertext_decode_refuses_truncated_input() {
    let rng = &mut test_rng();
    let DealerOutput { public_key: pubkey, .. } = deal(4, 2, rng);
    let ciphertext = encrypt_raw(b"payload", b"aad", &pubkey, rng).unwrap();
    let mut serialized = Vec::new();
    ciphertext.encode_to(&mut serialized);
    let mut input = &serialized[..serialized.len() - 1];
    assert_eq!(
        RawCiphertext::decode(&mut input),
        Err(Error::ParityCodecError(CodecFailure::InvalidFrame))
    );
}

#[test]
fn ciphertext_decode_names_the_point_that_failed() {
    let rng = &mut test_rng();
    let DealerOutput { public_key: pubkey, .. } = deal(4, 2, rng);
    let ciphertext = encrypt_raw(b"payload", b"aad", &pubkey, rng).unwrap();
    let mut serialized = Vec::new();
    ciphertext.encode_to(&mut serialized);
    // The commitment's frame starts with one length byte, the tag's with two.
    let mut bad_commitment = serialized.clone();
    bad_commitment[1] = 0;
    let mut input = bad_commitment.as_slice();
    assert_eq!(
        RawCiphertext::decode(&mut input),
        Err(Error::ParityCodecError(CodecFailure::InvalidG1))
    );
    let mut bad_tag = serialized.clone();
    bad_tag[1 + 48 + 2] = 0;
    let mut input = bad_tag.as_slice();
    assert_eq!(
        RawCiphertext::decode(&mut input),
        Err(Error::ParityCodecError(CodecFailure::InvalidG2))
    );
}

#[test]
fn encryption_with_fixed_randomness_is_deterministic() {
    let rng = &mut test_rng();
    let DealerOutput { public_key: pubkey, private_key, .. } = deal(4, 2, rng);
    let r = scalar_from_u64(12345);
    let a: RawCiphertext = encrypt_with_randomness(b"hello", b"aad", &pubkey, &r).unwrap();
    let b: RawCiphertext = encrypt_with_randomness(b"hello", b"aad", &pubkey, &r).unwrap();
    assert_eq!(a, b);
    // The symmetric part is the message with a 16-byte tag.
    assert_eq!(a.ciphertext.len(), 5 + 16);
    assert_eq!(a.payload(), a.ciphertext);
    assert_eq!(decrypt_symmetric_raw(&a, b"aad", &private_key).unwrap(), b"hello".to_vec());
    let other: RawCiphertext =
        encrypt_with_randomness(b"hello", b"aad", &pubkey, &scalar_from_u64(12346)).unwrap();
    assert_ne!(a.commitment, other.commitment);
}

#[test]
fn header_digest_is_sha256_of_ciphertext() {
    let rng = &mut test_rng();
    let DealerOutput { public_key: pubkey, .. } = deal(4, 2, rng);
    let ciphertext = encrypt_raw(b"", b"", &pubkey, rng).unwrap();
    let header = ciphertext.header();
    assert_eq!(header.commitment, ciphertext.commitment);
    assert_eq!(header.auth_tag, ciphertext.auth_tag);
    let digest: [u8; 32] = sha2::Sha256::digest(&ciphertext.ciphertext).into();
    assert_eq!(header.ciphertext_hash, digest);
    assert_eq!(ciphertext.ciphertext_hash(), digest);
    assert_eq!(header.check(b""), Ok(true));
    assert_eq!(header.check(b"x"), Err(Error::CiphertextVerificationFailed));
}

#[test]
fn shared_secret_key_is_digest_of_encoding() {
    let rng = &mut test_rng();
    let DealerOutput { public_key: pubkey, private_key, .. } = deal(4, 2, rng);
    let ciphertext = encrypt_raw(b"m", b"", &pubkey, rng).unwrap();
    let share = ferveo_tdec::DecryptionShareSimple::create_unchecked(
        &scalar_from_u64(1),
        &private_key,
        &ciphertext.header(),
    )
    .unwrap();
    let secret = SharedSecret(share.decryption_share);
    let digest: [u8; 32] = sha2::Sha256::digest(&secret.0.to_bytes()[..]).into();
    assert_eq!(shared_secret_key(&secret), digest);
    assert_eq!(ferveo_tdec::decrypt_raw(&ciphertext, b"", &secret).unwrap(), b"m".to_vec());
}

#[test]
fn typed_symmetric_decryption() {
    let rng = &mut test_rng();
    let DealerOutput { public_key: pubkey, private_key, .. } = deal(4, 2, rng);
    let msg = String::from("typed");
    let ciphertext = encrypt(&msg, b"aad", &pubkey, rng).unwrap();
    let out: String = decrypt_symmetric(&ciphertext, b"aad", &private_key).unwrap();
    assert_eq!(out, msg);
    let err = decrypt_symmetric(&ciphertext, b"other", &private_key);
    assert_eq!(err, Err(Error::CiphertextVerificationFailed));
}

#[test]
fn typed_decryption_decodes_the_plaintext() {
    let rng = &mut test_rng();
    let DealerOutput { public_key: pubkey, private_key, .. } = deal(4, 2, rng);
    // A framed vector of three bytes that are not UTF-8.
    let raw = encrypt_raw(&[12, 0xff, 0xfe, 0xfd], b"aad", &pubkey, rng).unwrap();
    let as_text: Ciphertext<String> = Ciphertext {
        commitment: raw.commitment,
        auth_tag: raw.auth_tag,
        ciphertext: raw.ciphertext.clone(),
        _type: PhantomData,
    };
    assert_eq!(
        decrypt_symmetric::<String>(&as_text, b"aad", &private_key),
        Err(Error::ParityCodecError(CodecFailure::InvalidUtf8))
    );
    let as_bytes: Ciphertext<Vec<u8>> = Ciphertext {
        commitment: raw.commitment,
        auth_tag: raw.auth_tag,
        ciphertext: raw.ciphertext.clone(),
        _type: PhantomData,
    };
    assert_eq!(
        decrypt_symmetric::<Vec<u8>>(&as_bytes, b"aad", &private_key),
        Ok(vec![0xff, 0xfe, 0xfd])
    );
    // A failed decryption is returned before any decoding.
    assert_eq!(
        decrypt_symmetric::<Vec<u8>>(&as_bytes, b"other aad", &private_key),
        Err(Error::CiphertextVerificationFailed)
    );
}
