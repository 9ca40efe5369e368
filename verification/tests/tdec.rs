use ark_ec::pairing::Pairing;
use ark_ec::{AffineRepr, CurveGroup};
use ark_ff::UniformRand;
use ark_serialize::{CanonicalDeserialize, CanonicalSerialize};
use ferveo_tdec::{
    create_shared_secret_simple, deal, decrypt, decrypt_raw, deserialize_g1, deserialize_target,
    encrypt, encrypt_raw, share_combine_precomputed, verify_decryption_shares_simple, Ciphertext,
    DealerOutput, DecryptionSharePrecomputed, DecryptionShareSimple, RawCiphertext, SharedSecret,
};
use rand::rngs::StdRng;
use rand::seq::IteratorRandom;
use rand::SeedableRng;

type E = ark_bls12_381::Bls12_381;

fn test_rng() -> StdRng {
    StdRng::seed_from_u64(0)
}

fn test_ciphertext_validation_fails(
    aad: &[u8],
    ciphertext: &RawCiphertext,
    shared_secret: &SharedSecret,
) {
    // Malformed the ciphertext
    let mut ciphertext = ciphertext.clone();
    ciphertext.ciphertext[0] += 1;
    assert!(decrypt_raw(&ciphertext, aad, shared_secret).is_err());

    // Malformed the AAD
    let aad = "bad aad".as_bytes();
    assert!(decrypt_raw(&ciphertext, aad, shared_secret).is_err());
}

#[test]
fn ciphertext_serialization() {
    let rng = &mut test_rng();
    let shares_num = 16;
    let threshold = shares_num * 2 / 3;
    let msg = "my-msg".as_bytes().to_vec();
    let aad: &[u8] = "my-aad".as_bytes();

    let DealerOutput { public_key: pubkey, .. } = deal(shares_num, threshold, rng);

    let ciphertext = encrypt_raw(&msg, aad, &pubkey, rng).unwrap();

    let mut serialized = Vec::new();
    ciphertext.encode_to(&mut serialized);
    let mut input = serialized.as_slice();
    let deserialized: RawCiphertext = Ciphertext::decode(&mut input).unwrap();
    assert!(input.is_empty());

    let mut again = Vec::new();
    deserialized.encode_to(&mut again);
    assert_eq!(serialized, again)
}

#[test]
fn tdec_simple_variant_share_validation() {
    let rng = &mut test_rng();
    let shares_num = 16;
    let threshold = shares_num * 2 / 3;
    let msg = "my-msg".as_bytes().to_vec();
    let aad: &[u8] = "my-aad".as_bytes();

    let DealerOutput { public_key: pubkey, private_contexts: contexts, .. } =
        deal(shares_num, threshold, rng);
    let ciphertext = encrypt_raw(&msg, aad, &pubkey, rng).unwrap();

    let bad_aad = "bad aad".as_bytes();
    assert!(contexts[0].create_share(&ciphertext.header(), bad_aad).is_err());
}

#[test]
fn tdec_simple_variant_e2e() {
    let rng = &mut test_rng();
    let shares_num = 16;
    let threshold = shares_num * 2 / 3;
    let msg = String::from("my-msg");
    let aad: &[u8] = "my-aad".as_bytes();

    let DealerOutput { public_key: pubkey, private_contexts: contexts, .. } =
        deal(shares_num, threshold, rng);

    let ciphertext = encrypt_raw(msg.as_bytes(), aad, &pubkey, rng).unwrap();

    // We need at least threshold shares to decrypt
    let decryption_shares: Vec<_> = contexts
        .iter()
        .map(|c| c.create_share(&ciphertext.header(), aad).unwrap())
        .take(threshold)
        .collect();
    let selected_contexts = contexts[0].public_decryption_contexts[..threshold].to_vec();
    let shared_secret = create_shared_secret_simple(&selected_contexts, &decryption_shares);

    let plaintext = decrypt_raw(&ciphertext, aad, &shared_secret).unwrap();
    assert_eq!(plaintext, msg.as_bytes());

    test_ciphertext_validation_fails(aad, &ciphertext, &shared_secret);

    // If we use less than threshold shares, we should fail
    let not_enough_dec_shares = decryption_shares[..threshold - 1].to_vec();
    let not_enough_contexts = selected_contexts[..threshold - 1].to_vec();
    let bash_shared_secret =
        create_shared_secret_simple(&not_enough_contexts, &not_enough_dec_shares);
    let result = decrypt_raw(&ciphertext, aad, &bash_shared_secret);
    assert!(result.is_err());
}

#[test]
fn tdec_simple_variant_codec_e2e() {
    let rng = &mut test_rng();
    let shares_num = 16;
    let threshold = shares_num * 2 / 3;
    let msg = "my-msg".to_string();
    let aad = "my-aad".as_bytes();

    let DealerOutput { public_key: pubkey, private_contexts: contexts, .. } =
        deal(shares_num, threshold, rng);

    let ciphertext = encrypt(&msg, aad, &pubkey, rng).unwrap();

    let decryption_shares: Vec<_> = contexts
        .iter()
        .map(|c| c.create_share(&ciphertext.header(), aad).unwrap())
        .take(threshold)
        .collect();
    let selected_contexts = contexts[0].public_decryption_contexts[..threshold].to_vec();
    let shared_secret = create_shared_secret_simple(&selected_contexts, &decryption_shares);

    let plaintext: String = decrypt(&ciphertext, aad, &shared_secret).unwrap();
    assert_eq!(plaintext, msg);
}

#[test]
fn tdec_precomputed_variant_e2e() {
    let rng = &mut test_rng();
    let shares_num = 16;
    let threshold = shares_num * 2 / 3;
    let msg = "my-msg".as_bytes().to_vec();
    let aad: &[u8] = "my-aad".as_bytes();

    let DealerOutput { public_key: pubkey, private_contexts: contexts, .. } =
        deal(shares_num, threshold, rng);
    let ciphertext = encrypt_raw(&msg, aad, &pubkey, rng).unwrap();

    let selected_participants = (0..threshold).choose_multiple(rng, threshold);
    let selected_contexts = contexts
        .iter()
        .filter(|c| selected_participants.contains(&c.index))
        .cloned()
        .collect::<Vec<_>>();

    let decryption_shares = selected_contexts
        .iter()
        .map(|context| {
            context
                .create_share_precomputed(&ciphertext.header(), aad, &selected_participants)
                .unwrap()
        })
        .collect::<Vec<DecryptionSharePrecomputed>>();

    let shared_secret = share_combine_precomputed(&decryption_shares);
    let plaintext = decrypt_raw(&ciphertext, aad, &shared_secret).unwrap();
    assert_eq!(plaintext, msg);

    test_ciphertext_validation_fails(aad, &ciphertext, &shared_secret);

    // If we use less than threshold shares, we should fail
    let not_enough_dec_shares = decryption_shares[..threshold - 1].to_vec();
    let bash_shared_secret = share_combine_precomputed(&not_enough_dec_shares);
    let result = decrypt_raw(&ciphertext, aad, &bash_shared_secret);
    assert!(result.is_err());
}

#[test]
fn tdec_simple_variant_share_verification() {
    let rng = &mut test_rng();
    let shares_num = 16;
    let threshold = shares_num * 2 / 3;
    let msg = "my-msg".as_bytes().to_vec();
    let aad: &[u8] = "my-aad".as_bytes();

    let DealerOutput { public_key: pubkey, private_contexts: contexts, .. } =
        deal(shares_num, threshold, rng);

    let ciphertext = encrypt_raw(&msg, aad, &pubkey, rng).unwrap();

    let decryption_shares: Vec<_> = contexts
        .iter()
        .map(|c| c.create_share(&ciphertext.header(), aad).unwrap())
        .collect();

    let pub_contexts = &contexts[0].public_decryption_contexts;
    assert!(verify_decryption_shares_simple(pub_contexts, &ciphertext, &decryption_shares));

    // Now, let's test that verification fails if we one of the decryption shares is invalid.

    let mut has_bad_checksum: DecryptionShareSimple = decryption_shares[0];
    let checksum = <E as Pairing>::G1Affine::deserialize_compressed(
        &has_bad_checksum.validator_checksum.checksum.to_bytes()[..],
    )
    .unwrap();
    let bad = (checksum * <E as Pairing>::ScalarField::rand(rng)).into_affine();
    let mut bad_bytes = Vec::new();
    bad.serialize_compressed(&mut bad_bytes).unwrap();
    has_bad_checksum.validator_checksum.checksum = deserialize_g1(&bad_bytes).unwrap();

    assert!(!has_bad_checksum.verify(
        &pub_contexts[0].blinded_key_share.blinded_key_share,
        &pub_contexts[0].validator_public_key.encryption_key,
        &ciphertext,
    ));

    let mut has_bad_share: DecryptionShareSimple = decryption_shares[0];
    let share = <E as Pairing>::TargetField::deserialize_compressed(
        &has_bad_share.decryption_share.to_bytes()[..],
    )
    .unwrap();
    let bad = share * <E as Pairing>::TargetField::rand(rng);
    let mut bad_bytes = Vec::new();
    bad.serialize_compressed(&mut bad_bytes).unwrap();
    has_bad_share.decryption_share = deserialize_target(&bad_bytes).unwrap();

    assert!(!has_bad_share.verify(
        &pub_contexts[0].blinded_key_share.blinded_key_share,
        &pub_contexts[0].validator_public_key.encryption_key,
        &ciphertext,
    ));
}

#[test]
fn decryption_share_scale_round_trip() {
    let rng = &mut test_rng();
    let DealerOutput { public_key: pubkey, private_contexts: contexts, .. } = deal(4, 3, rng);
    let aad: &[u8] = "my-aad".as_bytes();
    let ciphertext = encrypt_raw(b"abc", aad, &pubkey, rng).unwrap();
    let share = contexts[1].create_share(&ciphertext.header(), aad).unwrap();

    let mut encoded = vec![7u8];
    share.encode_to(&mut encoded);
    assert_eq!(encoded.len(), 1 + (2 + 576) + (1 + 48));
    encoded.extend_from_slice(&[9, 9]);
    let mut input = &encoded[1..];
    let decoded = DecryptionShareSimple::decode(&mut input).unwrap();
    assert_eq!(decoded, share);
    assert_eq!(input, &[9u8, 9][..]);

    let mut truncated = &encoded[1..100];
    assert_eq!(
        DecryptionShareSimple::decode(&mut truncated),
        Err(ferveo_tdec::Error::ParityCodecError(ferveo_tdec::CodecFailure::InvalidFrame))
    );
}

#[test]
fn group_generators_encode_as_specified() {
    // The compressed encodings of the generators that the library's contracts name.
    let g1: [u8; 48] = [
        0x97, 0xf1, 0xd3, 0xa7, 0x31, 0x97, 0xd7, 0x94, 0x26, 0x95, 0x63, 0x8c, 0x4f, 0xa9, 0xac,
        0x0f, 0xc3, 0x68, 0x8c, 0x4f, 0x97, 0x74, 0xb9, 0x05, 0xa1, 0x4e, 0x3a, 0x3f, 0x17, 0x1b,
        0xac, 0x58, 0x6c, 0x55, 0xe8, 0x3f, 0xf9, 0x7a, 0x1a, 0xef, 0xfb, 0x3a, 0xf0, 0x0a, 0xdb,
        0x22, 0xc6, 0xbb,
    ];
    let g2: [u8; 96] = [
        0x93, 0xe0, 0x2b, 0x60, 0x52, 0x71, 0x9f, 0x60, 0x7d, 0xac, 0xd3, 0xa0, 0x88, 0x27, 0x4f,
        0x65, 0x59, 0x6b, 0xd0, 0xd0, 0x99, 0x20, 0xb6, 0x1a, 0xb5, 0xda, 0x61, 0xbb, 0xdc, 0x7f,
        0x50, 0x49, 0x33, 0x4c, 0xf1, 0x12, 0x13, 0x94, 0x5d, 0x57, 0xe5, 0xac, 0x7d, 0x05, 0x5d,
        0x04, 0x2b, 0x7e, 0x02, 0x4a, 0xa2, 0xb2, 0xf0, 0x8f, 0x0a, 0x91, 0x26, 0x08, 0x05, 0x27,
        0x2d, 0xc5, 0x10, 0x51, 0xc6, 0xe4, 0x7a, 0xd4, 0xfa, 0x40, 0x3b, 0x02, 0xb4, 0x51, 0x0b,
        0x64, 0x7a, 0xe3, 0xd1, 0x77, 0x0b, 0xac, 0x03, 0x26, 0xa8, 0x05, 0xbb, 0xef, 0xd4, 0x80,
        0x56, 0xc8, 0xc1, 0x21, 0xbd, 0xb8,
    ];
    let mut bytes = Vec::new();
    <E as Pairing>::G1Affine::generator().serialize_compressed(&mut bytes).unwrap();
    assert_eq!(bytes, g1.to_vec());
    let mut bytes = Vec::new();
    <E as Pairing>::G2Affine::generator().serialize_compressed(&mut bytes).unwrap();
    assert_eq!(bytes, g2.to_vec());

    // One of the target field: the integer one, then zeros.
    let mut one = vec![0u8; 576];
    one[0] = 1;
    let mut bytes = Vec::new();
    <<E as Pairing>::TargetField as ark_ff::One>::one().serialize_compressed(&mut bytes).unwrap();
    assert_eq!(bytes, one);
}

#[test]
fn invalid_header_is_refused_whatever_the_validator_key() {
    let rng = &mut test_rng();
    let DealerOutput { public_key, private_contexts, .. } = deal(4, 2, rng);
    let ciphertext = encrypt_raw(b"msg", b"aad", &public_key, rng).unwrap();
    let mut ctx = private_contexts[0].clone();
    ctx.validator_decryption_key = ferveo_tdec::Scalar::zero();
    assert_eq!(
        ctx.create_share(&ciphertext.header(), b"other aad"),
        Err(ferveo_tdec::Error::CiphertextVerificationFailed)
    );
    assert_eq!(
        ctx.create_share_precomputed(&ciphertext.header(), b"other aad", &[0, 1]),
        Err(ferveo_tdec::Error::CiphertextVerificationFailed)
    );
}

#[test]
fn honest_precomputed_share_with_coefficient_one_verifies() {
    let rng = &mut test_rng();
    let DealerOutput { public_key, private_contexts, .. } = deal(4, 2, rng);
    let ciphertext = encrypt_raw(b"msg", b"aad", &public_key, rng).unwrap();
    let ctx = &private_contexts[1];
    let public = &ctx.public_decryption_contexts[1];
    let share = DecryptionSharePrecomputed::create(
        1,
        &ctx.validator_decryption_key,
        &ctx.private_key_share,
        &ciphertext.header(),
        b"aad",
        &ferveo_tdec::Scalar::one(),
    )
    .unwrap();
    assert!(share.verify(
        &public.blinded_key_share.blinded_key_share,
        &public.validator_public_key.encryption_key,
        &ciphertext,
    ));
}
