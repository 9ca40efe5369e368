use ark_ff::{Field, One, PrimeField};
use ark_serialize::{CanonicalDeserialize, CanonicalSerialize};
use ferveo_tdec::{
    create_shared_secret_simple, deal, decrypt_raw, decrypt_symmetric_raw, encrypt_raw,
    prepare_combine_simple, share_combine_simple, verify_decryption_shares_simple, DealerOutput,
    Keypair, Scalar,
};
use rand::rngs::StdRng;
use rand::SeedableRng;

type Fr = ark_bls12_381::Fr;

fn scalar_from_u64(v: u64) -> Scalar {
    let mut bytes = [0u8; 32];
    Fr::from(v).serialize_compressed(&mut bytes[..]).unwrap();
    Scalar { bytes }
}

fn fr(s: &Scalar) -> Fr {
    Fr::from_le_bytes_mod_order(&s.bytes)
}

#[test]
fn lagrange_coefficients_sum_to_one() {
    let domain: Vec<Scalar> = [3u64, 8, 21, 55, 144].iter().map(|v| scalar_from_u64(*v)).collect();
    let coeffs = prepare_combine_simple(&domain);
    let sum: Fr = coeffs.iter().map(fr).sum();
    assert_eq!(sum, Fr::one());
}

#[test]
fn dealing_gives_one_context_per_domain_point() {
    let rng = &mut StdRng::seed_from_u64(5);
    // Five shares need the evaluation domain of eight points.
    let DealerOutput { private_contexts, .. } = deal(5, 3, rng);
    assert_eq!(private_contexts.len(), 8);
    for (i, ctx) in private_contexts.iter().enumerate() {
        assert_eq!(ctx.index, i);
        assert_eq!(ctx.public_decryption_contexts.len(), 8);
        assert_eq!(ctx.public_decryption_contexts, private_contexts[0].public_decryption_contexts);
        let public = &ctx.public_decryption_contexts[i];
        assert_eq!(public.validator_public_key.encryption_key, public.blinded_key_share.validator_public_key);
    }
}

#[test]
fn any_threshold_subset_decrypts() {
    let rng = &mut StdRng::seed_from_u64(6);
    let DealerOutput { public_key, private_contexts, private_key } = deal(8, 3, rng);
    let aad = b"aad";
    let msg = b"any three of eight";
    let ciphertext = encrypt_raw(msg, aad, &public_key, rng).unwrap();
    assert_eq!(decrypt_symmetric_raw(&ciphertext, aad, &private_key).unwrap(), msg.to_vec());
    for subset in [[0usize, 1, 2], [5, 2, 7], [7, 6, 0], [1, 3, 5]] {
        let contexts: Vec<_> = subset
            .iter()
            .map(|i| private_contexts[0].public_decryption_contexts[*i])
            .collect();
        let shares: Vec<_> = subset
            .iter()
            .map(|i| private_contexts[*i].create_share(&ciphertext.header(), aad).unwrap())
            .collect();
        let secret = create_shared_secret_simple(&contexts, &shares);
        assert_eq!(decrypt_raw(&ciphertext, aad, &secret).unwrap(), msg.to_vec());
        // The same combination by hand.
        let domain: Vec<_> = contexts.iter().map(|c| c.domain).collect();
        let again = share_combine_simple(&shares, &prepare_combine_simple(&domain));
        assert_eq!(again, secret);
        // More shares than the threshold decrypt as well.
    }
    let all: Vec<_> = private_contexts
        .iter()
        .map(|c| c.create_share(&ciphertext.header(), aad).unwrap())
        .collect();
    let secret = create_shared_secret_simple(&private_contexts[0].public_decryption_contexts, &all);
    assert_eq!(decrypt_raw(&ciphertext, aad, &secret).unwrap(), msg.to_vec());
}

#[test]
fn shares_from_blinded_key_shares_match() {
    let rng = &mut StdRng::seed_from_u64(7);
    let DealerOutput { public_key, private_contexts, .. } = deal(4, 2, rng);
    let aad = b"";
    let ciphertext = encrypt_raw(b"x", aad, &public_key, rng).unwrap();
    let header = ciphertext.header();
    for ctx in &private_contexts {
        let keypair = Keypair { decryption_key: ctx.validator_decryption_key };
        let blinded = ctx.public_decryption_contexts[ctx.index].blinded_key_share;
        let a = blinded.create_decryption_share_simple(&header, aad, &keypair).unwrap();
        let b = ctx.create_share(&header, aad).unwrap();
        assert_eq!(a, b);
        assert!(a.verify(
            &blinded.blinded_key_share,
            &blinded.validator_public_key,
            &ciphertext
        ));
        // A share does not verify against another participant's keys.
        let other = ctx.public_decryption_contexts[(ctx.index + 1) % 4].blinded_key_share;
        assert!(!a.verify(&other.blinded_key_share, &other.validator_public_key, &ciphertext));
    }
    let shares: Vec<_> =
        private_contexts.iter().map(|c| c.create_share(&header, aad).unwrap()).collect();
    let mut swapped = shares.clone();
    swapped.swap(0, 1);
    let publics = &private_contexts[0].public_decryption_contexts;
    assert!(verify_decryption_shares_simple(publics, &ciphertext, &shares));
    assert!(!verify_decryption_shares_simple(publics, &ciphertext, &swapped));
    // Only as many shares as contexts are looked at.
    assert!(verify_decryption_shares_simple(&publics[..2], &ciphertext, &swapped[2..]) == false);
    assert!(verify_decryption_shares_simple(&publics[..0], &ciphertext, &swapped));
}

#[test]
fn precomputed_share_is_simple_share_to_the_coefficient() {
    let rng = &mut StdRng::seed_from_u64(7);
    let DealerOutput { public_key, private_key, .. } = deal(4, 2, rng);
    let ciphertext = encrypt_raw(b"m", b"aad", &public_key, rng).unwrap();
    let header = ciphertext.header();
    let dk = scalar_from_u64(9);
    let simple =
        ferveo_tdec::DecryptionShareSimple::create_unchecked(&dk, &private_key, &header).unwrap();
    let with_one = ferveo_tdec::DecryptionSharePrecomputed::create_unchecked(
        0,
        &dk,
        &private_key,
        &header,
        &scalar_from_u64(1),
    )
    .unwrap();
    assert_eq!(with_one.decryption_share, simple.decryption_share);
    let lam = scalar_from_u64(12345);
    let with_lam = ferveo_tdec::DecryptionSharePrecomputed::create_unchecked(
        0,
        &dk,
        &private_key,
        &header,
        &lam,
    )
    .unwrap();
    let gt = |b: &[u8; 576]| ark_bls12_381::Fq12::deserialize_compressed(&b[..]).unwrap();
    let powered = gt(&simple.decryption_share.to_bytes()).pow(fr(&lam).into_bigint());
    assert_eq!(gt(&with_lam.decryption_share.to_bytes()), powered);
}
