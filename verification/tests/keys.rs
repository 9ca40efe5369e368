use ark_ec::{pairing::Pairing, AffineRepr, CurveGroup};
use ark_ff::{Field, PrimeField};
use ark_serialize::{CanonicalDeserialize, CanonicalSerialize};
use ferveo_tdec::{
    deal, lagrange_coefficients_at, prepare_combine_simple, BlindedKeyShare,
    Codec, CodecFailure, DealerOutput, DkgPublicKey, Error, Keypair, Scalar, SerializationFailure,
};
use rand::rngs::StdRng;
use rand::SeedableRng;
use std::collections::HashMap;
use std::str::FromStr;


/// The scalar of a machine integer, in the library's encoding.
fn scalar_from_u64(v: u64) -> Scalar {
    let mut bytes = [0u8; 32];
    ark_bls12_381::Fr::from(v).serialize_compressed(&mut bytes[..]).unwrap();
    Scalar { bytes }
}

type E = ark_bls12_381::Bls12_381;
type Fr = ark_bls12_381::Fr;

fn fr(s: &Scalar) -> Fr {
    Fr::from_le_bytes_mod_order(&s.bytes)
}

#[test]
fn public_key_text_round_trip() {
    let rng = &mut StdRng::seed_from_u64(2);
    let DealerOutput { public_key, .. } = deal(4, 2, rng);
    let text = public_key.to_string();
    assert!(text.starts_with("0x"));
    assert_eq!(text.len(), 2 + 96);
    assert_eq!(text, format!("0x{}", hex::encode(public_key.0.to_bytes())));
    assert_eq!(DkgPublicKey::from_hex(&text).unwrap(), public_key);
    assert_eq!(DkgPublicKey::from_str(&text[2..]).unwrap(), public_key);
    assert_eq!(DkgPublicKey::from_hex(&text.to_uppercase().replace("0X", "0x")).unwrap(), public_key);
}

#[test]
fn public_key_text_errors() {
    let g1 = hex::encode({
        let mut b = Vec::new();
        <E as Pairing>::G1Affine::generator().serialize_compressed(&mut b).unwrap();
        b
    });
    assert_eq!(DkgPublicKey::from_hex("0xabc"), Err(Error::HexError));
    assert_eq!(DkgPublicKey::from_hex("zz"), Err(Error::HexError));
    assert!(matches!(DkgPublicKey::from_hex("0x00"), Err(Error::ArkSerializeError(_))));
    assert_eq!(
        DkgPublicKey::from_hex(&"00".repeat(48)),
        Err(Error::ArkSerializeError(SerializationFailure::UnexpectedFlags))
    );
    assert_eq!(DkgPublicKey::from_hex(&format!("0x{}0102", g1)), Err(Error::TrailingBytes(2)));
    assert!(DkgPublicKey::from_hex(&g1).is_ok());
}

#[test]
fn lagrange_coefficients_interpolate_at_zero() {
    // Points 1, 2, 3: the coefficients at zero are 3, -3 and 1.
    let domain = [scalar_from_u64(1), scalar_from_u64(2), scalar_from_u64(3)];
    let coeffs = prepare_combine_simple(&domain);
    assert_eq!(coeffs.len(), 3);
    assert_eq!(fr(&coeffs[0]), Fr::from(3u64));
    assert_eq!(fr(&coeffs[1]), -Fr::from(3u64));
    assert_eq!(fr(&coeffs[2]), Fr::from(1u64));
    // They recover f(0) from f(1), f(2), f(3) for f(x) = 5 + 7x + 11x^2.
    let f = |x: u64| Fr::from(5u64 + 7 * x + 11 * x * x);
    let sum = fr(&coeffs[0]) * f(1) + fr(&coeffs[1]) * f(2) + fr(&coeffs[2]) * f(3);
    assert_eq!(sum, Fr::from(5u64));
    // At x = 1 the basis picks out the first point.
    let at_one = lagrange_coefficients_at(&domain, &scalar_from_u64(1)).unwrap();
    assert_eq!(fr(&at_one[0]), Fr::from(1u64));
    assert_eq!(fr(&at_one[1]), Fr::from(0u64));
    assert_eq!(fr(&at_one[2]), Fr::from(0u64));
    assert!(prepare_combine_simple(&[]).is_empty());
}

#[test]
fn unblinding_recovers_the_key_share() {
    let rng = &mut StdRng::seed_from_u64(3);
    let DealerOutput { private_contexts, .. } = deal(4, 3, rng);
    let ctx = &private_contexts[2];
    let public = &ctx.public_decryption_contexts[2];
    let keypair = Keypair { decryption_key: ctx.validator_decryption_key };
    let share = public.blinded_key_share.unblind(&keypair).unwrap();
    assert_eq!(share, ctx.private_key_share);
    // The blinded share is [b] Z.
    let z = <E as Pairing>::G2Affine::deserialize_compressed(&share.0.to_bytes()[..]).unwrap();
    let b = fr(&ctx.validator_decryption_key);
    let y = (z * b).into_affine();
    let mut y_bytes = Vec::new();
    y.serialize_compressed(&mut y_bytes).unwrap();
    assert_eq!(public.blinded_key_share.blinded_key_share.to_bytes().to_vec(), y_bytes);
    let _: BlindedKeyShare = public.blinded_key_share;
    assert!(b.inverse().is_some());
}

#[test]
fn precomputed_share_from_blinded_key_share() {
    let rng = &mut StdRng::seed_from_u64(4);
    let shares_num = 4;
    let threshold = 3;
    let DealerOutput { public_key, private_contexts, .. } = deal(shares_num, threshold, rng);
    let aad = b"aad";
    let ciphertext = ferveo_tdec::encrypt_raw(b"secret", aad, &public_key, rng).unwrap();
    // Participants 0, 1 and 3, keyed by share index; the map is walked in any order.
    let selected = [0usize, 1, 3];
    let mut map: HashMap<u32, Scalar> = HashMap::new();
    for i in selected {
        map.insert(i as u32, private_contexts[0].public_decryption_contexts[i].domain);
    }
    let mut shares = Vec::new();
    for i in selected {
        let ctx = &private_contexts[i];
        let keypair = Keypair { decryption_key: ctx.validator_decryption_key };
        let share = ctx.public_decryption_contexts[i]
            .blinded_key_share
            .create_decryption_share_precomputed(
                &ciphertext.header(),
                aad,
                &keypair,
                i as u32,
                &map,
            )
            .unwrap();
        assert_eq!(share.decrypter_index, i);
        shares.push(share);
    }
    let secret = ferveo_tdec::share_combine_precomputed(&shares);
    assert_eq!(
        ferveo_tdec::decrypt_raw(&ciphertext, aad, &secret).unwrap(),
        b"secret".to_vec()
    );
}

#[test]
fn codec_of_text_and_bytes() {
    let s = String::from("héllo");
    let enc = s.encode().unwrap();
    assert_eq!(enc[0], 6 * 4);
    assert_eq!(&enc[1..], "héllo".as_bytes());
    assert_eq!(String::decode(&enc).unwrap(), s);
    assert_eq!(
        String::decode(&[8, 0xff, 0xfe]),
        Err(Error::ParityCodecError(CodecFailure::InvalidUtf8))
    );
    assert_eq!(String::decode(&[]), Err(Error::ParityCodecError(CodecFailure::InvalidFrame)));
    let v = vec![1u8, 2, 3];
    let enc = Codec::encode(&v).unwrap();
    assert_eq!(enc, vec![12, 1, 2, 3]);
    assert_eq!(<Vec<u8> as Codec>::decode(&enc).unwrap(), v);
}

#[test]
fn dealt_contexts_fill_the_domain() {
    let rng = &mut StdRng::seed_from_u64(3);
    // The evaluation domain has the next power of two of the share count as its size.
    assert_eq!(deal(5, 2, rng).private_contexts.len(), 8);
    assert_eq!(deal(16, 10, rng).private_contexts.len(), 16);
    assert_eq!(deal(1, 1, rng).private_contexts.len(), 1);
}

#[test]
fn precomputed_share_ignores_the_map_order() {
    let rng = &mut StdRng::seed_from_u64(6);
    let DealerOutput { public_key, private_contexts, .. } = deal(8, 3, rng);
    let aad = b"aad";
    let ciphertext = ferveo_tdec::encrypt_raw(b"secret", aad, &public_key, rng).unwrap();
    let publics = &private_contexts[0].public_decryption_contexts;
    // The same entries, inserted in opposite orders and into maps of different capacities.
    let selected = [6usize, 2, 5, 0];
    let mut forward: HashMap<u32, Scalar> = HashMap::new();
    for i in selected {
        forward.insert(i as u32, publics[i].domain);
    }
    let mut backward: HashMap<u32, Scalar> = HashMap::with_capacity(64);
    for i in selected.iter().rev() {
        backward.insert(*i as u32, publics[*i].domain);
    }
    for i in selected {
        let ctx = &private_contexts[i];
        let keypair = Keypair { decryption_key: ctx.validator_decryption_key };
        let a = publics[i]
            .blinded_key_share
            .create_decryption_share_precomputed(&ciphertext.header(), aad, &keypair, i as u32, &forward)
            .unwrap();
        let b = publics[i]
            .blinded_key_share
            .create_decryption_share_precomputed(&ciphertext.header(), aad, &keypair, i as u32, &backward)
            .unwrap();
        assert_eq!(a, b);
    }
}
