use ark_bls12_381::Bls12_381;
use ark_ec::{pairing::Pairing, AffineRepr};
use ark_serialize::CanonicalSerialize;
use ferveo_tdec::{
    decode_g1, decode_g2, decode_target, deserialize_g1, deserialize_g2, deserialize_target,
    encode_g1, encode_g2, encode_target, serialize_g1, serialize_g2, serialize_target, CodecFailure, Error,
    SerializationFailure,
};
use parity_scale_codec::Encode;

type E = Bls12_381;

fn compressed<P: CanonicalSerialize>(p: &P) -> Vec<u8> {
    let mut bytes = Vec::new();
    p.serialize_compressed(&mut bytes).unwrap();
    bytes
}

#[test]
fn ark_points_round_trip_through_compressed_bytes() {
    let g1 = <E as Pairing>::G1Affine::generator();
    let g2 = <E as Pairing>::G2Affine::generator();
    let target = E::pairing(g1, g2).0;

    let p1 = deserialize_g1(&compressed(&g1)).unwrap();
    let p2 = deserialize_g2(&compressed(&g2)).unwrap();
    let pt = deserialize_target(&compressed(&target)).unwrap();

    assert_eq!(deserialize_g1(&serialize_g1(&p1)).unwrap(), p1);
    assert_eq!(deserialize_g2(&serialize_g2(&p2)).unwrap(), p2);
    assert_eq!(deserialize_target(&serialize_target(&pt)).unwrap(), pt);
    assert_eq!(serialize_g1(&p1), compressed(&g1));
    assert_eq!(serialize_g2(&p2), compressed(&g2));
    assert_eq!(serialize_target(&pt), compressed(&target));
}

#[test]
fn ark_points_round_trip_through_scale_codec() {
    let g1 = <E as Pairing>::G1Affine::generator();
    let g2 = <E as Pairing>::G2Affine::generator();
    let target = E::pairing(g1, g2).0;
    let p1 = deserialize_g1(&compressed(&g1)).unwrap();
    let p2 = deserialize_g2(&compressed(&g2)).unwrap();
    let pt = deserialize_target(&compressed(&target)).unwrap();
    let mut encoded = Vec::new();

    encode_g1(&p1, &mut encoded);
    encode_g2(&p2, &mut encoded);
    encode_target(&pt, &mut encoded);

    let expected = [
        serialize_g1(&p1).encode(),
        serialize_g2(&p2).encode(),
        serialize_target(&pt).encode(),
    ]
    .concat();
    assert_eq!(encoded, expected);

    let mut input = encoded.as_slice();
    assert_eq!(decode_g1(&mut input).unwrap(), p1);
    assert_eq!(decode_g2(&mut input).unwrap(), p2);
    assert_eq!(decode_target(&mut input).unwrap(), pt);
    assert!(input.is_empty());
}

#[test]
fn deserialization_refuses_bad_bytes() {
    assert!(deserialize_g1(&[0u8; 10]).is_err());
    // No compression flag: not a compressed encoding.
    assert_eq!(deserialize_g1(&[0u8; 48]), Err(SerializationFailure::UnexpectedFlags));
    let mut bad = vec![0u8; 96];
    bad[0] = 0x80;
    bad[95] = 1;
    assert!(deserialize_g2(&bad).is_err());
    // Extra bytes after the point are not read.
    let g1 = compressed(&<E as Pairing>::G1Affine::generator());
    let mut longer = g1.clone();
    longer.extend_from_slice(&[1, 2, 3]);
    assert_eq!(serialize_g1(&deserialize_g1(&longer).unwrap()), g1);
}

#[test]
fn scale_decoding_refuses_bad_frames() {
    // A frame that announces more bytes than there are.
    let mut input: &[u8] = &[48 * 4, 1, 2, 3];
    assert_eq!(decode_g1(&mut input), Err(Error::ParityCodecError(CodecFailure::InvalidFrame)));
    // A frame of the right length that is not a point.
    let mut framed = vec![48 * 4];
    framed.extend_from_slice(&[0u8; 48]);
    let mut input = framed.as_slice();
    assert_eq!(decode_g1(&mut input), Err(Error::ParityCodecError(CodecFailure::InvalidG1)));
    // Lengths of 64 and more take the two-byte compact form: `4 n + 1`, little-endian.
    let mut framed = (96u16 * 4 + 1).to_le_bytes().to_vec();
    framed.extend_from_slice(&[0u8; 96]);
    let mut input = framed.as_slice();
    assert_eq!(decode_g2(&mut input), Err(Error::ParityCodecError(CodecFailure::InvalidG2)));
    let mut framed = (576u16 * 4 + 1).to_le_bytes().to_vec();
    framed.extend_from_slice(&[0xffu8; 576]);
    let mut input = framed.as_slice();
    assert_eq!(
        decode_target(&mut input),
        Err(Error::ParityCodecError(CodecFailure::InvalidTarget))
    );
}
