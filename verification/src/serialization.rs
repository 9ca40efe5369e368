//! Canonical byte encodings of points, and their SCALE framing.

use parity_scale_codec::{Decode, Encode};
use crate::bytes::{append_bytes, to_vec};
use crate::error::{CodecFailure, SerializationFailure};
use crate::group::{
    deserialize_g1, deserialize_g2, deserialize_target, g1_decodes, g2_decodes, gt_decodes, G1Point,
    G2Point, Gt,
};
use vstd::prelude::*;

verus! {

/// Errors of the common serialization helpers.
#[derive(Clone, Copy, Debug, PartialEq, Eq)]
pub enum Error {
    InvalidByteLength { expected: usize, actual: usize },
    SerializationError(SerializationFailure),
    InvalidSeedLength(usize),
}

/// The `k` low bytes of `n`, least significant first.
pub open spec fn le_bytes(n: nat, k: nat) -> Seq<u8>
    decreases k,
{
    if k == 0 {
        seq![]
    } else {
        seq![(n % 256) as u8] + le_bytes(n / 256, (k - 1) as nat)
    }
}

/// The SCALE compact encoding of a length below `2^32`.
pub open spec fn compact_len(n: nat) -> Seq<u8> {
    if n < 64 {
        seq![(n * 4) as u8]
    } else if n < 16384 {
        le_bytes(n * 4 + 1, 2)
    } else if n < 1073741824 {
        le_bytes(n * 4 + 2, 4)
    } else {
        seq![3u8] + le_bytes(n, 4)
    }
}

/// The SCALE encoding of a byte vector: its compact length, then its bytes.
pub open spec fn scale_bytes(b: Seq<u8>) -> Seq<u8> {
    compact_len(b.len()) + b
}

/// What SCALE decoding of a byte vector from `input` gives: the vector and the input left
/// after it, when the input starts with the encoding of a vector shorter than `2^32` bytes
/// (a compact length in its canonical form, then that many bytes), or nothing.
pub open spec fn scale_decoding(input: Seq<u8>) -> Option<(Seq<u8>, Seq<u8>)> {
    if exists|b: Seq<u8>, rest: Seq<u8>|
        b.len() < 0x1_0000_0000 && #[trigger] (scale_bytes(b) + rest) == input {
        Some(
            choose|b: Seq<u8>, rest: Seq<u8>|
                b.len() < 0x1_0000_0000 && #[trigger] (scale_bytes(b) + rest) == input,
        )
    } else {
        None
    }
}

/// `<[u8] as Encode>::encode`, which panics on slices of `2^32` bytes or more. The contract
/// states the encoding.
#[verifier::external_body]
pub(crate) fn scale_encode_bytes(bytes: &[u8]) -> (res: Vec<u8>)
    requires
        bytes@.len() < 0x1_0000_0000,
    ensures
        res@ == scale_bytes(bytes@),
{
    bytes.encode()
}

/// `<Vec<u8> as Decode>::decode(&mut rest)`: the vector read, or nothing, and what is left
/// of the input, after a failed read too (a read consumes the input from the front, and a
/// failed one keeps what it consumed). The contract claims that the read gives
/// [scale_decoding] of the input (compact lengths are read only in their canonical form, so
/// an input starts with the encoding of at most one vector), and that the encoding of a
/// vector followed by any bytes reads back as that vector and those bytes. How much a failed
/// read consumes is left unsaid.
#[verifier::external_body]
pub(crate) fn scale_decode_bytes(input: &[u8]) -> (res: (Option<Vec<u8>>, &[u8]))
    ensures
        match res.0 {
            Some(v) => scale_decoding(input@) == Some((v@, res.1@)) && v@.len()
                < 0x1_0000_0000 && input@ == scale_bytes(v@) + res.1@,
            None => scale_decoding(input@) is None,
        },
        is_suffix(res.1@, input@),
        forall|b: Seq<u8>, rest: Seq<u8>|
            #[trigger] (scale_bytes(b) + rest) == input@ && b.len() < 0x1_0000_0000 ==> res.0
                is Some && res.0.unwrap()@ == b && res.1@ == rest,
{
    let mut rest = input;
    let v = <Vec<u8> as Decode>::decode(&mut rest).ok();
    (v, rest)
}

/// The canonical compressed encoding of a point of G1.
pub fn serialize_g1(point: &G1Point) -> (res: Vec<u8>)
    ensures
        res@ == point@,
        res@.len() == 48,
        g1_decodes(res@),
{
    to_vec(&point.to_bytes())
}

/// The canonical compressed encoding of a point of G2.
pub fn serialize_g2(point: &G2Point) -> (res: Vec<u8>)
    ensures
        res@ == point@,
        res@.len() == 96,
        g2_decodes(res@),
{
    to_vec(&point.to_bytes())
}

/// The canonical encoding of an element of the target field.
pub fn serialize_target(point: &Gt) -> (res: Vec<u8>)
    ensures
        res@ == point@,
        res@.len() == 576,
        gt_decodes(res@),
{
    to_vec(&point.to_bytes())
}

/// Appends the SCALE encoding of the point's canonical bytes to `dest`.
pub fn encode_g1(point: &G1Point, dest: &mut Vec<u8>)
    ensures
        final(dest)@ == old(dest)@ + scale_bytes(point@),
{
    let bytes = point.to_bytes();
    let enc = scale_encode_bytes(&bytes);
    append_bytes(dest, enc.as_slice());
}

/// Appends the SCALE encoding of the point's canonical bytes to `dest`.
pub fn encode_g2(point: &G2Point, dest: &mut Vec<u8>)
    ensures
        final(dest)@ == old(dest)@ + scale_bytes(point@),
{
    let bytes = point.to_bytes();
    let enc = scale_encode_bytes(&bytes);
    append_bytes(dest, enc.as_slice());
}

/// Appends the SCALE encoding of the element's canonical bytes to `dest`.
pub fn encode_target(point: &Gt, dest: &mut Vec<u8>)
    ensures
        final(dest)@ == old(dest)@ + scale_bytes(point@),
{
    let bytes = point.to_bytes();
    let enc = scale_encode_bytes(&bytes);
    append_bytes(dest, enc.as_slice());
}


/// What reading a SCALE-framed G1 point from `input` gives: the encoding of the point (the
/// first 48 bytes of the framed vector) and the input after the vector, or which item failed.
pub open spec fn read_g1(input: Seq<u8>) -> Result<(Seq<u8>, Seq<u8>), CodecFailure> {
    match scale_decoding(input) {
        Some((b, rest)) => if b.len() >= 48 && g1_decodes(b.take(48)) {
            Ok((b.take(48), rest))
        } else {
            Err(CodecFailure::InvalidG1)
        },
        None => Err(CodecFailure::InvalidFrame),
    }
}

/// What reading a SCALE-framed G2 point from `input` gives: the encoding of the point (the
/// first 96 bytes of the framed vector) and the input after the vector, or which item failed.
pub open spec fn read_g2(input: Seq<u8>) -> Result<(Seq<u8>, Seq<u8>), CodecFailure> {
    match scale_decoding(input) {
        Some((b, rest)) => if b.len() >= 96 && g2_decodes(b.take(96)) {
            Ok((b.take(96), rest))
        } else {
            Err(CodecFailure::InvalidG2)
        },
        None => Err(CodecFailure::InvalidFrame),
    }
}

/// What reading a SCALE-framed target-field element from `input` gives: its encoding (the
/// first 576 bytes of the framed vector) and the input after the vector, or which item failed.
pub open spec fn read_target(input: Seq<u8>) -> Result<(Seq<u8>, Seq<u8>), CodecFailure> {
    match scale_decoding(input) {
        Some((b, rest)) => if b.len() >= 576 && gt_decodes(b.take(576)) {
            Ok((b.take(576), rest))
        } else {
            Err(CodecFailure::InvalidTarget)
        },
        None => Err(CodecFailure::InvalidFrame),
    }
}

/// `s` ends `t`.
pub open spec fn is_suffix(s: Seq<u8>, t: Seq<u8>) -> bool {
    s.len() <= t.len() && t.subrange(t.len() - s.len(), t.len() as int) == s
}

/// Reads a SCALE-framed byte vector from `input`, advancing `input` past it, and reads a
/// point of G1 from its first 48 bytes. The framing of a point followed by any bytes
/// reads back as that point, leaving those bytes.
pub fn decode_g1(input: &mut &[u8]) -> (res: Result<G1Point, crate::error::Error>)
    ensures
        match read_g1(old(input)@) {
            Ok((p, rest)) => res matches Ok(q) && q@ == p && final(input)@ == rest,
            Err(f) => res == Err::<G1Point, crate::error::Error>(
                crate::error::Error::ParityCodecError(f),
            ),
        },
        is_suffix(final(input)@, old(input)@),
        forall|b: Seq<u8>, rest: Seq<u8>|
            #[trigger] (scale_bytes(b) + rest) == old(input)@ && b.len() == 48 && g1_decodes(b)
                ==> (res matches Ok(p) && p@ == b) && final(input)@ == rest,
{
    let (read, rest) = scale_decode_bytes(*input);
    *input = rest;
    let bytes = match read {
        Some(b) => b,
        None => {
            return Err(crate::error::Error::ParityCodecError(CodecFailure::InvalidFrame));
        },
    };
    proof {
        assert forall|b: Seq<u8>, r: Seq<u8>|
            #[trigger] (scale_bytes(b) + r) == old(input)@ && b.len() == 48 && g1_decodes(b) implies bytes@
                == b && rest@ == r by {
            assert(b.len() < 0x1_0000_0000);
        }
        assert forall|b: Seq<u8>| b.len() == 48 implies #[trigger] b.take(48) == b by {
            assert(b.take(48) =~= b);
        }
    }
    match deserialize_g1(bytes.as_slice()) {
        Ok(p) => Ok(p),
        Err(_) => Err(crate::error::Error::ParityCodecError(CodecFailure::InvalidG1)),
    }
}


/// Reads a SCALE-framed byte vector from `input`, advancing `input` past it, and reads a
/// point of G2 from its first 96 bytes. The framing of a point followed by any bytes
/// reads back as that point, leaving those bytes.
pub fn decode_g2(input: &mut &[u8]) -> (res: Result<G2Point, crate::error::Error>)
    ensures
        match read_g2(old(input)@) {
            Ok((p, rest)) => res matches Ok(q) && q@ == p && final(input)@ == rest,
            Err(f) => res == Err::<G2Point, crate::error::Error>(
                crate::error::Error::ParityCodecError(f),
            ),
        },
        is_suffix(final(input)@, old(input)@),
        forall|b: Seq<u8>, rest: Seq<u8>|
            #[trigger] (scale_bytes(b) + rest) == old(input)@ && b.len() == 96 && g2_decodes(b)
                ==> (res matches Ok(p) && p@ == b) && final(input)@ == rest,
{
    let (read, rest) = scale_decode_bytes(*input);
    *input = rest;
    let bytes = match read {
        Some(b) => b,
        None => {
            return Err(crate::error::Error::ParityCodecError(CodecFailure::InvalidFrame));
        },
    };
    proof {
        assert forall|b: Seq<u8>, r: Seq<u8>|
            #[trigger] (scale_bytes(b) + r) == old(input)@ && b.len() == 96 && g2_decodes(b) implies bytes@
                == b && rest@ == r by {
            assert(b.len() < 0x1_0000_0000);
        }
        assert forall|b: Seq<u8>| b.len() == 96 implies #[trigger] b.take(96) == b by {
            assert(b.take(96) =~= b);
        }
    }
    match deserialize_g2(bytes.as_slice()) {
        Ok(p) => Ok(p),
        Err(_) => Err(crate::error::Error::ParityCodecError(CodecFailure::InvalidG2)),
    }
}


/// Reads a SCALE-framed byte vector from `input`, advancing `input` past it, and reads a
/// target-field element from its first 576 bytes. The framing of an element followed by any
/// bytes reads back as that element, leaving those bytes.
pub fn decode_target(input: &mut &[u8]) -> (res: Result<Gt, crate::error::Error>)
    ensures
        match read_target(old(input)@) {
            Ok((p, rest)) => res matches Ok(q) && q@ == p && final(input)@ == rest,
            Err(f) => res == Err::<Gt, crate::error::Error>(
                crate::error::Error::ParityCodecError(f),
            ),
        },
        is_suffix(final(input)@, old(input)@),
        forall|b: Seq<u8>, rest: Seq<u8>|
            #[trigger] (scale_bytes(b) + rest) == old(input)@ && b.len() == 576 && gt_decodes(b)
                ==> (res matches Ok(p) && p@ == b) && final(input)@ == rest,
{
    let (read, rest) = scale_decode_bytes(*input);
    *input = rest;
    let bytes = match read {
        Some(b) => b,
        None => {
            return Err(crate::error::Error::ParityCodecError(CodecFailure::InvalidFrame));
        },
    };
    proof {
        assert forall|b: Seq<u8>, r: Seq<u8>|
            #[trigger] (scale_bytes(b) + r) == old(input)@ && b.len() == 576 && gt_decodes(b) implies bytes@
                == b && rest@ == r by {
            assert(b.len() < 0x1_0000_0000);
        }
        assert forall|b: Seq<u8>| b.len() == 576 implies #[trigger] b.take(576) == b by {
            assert(b.take(576) =~= b);
        }
    }
    match deserialize_target(bytes.as_slice()) {
        Ok(p) => Ok(p),
        Err(_) => Err(crate::error::Error::ParityCodecError(CodecFailure::InvalidTarget)),
    }
}

} // verus!
