//! Encoding of typed plaintexts.

use crate::error::{CodecFailure, Error};
use crate::serialization::{scale_bytes, scale_decode_bytes, scale_decoding, scale_encode_bytes};
use vstd::prelude::*;
use vstd::string::*;
use vstd::utf8::*;

verus! {

/// Encoding contract for typed plaintext wrappers.
///
/// The byte-oriented encryption API remains the interoperability boundary.
/// Implement this trait for types that need typed encrypt/decrypt helpers.
pub trait Codec: Sized {
    /// The encoding of the value, or the error that encoding it gives.
    spec fn encoding(&self) -> Result<Seq<u8>, Error>;

    /// `res` is what decoding `bytes` gives.
    spec fn decodes_as(bytes: Seq<u8>, res: Result<Self, Error>) -> bool;

    fn encode(&self) -> (res: Result<Vec<u8>, Error>)
        ensures
            match res {
                Ok(v) => self.encoding() == Ok::<Seq<u8>, Error>(v@),
                Err(e) => self.encoding() == Err::<Seq<u8>, Error>(e),
            },
    ;

    fn decode(bytes: &[u8]) -> (res: Result<Self, Error>)
        ensures
            Self::decodes_as(bytes@, res),
    ;
}

/// `String::from_utf8`: the text that valid UTF-8 bytes encode, or nothing for invalid bytes.
#[verifier::external_body]
fn string_from_utf8(bytes: Vec<u8>) -> (res: Option<String>)
    ensures
        res is Some <==> valid_utf8(bytes@),
        res matches Some(s) ==> s@ == decode_utf8(bytes@),
{
    String::from_utf8(bytes).ok()
}

/// Byte strings are encoded with SCALE: their compact length, then their bytes.
impl Codec for Vec<u8> {
    /// The SCALE encoding of the bytes; SCALE cannot frame `2^32` bytes or more.
    open spec fn encoding(&self) -> Result<Seq<u8>, Error> {
        if self@.len() < 0x1_0000_0000 {
            Ok(scale_bytes(self@))
        } else {
            Err(Error::ParityCodecError(CodecFailure::LengthOverflow))
        }
    }

    /// The bytes SCALE-framed at the start of `bytes`, what follows them ignored, or
    /// `InvalidFrame`; the encoding of bytes decodes back to them.
    open spec fn decodes_as(bytes: Seq<u8>, res: Result<Vec<u8>, Error>) -> bool {
        &&& match scale_decoding(bytes) {
            Some((v, _)) => res matches Ok(w) && w@ == v,
            None => res == Err::<Vec<u8>, Error>(Error::ParityCodecError(CodecFailure::InvalidFrame)),
        }
        &&& forall|v: Seq<u8>, rest: Seq<u8>|
            #[trigger] (scale_bytes(v) + rest) == bytes && v.len() < 0x1_0000_0000 ==> (res
                matches Ok(w) && w@ == v)
    }

    fn encode(&self) -> (res: Result<Vec<u8>, Error>) {
        if self.len() as u64 >= 0x1_0000_0000u64 {
            return Err(Error::ParityCodecError(CodecFailure::LengthOverflow));
        }
        Ok(scale_encode_bytes(self.as_slice()))
    }

    fn decode(bytes: &[u8]) -> (res: Result<Vec<u8>, Error>) {
        match scale_decode_bytes(bytes).0 {
            Some(v) => Ok(v),
            None => Err(Error::ParityCodecError(CodecFailure::InvalidFrame)),
        }
    }
}

/// Text is encoded with SCALE as its UTF-8 bytes.
impl Codec for String {
    /// The SCALE encoding of the UTF-8 bytes of the text; SCALE cannot frame `2^32` bytes
    /// or more.
    open spec fn encoding(&self) -> Result<Seq<u8>, Error> {
        if encode_utf8(self@).len() < 0x1_0000_0000 {
            Ok(scale_bytes(encode_utf8(self@)))
        } else {
            Err(Error::ParityCodecError(CodecFailure::LengthOverflow))
        }
    }

    /// The text whose UTF-8 bytes are SCALE-framed at the start of `bytes`, what follows
    /// them ignored; `InvalidFrame` without a frame, `InvalidUtf8` for bytes that are not
    /// UTF-8. The encoding of a text decodes back to it.
    open spec fn decodes_as(bytes: Seq<u8>, res: Result<String, Error>) -> bool {
        &&& match scale_decoding(bytes) {
            Some((v, _)) => if valid_utf8(v) {
                res matches Ok(s) && s@ == decode_utf8(v)
            } else {
                res == Err::<String, Error>(Error::ParityCodecError(CodecFailure::InvalidUtf8))
            },
            None => res == Err::<String, Error>(Error::ParityCodecError(CodecFailure::InvalidFrame)),
        }
        &&& forall|text: Seq<char>, rest: Seq<u8>|
            #[trigger] (scale_bytes(encode_utf8(text)) + rest) == bytes && encode_utf8(text).len()
                < 0x1_0000_0000 ==> (res matches Ok(s) && s@ == text)
    }

    fn encode(&self) -> (res: Result<Vec<u8>, Error>) {
        let utf8 = self.as_str().as_bytes();
        if utf8.len() as u64 >= 0x1_0000_0000u64 {
            return Err(Error::ParityCodecError(CodecFailure::LengthOverflow));
        }
        Ok(scale_encode_bytes(utf8))
    }

    fn decode(bytes: &[u8]) -> (res: Result<String, Error>) {
        broadcast use {encode_utf8_valid_utf8, encode_utf8_decode_utf8};

        match scale_decode_bytes(bytes).0 {
            Some(v) => match string_from_utf8(v) {
                Some(s) => Ok(s),
                None => Err(Error::ParityCodecError(CodecFailure::InvalidUtf8)),
            },
            None => Err(Error::ParityCodecError(CodecFailure::InvalidFrame)),
        }
    }
}

/// Decoding undoes encoding for byte strings: whatever decodes from the encoding of `v`
/// is `Ok` of `v`.
pub proof fn lemma_bytes_round_trip(v: Vec<u8>, res: Result<Vec<u8>, Error>)
    requires
        v.encoding() is Ok,
        <Vec<u8> as Codec>::decodes_as(v.encoding()->Ok_0, res),
    ensures
        res matches Ok(w) && w@ == v@,
{
    let enc = scale_bytes(v@);
    assert(enc + Seq::<u8>::empty() =~= enc);
    assert((scale_bytes(v@) + Seq::<u8>::empty()) == v.encoding()->Ok_0);
}

/// Decoding undoes encoding for text: whatever decodes from the encoding of `t` is `Ok` of
/// `t`.
pub proof fn lemma_text_round_trip(t: String, res: Result<String, Error>)
    requires
        t.encoding() is Ok,
        <String as Codec>::decodes_as(t.encoding()->Ok_0, res),
    ensures
        res matches Ok(s) && s@ == t@,
{
    let enc = scale_bytes(encode_utf8(t@));
    assert(enc + Seq::<u8>::empty() =~= enc);
    assert((scale_bytes(encode_utf8(t@)) + Seq::<u8>::empty()) == t.encoding()->Ok_0);
}

} // verus!
