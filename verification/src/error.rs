//! Errors of the library.

use vstd::prelude::*;

verus! {

/// Why a canonical encoding could not be read back, as arkworks reports it.
#[derive(Clone, Copy, Debug, PartialEq, Eq)]
pub enum SerializationFailure {
    NotEnoughSpace,
    InvalidData,
    UnexpectedFlags,
    IoError,
}

/// Which item a SCALE encoding could not give.
#[derive(Clone, Copy, Debug, PartialEq, Eq)]
pub enum CodecFailure {
    /// No framed byte vector could be read.
    InvalidFrame,
    /// The framed bytes are not a point of G1.
    InvalidG1,
    /// The framed bytes are not a point of G2.
    InvalidG2,
    /// The framed bytes are not an element of the target field.
    InvalidTarget,
    /// The framed bytes are not UTF-8 text.
    InvalidUtf8,
    /// The bytes are too many to frame: `2^32` or more.
    LengthOverflow,
}

/// Errors of threshold encryption and decryption.
#[derive(Clone, Copy, Debug, PartialEq, Eq)]
pub enum Error {
    /// The pairing check on a ciphertext failed.
    CiphertextVerificationFailed,
    /// A decryption share failed its verification.
    DecryptionShareVerificationFailed,
    /// The symmetric cipher refused to encrypt.
    SymmetricEncryptionError,
    /// A point or field element could not be read.
    ArkSerializeError(SerializationFailure),
    /// A SCALE-encoded value could not be read or written, and which item failed.
    ParityCodecError(CodecFailure),
    /// Text that should be hexadecimal is not.
    HexError,
    /// Bytes were left over after a value was read.
    TrailingBytes(usize),
}

} // verus!
