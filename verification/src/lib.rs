//! Threshold decryption over the BLS12-381 pairing.
//!
//! A dealer shares a secret `a_0` among participants with a random polynomial; a message is
//! encrypted under the public key `[a_0] G`, and a threshold of participants produce
//! decryption shares that combine, with Lagrange coefficients, into the secret that
//! decrypts it.

pub mod bytes;
pub mod ciphertext;
pub mod codec;
pub mod combine;
pub mod context;
pub mod dealer;
pub mod decryption;
pub mod error;
pub mod field;
pub mod group;
pub mod hash_to_curve;
pub mod interpolation;
pub mod key_share;
pub mod keypair;
pub mod listing;
pub mod serialization;
pub mod threshold;

pub use ciphertext::{
    decrypt, decrypt_raw, decrypt_symmetric, decrypt_symmetric_raw, encrypt, encrypt_raw,
    encrypt_with_randomness, shared_secret_key, Ciphertext, CiphertextHeader, Nonce, Raw,
    RawCiphertext,
};
pub use codec::Codec;
pub use combine::{
    lagrange_coefficients_at, prepare_combine_simple, share_combine_precomputed,
    share_combine_simple, SharedSecret,
};
pub use context::{PrivateDecryptionContextSimple, PublicDecryptionContextSimple};
pub use dealer::{create_shared_secret_simple, deal, deal_with_randomness, DealerOutput};
pub use decryption::{
    verify_decryption_shares_simple, DecryptionSharePrecomputed, DecryptionShareSimple,
    ValidatorShareChecksum,
};
pub use error::{CodecFailure, Error, SerializationFailure};
pub use field::Scalar;
pub use group::{deserialize_g1, deserialize_g2, deserialize_target, G1Point, G2Point, Gt};
pub use hash_to_curve::{htp_bls12381_g2, HTP_BLS12381_G2_DST};
pub use key_share::{BlindedKeyShare, DkgPublicKey, PrivateKeyShare, ShareCommitment};
pub use keypair::{Keypair, PublicKey};
pub use serialization::{
    decode_g1, decode_g2, decode_target, encode_g1, encode_g2, encode_target, serialize_g1,
    serialize_g2, serialize_target,
};
