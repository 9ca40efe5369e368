//! Keys of the threshold scheme.

use crate::ciphertext::{header_is_valid, CiphertextHeader};
use std::collections::HashMap;
use crate::combine::{lagrange_coefficient, prepare_combine_simple, scalar_values};
use crate::decryption::{DecryptionSharePrecomputed, DecryptionShareSimple};
use crate::field::Scalar;
use crate::listing::{
    is_sorted_listing, key_listed, lemma_is_the_sorted_listing, sorted_entries, sorted_listing,
    sorted_position,
};
use crate::error::Error;
use crate::field::{fr_inverse, scalar_inverse, scalar_modulus};
use crate::group::{
    g1_generator_bytes, g1_smul, g2_generator_bytes, g2_mul, g2_smul, pairing_named, target_exp,
    G1Point, G2Point,
};
use crate::combine::differences_invertible;
use crate::keypair::Keypair;
use crate::group::{deserialize_g1, g1_decodes};
use vstd::prelude::*;
use vstd::string::*;
use vstd::utf8::*;

verus! {

/// Public key produced by the dealer setup: `[a_0] G` for the shared secret `a_0`.
#[derive(Clone, Copy, Debug, PartialEq, Eq)]
pub struct DkgPublicKey(pub G1Point);

/// Commitment `[f(omega_i)] G` to a participant's key share.
#[derive(Clone, Copy, Debug, PartialEq, Eq)]
pub struct ShareCommitment(pub G1Point);

/// A participant's key share `Z_i` blinded by their validator key `b`.
#[derive(Clone, Copy, Debug, PartialEq, Eq)]
pub struct BlindedKeyShare {
    /// `[b] H`.
    pub validator_public_key: G2Point,
    /// `[b] Z_i`.
    pub blinded_key_share: G2Point,
}

/// A private key share `Z_i = [f(omega_i)] H` (or the whole key `[a_0] H`).
#[derive(Clone, Copy, Debug, PartialEq, Eq)]
pub struct PrivateKeyShare(pub G2Point);


impl BlindedKeyShare {
    /// Unblinds the key share with the validator's key: `[dk^{-1}] Y`. For a share blinded
    /// as `Y = [dk] Z`, this gives back `Z`.
    pub fn unblind(&self, validator_keypair: &Keypair) -> (res: Result<PrivateKeyShare, Error>)
        requires
            validator_keypair.decryption_key@ != 0,
        ensures
            res matches Ok(z) && z.0@ == g2_smul(
                self.blinded_key_share@,
                scalar_inverse(validator_keypair.decryption_key@),
            ),
            forall|z: Seq<u8>|
                #[trigger] g2_smul(z, validator_keypair.decryption_key@) == self.blinded_key_share@
                    ==> (res matches Ok(k) && k.0@ == z),
    {
        let unblinding_factor = match fr_inverse(&validator_keypair.decryption_key) {
            Some(i) => i,
            None => {
                proof {
                    assert(false);
                }
                return Err(Error::DecryptionShareVerificationFailed);
            },
        };
        let z = g2_mul(&self.blinded_key_share, &unblinding_factor);
        proof {
            let b = validator_keypair.decryption_key@;
            let i = unblinding_factor@;
            assert(b < scalar_modulus());
            assert((b * i) % scalar_modulus() == 1);
        }
        Ok(PrivateKeyShare(z))
    }

    /// Creates a simple decryption share with the unblinded key share, after checking the
    /// ciphertext header against `aad`.
    pub fn create_decryption_share_simple(
        &self,
        ciphertext_header: &CiphertextHeader,
        aad: &[u8],
        validator_keypair: &Keypair,
    ) -> (res: Result<DecryptionShareSimple, Error>)
        requires
            validator_keypair.decryption_key@ != 0,
        ensures
            header_is_valid(
                ciphertext_header.commitment@,
                ciphertext_header.auth_tag@,
                ciphertext_header.ciphertext_hash@,
                aad@,
            ) <==> res is Ok,
            res matches Err(e) ==> e == Error::CiphertextVerificationFailed,
            res matches Ok(s) ==> s.decryption_share@ == pairing_named(
                ciphertext_header.commitment@,
                g2_smul(
                    self.blinded_key_share@,
                    scalar_inverse(validator_keypair.decryption_key@),
                ),
            ) && s.validator_checksum.checksum@ == g1_smul(
                ciphertext_header.commitment@,
                scalar_inverse(validator_keypair.decryption_key@),
            ),
            forall|r: nat, z: nat|
                r < scalar_modulus() && z < scalar_modulus() && #[trigger] g1_smul(
                    g1_generator_bytes(),
                    r,
                ) == ciphertext_header.commitment@ && #[trigger] g2_smul(
                    g2_smul(g2_generator_bytes(), z),
                    validator_keypair.decryption_key@,
                ) == self.blinded_key_share@ ==> (res matches Ok(s) ==> s.decryption_share@
                    == target_exp((r * z) % scalar_modulus())),
    {
        let private_key_share = match self.unblind(validator_keypair) {
            Ok(k) => k,
            Err(e) => {
                return Err(e);
            },
        };
        DecryptionShareSimple::create(
            &validator_keypair.decryption_key,
            &private_key_share,
            ciphertext_header,
            aad,
        )
    }

    /// Creates a precomputed decryption share for the participant of `share_index`: the
    /// domain points are sorted by share index, their Lagrange coefficients at zero are
    /// computed, and the one at the position of `share_index` is applied to the unblinded
    /// key share. The share is a function of the map's entries: the order in which the map is
    /// walked does not change it.
    pub fn create_decryption_share_precomputed(
        &self,
        ciphertext_header: &CiphertextHeader,
        aad: &[u8],
        validator_keypair: &Keypair,
        share_index: u32,
        domain_points_map: &HashMap<u32, Scalar>,
    ) -> (res: Result<DecryptionSharePrecomputed, Error>)
        requires
            validator_keypair.decryption_key@ != 0,
            domain_points_map@.contains_key(share_index),
        ensures
            header_is_valid(
                ciphertext_header.commitment@,
                ciphertext_header.auth_tag@,
                ciphertext_header.ciphertext_hash@,
                aad@,
            ) <==> res is Ok,
            res matches Err(e) ==> e == Error::CiphertextVerificationFailed,
            res matches Ok(s) ==> s.decryption_share@ == pairing_named(
                g1_smul(
                    ciphertext_header.commitment@,
                    lagrange_coefficient(
                        sorted_point_values(sorted_listing(domain_points_map@)),
                        sorted_position(domain_points_map@, share_index),
                        0,
                    ),
                ),
                g2_smul(
                    self.blinded_key_share@,
                    scalar_inverse(validator_keypair.decryption_key@),
                ),
            ),
            res matches Ok(s) ==> exists|sorted: Seq<(u32, Scalar)>, p: int|
                #![trigger is_sorted_listing(sorted, domain_points_map@), sorted[p]]
                is_sorted_listing(sorted, domain_points_map@) && 0 <= p < sorted.len()
                    && sorted[p].0 == share_index && s.decrypter_index == share_index as usize
                    && s.decryption_share@ == pairing_named(
                    g1_smul(
                        ciphertext_header.commitment@,
                        lagrange_coefficient(sorted_point_values(sorted), p, 0),
                    ),
                    g2_smul(
                        self.blinded_key_share@,
                        scalar_inverse(validator_keypair.decryption_key@),
                    ),
                ) && s.validator_checksum.checksum@ == g1_smul(
                    ciphertext_header.commitment@,
                    scalar_inverse(validator_keypair.decryption_key@),
                ) && differences_invertible(sorted_point_values(sorted)) && forall|r: nat, z: nat|
                    r < scalar_modulus() && z < scalar_modulus() && #[trigger] g1_smul(
                        g1_generator_bytes(),
                        r,
                    ) == ciphertext_header.commitment@ && #[trigger] g2_smul(
                        g2_smul(g2_generator_bytes(), z),
                        validator_keypair.decryption_key@,
                    ) == self.blinded_key_share@ ==> s.decryption_share@ == target_exp(
                        (((r * lagrange_coefficient(sorted_point_values(sorted), p, 0))
                            % scalar_modulus()) * z) % scalar_modulus(),
                    ),
    {
        let domain_points = sorted_entries(domain_points_map);
        let mut only_domain_points: Vec<Scalar> = Vec::new();
        let mut i: usize = 0;
        while i < domain_points.len()
            invariant
                i <= domain_points@.len(),
                only_domain_points@.len() == i,
                forall|q: int|
                    0 <= q < i ==> #[trigger] only_domain_points@[q] == domain_points@[q].1,
            decreases domain_points@.len() - i,
        {
            only_domain_points.push(domain_points[i].1);
            i = i + 1;
        }
        let lagrange_coeffs = prepare_combine_simple(only_domain_points.as_slice());
        assert(scalar_values(only_domain_points@) =~= sorted_point_values(domain_points@));
        assert(key_listed(domain_points@, share_index));
        let mut adjusted_share_index: usize = 0;
        let mut found = false;
        let mut t: usize = 0;
        while t < domain_points.len()
            invariant
                t <= domain_points@.len(),
                found ==> adjusted_share_index < domain_points@.len()
                    && domain_points@[adjusted_share_index as int].0 == share_index,
                !found ==> forall|q: int| 0 <= q < t ==> #[trigger] domain_points@[q].0 != share_index,
            decreases domain_points@.len() - t,
        {
            if domain_points[t].0 == share_index {
                adjusted_share_index = t;
                found = true;
            }
            t = t + 1;
        }
        if !found {
            proof {
                let q = choose|q: int|
                    0 <= q < domain_points@.len() && #[trigger] domain_points@[q].0 == share_index;
                assert(domain_points@[q].0 != share_index);
            }
            return Err(Error::DecryptionShareVerificationFailed);
        }
        let private_key_share = match self.unblind(validator_keypair) {
            Ok(k) => k,
            Err(e) => {
                return Err(e);
            },
        };
        let res = DecryptionSharePrecomputed::create(
            share_index as usize,
            &validator_keypair.decryption_key,
            &private_key_share,
            ciphertext_header,
            aad,
            &lagrange_coeffs[adjusted_share_index],
        );
        proof {
            let p = adjusted_share_index as int;
            assert(domain_points@[p].0 == share_index);
            lemma_is_the_sorted_listing(domain_points@, domain_points_map@);
            assert(sorted_position(domain_points_map@, domain_points@[p].0) == p);
        }
        res
    }
}

/// The residues of the domain points of a listing, in its order.
pub open spec fn sorted_point_values(sorted: Seq<(u32, Scalar)>) -> Seq<nat> {
    sorted.map_values(|e: (u32, Scalar)| e.1@)
}


/// The value of an ASCII hexadecimal digit, in either case.
pub open spec fn hex_digit_value(c: u8) -> Option<nat> {
    if 0x30 <= c <= 0x39 {
        Some((c - 0x30) as nat)
    } else if 0x61 <= c <= 0x66 {
        Some((c - 0x61 + 10) as nat)
    } else if 0x41 <= c <= 0x46 {
        Some((c - 0x41 + 10) as nat)
    } else {
        None
    }
}

/// `text` is an even number of hexadecimal digits.
pub open spec fn is_hex_text(text: Seq<u8>) -> bool {
    &&& text.len() % 2 == 0
    &&& forall|i: int| 0 <= i < text.len() ==> #[trigger] hex_digit_value(text[i]) is Some
}

/// The bytes that pairs of hexadecimal digits stand for, the high digit first.
pub open spec fn hex_decoded(text: Seq<u8>) -> Seq<u8> {
    Seq::new(
        text.len() / 2,
        |i: int|
            (16 * hex_digit_value(text[2 * i])->0 + hex_digit_value(text[2 * i + 1])->0) as u8,
    )
}

/// The lowercase hexadecimal digit of a value below 16.
pub open spec fn hex_char(d: nat) -> char {
    if d < 10 {
        (0x30 + d) as char
    } else {
        (0x61 + d - 10) as char
    }
}

/// The lowercase hexadecimal text of a byte string, two digits per byte, the high digit first.
pub open spec fn hex_encoded(bytes: Seq<u8>) -> Seq<char> {
    Seq::new(
        2 * bytes.len(),
        |i: int|
            if i % 2 == 0 {
                hex_char(bytes[i / 2] as nat / 16)
            } else {
                hex_char(bytes[i / 2] as nat % 16)
            },
    )
}

/// `text` with a leading `0x` removed, if it has one.
pub open spec fn strip_hex_prefix(text: Seq<u8>) -> Seq<u8> {
    if text.len() >= 2 && text[0] == 0x30 && text[1] == 0x78 {
        text.skip(2)
    } else {
        text
    }
}

/// A lowercase hexadecimal digit is ASCII and reads back as its value.
proof fn lemma_hex_char(d: nat)
    requires
        d < 16,
    ensures
        '\0' <= hex_char(d) <= '\u{7f}',
        hex_digit_value(hex_char(d) as u8) == Some(d),
{
    if d < 10 {
        assert((0x30 + d) as char as u8 == 0x30 + d);
    } else {
        assert((0x61 + d - 10) as char as u8 == 0x61 + d - 10);
    }
}

/// The text of bytes, `0x` and then their lowercase hexadecimal digits, is ASCII, and its
/// UTF-8 bytes without the prefix are hexadecimal text that reads back as the bytes.
pub proof fn lemma_hex_text_round_trip(bytes: Seq<u8>)
    ensures
        is_hex_text(strip_hex_prefix(encode_utf8(seq!['0', 'x'] + hex_encoded(bytes)))),
        hex_decoded(strip_hex_prefix(encode_utf8(seq!['0', 'x'] + hex_encoded(bytes)))) == bytes,
{
    let h = hex_encoded(bytes);
    let text = seq!['0', 'x'] + h;
    assert forall|i: int| 0 <= i < h.len() implies '\0' <= #[trigger] h[i] <= '\u{7f}'
        && hex_digit_value(h[i] as u8) == Some(
        if i % 2 == 0 {
            bytes[i / 2] as nat / 16
        } else {
            bytes[i / 2] as nat % 16
        },
    ) by {
        if i % 2 == 0 {
            lemma_hex_char(bytes[i / 2] as nat / 16);
        } else {
            lemma_hex_char(bytes[i / 2] as nat % 16);
        }
    }
    assert(is_ascii_chars(text)) by {
        assert forall|i: int| 0 <= i < text.len() implies '\0' <= #[trigger] text[i] <= '\u{7f}' by {
            if i >= 2 {
                assert(text[i] == h[i - 2]);
            }
        }
    }
    is_ascii_chars_encode_utf8(text);
    let enc = encode_utf8(text);
    assert(enc[0] == '0' as u8);
    assert(enc[1] == 'x' as u8);
    let t = strip_hex_prefix(enc);
    assert(t == enc.skip(2));
    assert(t.len() == 2 * bytes.len());
    assert forall|i: int| 0 <= i < t.len() implies #[trigger] t[i] == h[i] as u8 by {
        assert(t[i] == enc[i + 2]);
        assert(text[i + 2] == h[i]);
    }
    assert forall|i: int| 0 <= i < t.len() implies #[trigger] hex_digit_value(t[i]) is Some by {
        assert(t[i] == h[i] as u8);
    }
    assert forall|i: int| 0 <= i < bytes.len() implies #[trigger] hex_decoded(t)[i] == bytes[i] by {
        assert(t[2 * i] == h[2 * i] as u8);
        assert(t[2 * i + 1] == h[2 * i + 1] as u8);
        assert((2 * i) / 2 == i);
        assert((2 * i + 1) / 2 == i);
        assert((2 * i) % 2 == 0);
        assert((2 * i + 1) % 2 == 1);
        let b = bytes[i] as nat;
        assert(16 * (b / 16) + b % 16 == b);
    }
    assert(hex_decoded(t) =~= bytes);
}

/// The lowercase hexadecimal text of bytes, without a prefix, is ASCII, is not stripped as
/// if it had one, and its UTF-8 bytes are hexadecimal text that reads back as the bytes.
proof fn lemma_bare_hex_text_round_trip(bytes: Seq<u8>)
    ensures
        strip_hex_prefix(encode_utf8(hex_encoded(bytes))) == encode_utf8(hex_encoded(bytes)),
        is_hex_text(encode_utf8(hex_encoded(bytes))),
        hex_decoded(encode_utf8(hex_encoded(bytes))) == bytes,
{
    let h = hex_encoded(bytes);
    assert forall|i: int| 0 <= i < h.len() implies '\0' <= #[trigger] h[i] <= '\u{7f}'
        && hex_digit_value(h[i] as u8) == Some(
        if i % 2 == 0 {
            bytes[i / 2] as nat / 16
        } else {
            bytes[i / 2] as nat % 16
        },
    ) && h[i] as u8 != 0x78 by {
        if i % 2 == 0 {
            lemma_hex_char(bytes[i / 2] as nat / 16);
        } else {
            lemma_hex_char(bytes[i / 2] as nat % 16);
        }
    }
    assert(is_ascii_chars(h));
    is_ascii_chars_encode_utf8(h);
    let t = encode_utf8(h);
    assert(t.len() == 2 * bytes.len());
    if t.len() >= 2 {
        assert(t[1] == h[1] as u8);
    }
    assert forall|i: int| 0 <= i < t.len() implies #[trigger] hex_digit_value(t[i]) is Some by {
        assert(t[i] == h[i] as u8);
    }
    assert forall|i: int| 0 <= i < bytes.len() implies #[trigger] hex_decoded(t)[i] == bytes[i] by {
        assert(t[2 * i] == h[2 * i] as u8);
        assert(t[2 * i + 1] == h[2 * i + 1] as u8);
        assert((2 * i) / 2 == i);
        assert((2 * i + 1) / 2 == i);
        assert((2 * i) % 2 == 0);
        assert((2 * i + 1) % 2 == 1);
        let b = bytes[i] as nat;
        assert(16 * (b / 16) + b % 16 == b);
    }
    assert(hex_decoded(t) =~= bytes);
}

/// The text of a public key reads back as the key, with its `0x` prefix or without it.
pub proof fn lemma_public_key_text_round_trip(
    key: Seq<u8>,
    with_prefix: Result<DkgPublicKey, Error>,
    without_prefix: Result<DkgPublicKey, Error>,
)
    requires
        key.len() == 48,
        g1_decodes(key),
        is_public_key_parse(encode_utf8(seq!['0', 'x'] + hex_encoded(key)), with_prefix),
        is_public_key_parse(encode_utf8(hex_encoded(key)), without_prefix),
    ensures
        with_prefix matches Ok(pk) && pk.0@ == key,
        without_prefix matches Ok(pk) && pk.0@ == key,
{
    lemma_hex_text_round_trip(key);
    lemma_bare_hex_text_round_trip(key);
    assert(key.take(48) =~= key);
}

/// `hex::decode`: the bytes that an even number of hexadecimal digits (of either case)
/// stand for, or nothing when the text has odd length or another character.
#[verifier::external_body]
fn hex_decode(text: &[u8]) -> (res: Option<Vec<u8>>)
    ensures
        res is Some <==> is_hex_text(text@),
        res matches Some(v) ==> v@ == hex_decoded(text@),
{
    hex::decode(text).ok()
}

/// `hex::encode`: the lowercase hexadecimal text of the bytes.
#[verifier::external_body]
fn hex_encode(bytes: &[u8]) -> (res: String)
    ensures
        res@ == hex_encoded(bytes@),
{
    hex::encode(bytes)
}

/// `res` is what reading a public key from the UTF-8 bytes `value` gives: `0x` (optional)
/// then the hexadecimal digits of the compressed point, nothing more. Text that is not
/// hexadecimal is refused with `HexError`, bytes that are not a point with
/// `ArkSerializeError`, and bytes left over after the point with `TrailingBytes` and their
/// number.
pub open spec fn is_public_key_parse(value: Seq<u8>, res: Result<DkgPublicKey, Error>) -> bool {
    let text = strip_hex_prefix(value);
    let bytes = hex_decoded(text);
    if !is_hex_text(text) {
        res == Err::<DkgPublicKey, Error>(Error::HexError)
    } else if !(bytes.len() >= 48 && g1_decodes(bytes.take(48))) {
        res matches Err(Error::ArkSerializeError(_))
    } else if bytes.len() > 48 {
        res == Err::<DkgPublicKey, Error>(Error::TrailingBytes((bytes.len() - 48) as usize))
    } else {
        res matches Ok(pk) && pk.0@ == bytes
    }
}

impl DkgPublicKey {
    /// Reads a public key from its text: `0x` (optional) then the hexadecimal digits of the
    /// compressed point, nothing more. Text that is not hexadecimal is refused with
    /// `HexError`, bytes that are not a point with `ArkSerializeError`, and bytes left over
    /// after the point with `TrailingBytes` and their number.
    pub fn from_hex(value: &str) -> (res: Result<DkgPublicKey, Error>)
        ensures
            is_public_key_parse(value.spec_bytes(), res),
    {
        let all = value.as_bytes();
        let text = if all.len() >= 2 && all[0] == 0x30 && all[1] == 0x78 {
            vstd::slice::slice_subrange(all, 2, all.len())
        } else {
            all
        };
        assert(text@ == strip_hex_prefix(value.spec_bytes()));
        let bytes = match hex_decode(text) {
            Some(b) => b,
            None => {
                return Err(Error::HexError);
            },
        };
        let public_key = match deserialize_g1(bytes.as_slice()) {
            Ok(p) => p,
            Err(e) => {
                return Err(Error::ArkSerializeError(e));
            },
        };
        if bytes.len() > 48 {
            return Err(Error::TrailingBytes(bytes.len() - 48));
        }
        assert(bytes@.take(48) =~= bytes@);
        Ok(DkgPublicKey(public_key))
    }

    /// The text of the public key: `0x` then the lowercase hexadecimal digits of the
    /// compressed point. It reads back as the key: its bytes without the prefix are the
    /// hexadecimal text of a point's 48-byte encoding, with nothing left over.
    pub fn to_string(&self) -> (res: String)
        ensures
            res@ == seq!['0', 'x'] + hex_encoded(self.0@),
            is_hex_text(strip_hex_prefix(encode_utf8(res@))),
            hex_decoded(strip_hex_prefix(encode_utf8(res@))) == self.0@,
            self.0@.len() == 48,
            g1_decodes(self.0@),
    {
        let bytes = self.0.to_bytes();
        let digits = hex_encode(&bytes);
        let mut out = String::from_str("0x");
        out.append(digits.as_str());
        proof {
            reveal_strlit("0x");
            assert(out@ =~= seq!['0', 'x'] + hex_encoded(self.0@));
            lemma_hex_text_round_trip(self.0@);
        }
        out
    }
}

impl core::str::FromStr for DkgPublicKey {
    type Err = Error;

    /// Reads a public key from its text, as [DkgPublicKey::from_hex] does.
    fn from_str(value: &str) -> (res: Result<DkgPublicKey, Error>)
        ensures
            is_public_key_parse(value.spec_bytes(), res),
    {
        DkgPublicKey::from_hex(value)
    }
}

} // verus!
