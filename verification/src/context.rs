//! Decryption contexts of the participants.

use crate::ciphertext::{header_is_valid, CiphertextHeader};
use crate::combine::{differences_invertible, lagrange_coefficient, prepare_combine_simple};
use crate::decryption::{DecryptionSharePrecomputed, DecryptionShareSimple};
use crate::error::Error;
use crate::field::{is_inverse_of, scalar_inverse, Scalar};
use crate::group::{g1_generator_bytes, g1_smul, g2_generator_bytes, g2_smul, pairing_named, target_exp};
use crate::field::scalar_modulus;
use crate::key_share::{BlindedKeyShare, PrivateKeyShare, ShareCommitment};
use crate::keypair::PublicKey;
use vstd::prelude::*;

verus! {

/// Public metadata for one participant in the simple threshold decryption scheme.
#[derive(Clone, Copy, Debug, PartialEq, Eq)]
pub struct PublicDecryptionContextSimple {
    /// Participant's evaluation point in the secret-sharing domain.
    pub domain: Scalar,
    /// Public commitment `[f(domain)] G` to the participant's private key share.
    pub share_commitment: ShareCommitment,
    /// Participant's private key share blinded by their validator key.
    pub blinded_key_share: BlindedKeyShare,
    /// Validator public key used to verify decryption-share checksums.
    pub validator_public_key: PublicKey,
}

/// Private per-participant context for producing simple threshold decryption shares.
#[derive(Clone, Debug, PartialEq, Eq)]
pub struct PrivateDecryptionContextSimple {
    /// Participant's index in the public context list.
    pub index: usize,
    /// Validator's private scalar used to unblind this participant's key share.
    pub validator_decryption_key: Scalar,
    /// Participant's unblinded private key share.
    pub private_key_share: PrivateKeyShare,
    /// Public contexts for all participants in the threshold setup.
    pub public_decryption_contexts: Vec<PublicDecryptionContextSimple>,
}


/// The residues of the domain points of the selected participants, in the order given.
pub open spec fn selected_domain(
    contexts: Seq<PublicDecryptionContextSimple>,
    selected: Seq<usize>,
) -> Seq<nat> {
    Seq::new(selected.len(), |k: int| contexts[selected[k] as int].domain@)
}

impl PrivateDecryptionContextSimple {
    /// Creates a simple decryption share with this participant's keys, after checking the
    /// ciphertext header against `aad`.
    pub fn create_share(&self, ciphertext_header: &CiphertextHeader, aad: &[u8]) -> (res: Result<
        DecryptionShareSimple,
        Error,
    >)
        requires
            header_is_valid(
                ciphertext_header.commitment@,
                ciphertext_header.auth_tag@,
                ciphertext_header.ciphertext_hash@,
                aad@,
            ) ==> self.validator_decryption_key@ != 0,
        ensures
            header_is_valid(
                ciphertext_header.commitment@,
                ciphertext_header.auth_tag@,
                ciphertext_header.ciphertext_hash@,
                aad@,
            ) <==> res is Ok,
            res matches Err(e) ==> e == Error::CiphertextVerificationFailed,
            res is Ok ==> is_inverse_of(
                self.validator_decryption_key@,
                scalar_inverse(self.validator_decryption_key@),
            ),
            res matches Ok(s) ==> s.decryption_share@ == pairing_named(
                ciphertext_header.commitment@,
                self.private_key_share.0@,
            ) && s.validator_checksum.checksum@ == g1_smul(
                ciphertext_header.commitment@,
                scalar_inverse(self.validator_decryption_key@),
            ),
            forall|r: nat, z: nat|
                r < scalar_modulus() && z < scalar_modulus() && #[trigger] g1_smul(
                    g1_generator_bytes(),
                    r,
                ) == ciphertext_header.commitment@ && #[trigger] g2_smul(g2_generator_bytes(), z)
                    == self.private_key_share.0@ ==> (res matches Ok(s) ==> s.decryption_share@
                    == target_exp((r * z) % scalar_modulus())),
    {
        DecryptionShareSimple::create(
            &self.validator_decryption_key,
            &self.private_key_share,
            ciphertext_header,
            aad,
        )
    }

    /// Creates a precomputed decryption share: the Lagrange coefficients at zero of the
    /// domain points of the selected participants are computed, and the one at position
    /// `self.index` of that list is applied.
    pub fn create_share_precomputed(
        &self,
        ciphertext_header: &CiphertextHeader,
        aad: &[u8],
        selected_participants: &[usize],
    ) -> (res: Result<DecryptionSharePrecomputed, Error>)
        requires
            header_is_valid(
                ciphertext_header.commitment@,
                ciphertext_header.auth_tag@,
                ciphertext_header.ciphertext_hash@,
                aad@,
            ) ==> self.validator_decryption_key@ != 0,
            self.index < selected_participants@.len(),
            forall|k: int|
                0 <= k < selected_participants@.len() ==> #[trigger] selected_participants@[k]
                    < self.public_decryption_contexts@.len(),
        ensures
            header_is_valid(
                ciphertext_header.commitment@,
                ciphertext_header.auth_tag@,
                ciphertext_header.ciphertext_hash@,
                aad@,
            ) <==> res is Ok,
            res matches Err(e) ==> e == Error::CiphertextVerificationFailed,
            res is Ok ==> is_inverse_of(
                self.validator_decryption_key@,
                scalar_inverse(self.validator_decryption_key@),
            ),
            res matches Ok(s) ==> s.decrypter_index == self.index && s.decryption_share@
                == pairing_named(
                g1_smul(
                    ciphertext_header.commitment@,
                    lagrange_coefficient(
                        selected_domain(
                            self.public_decryption_contexts@,
                            selected_participants@,
                        ),
                        self.index as int,
                        0,
                    ),
                ),
                self.private_key_share.0@,
            ) && s.validator_checksum.checksum@ == g1_smul(
                ciphertext_header.commitment@,
                scalar_inverse(self.validator_decryption_key@),
            ),
            forall|r: nat, z: nat|
                r < scalar_modulus() && z < scalar_modulus() && #[trigger] g1_smul(
                    g1_generator_bytes(),
                    r,
                ) == ciphertext_header.commitment@ && #[trigger] g2_smul(g2_generator_bytes(), z)
                    == self.private_key_share.0@ ==> (res matches Ok(s) ==> s.decryption_share@
                    == target_exp(
                    (((r * lagrange_coefficient(
                        selected_domain(self.public_decryption_contexts@, selected_participants@),
                        self.index as int,
                        0,
                    )) % scalar_modulus()) * z) % scalar_modulus(),
                )),
            differences_invertible(
                selected_domain(self.public_decryption_contexts@, selected_participants@),
            ),
    {
        let mut selected_domain_points: Vec<Scalar> = Vec::new();
        let mut k: usize = 0;
        while k < selected_participants.len()
            invariant
                k <= selected_participants@.len(),
                forall|q: int|
                    0 <= q < selected_participants@.len() ==> #[trigger] selected_participants@[q]
                        < self.public_decryption_contexts@.len(),
                selected_domain_points@.len() == k,
                forall|q: int|
                    0 <= q < k ==> #[trigger] selected_domain_points@[q]@
                        == self.public_decryption_contexts@[selected_participants@[q] as int].domain@,
            decreases selected_participants@.len() - k,
        {
            let i = selected_participants[k];
            selected_domain_points.push(self.public_decryption_contexts[i].domain);
            k = k + 1;
        }
        let lagrange_coeffs = prepare_combine_simple(selected_domain_points.as_slice());
        proof {
            assert(crate::combine::scalar_values(selected_domain_points@) =~= selected_domain(
                self.public_decryption_contexts@,
                selected_participants@,
            ));
        }
        DecryptionSharePrecomputed::create(
            self.index,
            &self.validator_decryption_key,
            &self.private_key_share,
            ciphertext_header,
            aad,
            &lagrange_coeffs[self.index],
        )
    }
}

} // verus!
