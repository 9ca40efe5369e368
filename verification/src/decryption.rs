//! Decryption shares and their verification.

use crate::ciphertext::{header_is_valid, Ciphertext, CiphertextHeader};
use crate::context::PublicDecryptionContextSimple;
use crate::error::Error;
use crate::field::{fr_inverse, is_inverse_of, scalar_inverse, scalar_modulus, Scalar};
use crate::group::{
    g1_generator_bytes, g1_mul, g1_smul, g2_generator, g2_generator_bytes, g2_smul, pairing,
    pairing_named, target_exp, G1Point, G2Point, Gt,
};
use crate::key_share::PrivateKeyShare;
use crate::group::{g1_decodes, gt_decodes};
use crate::serialization::{
    decode_g1, decode_target, encode_g1, encode_target, is_suffix, read_g1, read_target,
    scale_bytes,
};
use vstd::prelude::*;

verus! {

/// The checksum `C_i = [dk_i^{-1}] U` that lets a decryption share be verified.
#[derive(Clone, Copy, Debug, PartialEq, Eq)]
pub struct ValidatorShareChecksum {
    pub checksum: G1Point,
}

/// A decryption share `D_i = e(U, Z_i)` of the simple variant, which the client combines
/// with Lagrange coefficients.
#[derive(Clone, Copy, Debug, PartialEq, Eq)]
pub struct DecryptionShareSimple {
    pub decryption_share: Gt,
    pub validator_checksum: ValidatorShareChecksum,
}

/// A decryption share `D_i = e([lambda_i] U, Z_i)` of the precomputed variant, with the
/// Lagrange coefficient already applied.
#[derive(Clone, Copy, Debug, PartialEq, Eq)]
pub struct DecryptionSharePrecomputed {
    pub decrypter_index: usize,
    pub decryption_share: Gt,
    pub validator_checksum: ValidatorShareChecksum,
}

/// Whether a share and its checksum pass the two pairing equations:
/// `D_i == e(C_i, Y_i)` and `e(C_i, ek_i) == e(U, H)`.
pub open spec fn checksum_verifies(
    checksum: Seq<u8>,
    decryption_share: Seq<u8>,
    share_aggregate: Seq<u8>,
    validator_public_key: Seq<u8>,
    commitment: Seq<u8>,
) -> bool {
    &&& decryption_share == pairing_named(checksum, share_aggregate)
    &&& pairing_named(checksum, validator_public_key) == pairing_named(
        commitment,
        g2_generator_bytes(),
    )
}

/// A share is accepted against its checksum only when both pairing equations hold: the
/// share is the pairing of the checksum with the blinded key share, `D == e(C, Y)`, and the
/// checksum is `[ek^-1] U` in the sense `e(C, ek) == e(U, H)`. A share whose value differs
/// from `e(C, Y)`, or whose checksum fails the second equation, is refused whatever the rest.
pub proof fn lemma_checksum_needs_both_equations(
    checksum: Seq<u8>,
    decryption_share: Seq<u8>,
    share_aggregate: Seq<u8>,
    validator_public_key: Seq<u8>,
    commitment: Seq<u8>,
)
    ensures
        checksum_verifies(
            checksum,
            decryption_share,
            share_aggregate,
            validator_public_key,
            commitment,
        ) <==> (decryption_share == pairing_named(checksum, share_aggregate) && pairing_named(
            checksum,
            validator_public_key,
        ) == pairing_named(commitment, g2_generator_bytes())),
        pairing_named(checksum, validator_public_key) != pairing_named(
            commitment,
            g2_generator_bytes(),
        ) ==> !checksum_verifies(
            checksum,
            decryption_share,
            share_aggregate,
            validator_public_key,
            commitment,
        ),
        decryption_share != pairing_named(checksum, share_aggregate) ==> !checksum_verifies(
            checksum,
            decryption_share,
            share_aggregate,
            validator_public_key,
            commitment,
        ),
{
}

/// A share made honestly: for some validator key `b` that has an inverse and the key share
/// `Z` that the context blinds, the share is `D = e(U, Z)`, its checksum `C = [b^-1] U`, the
/// blinded key share `Y = [b] Z` and the validator key `ek = [b] H`.
pub open spec fn is_honest_share(
    checksum: Seq<u8>,
    decryption_share: Seq<u8>,
    share_aggregate: Seq<u8>,
    validator_public_key: Seq<u8>,
    commitment: Seq<u8>,
) -> bool {
    exists|b: nat, z: Seq<u8>|
        #![trigger g1_smul(commitment, scalar_inverse(b)), g2_smul(z, b)]
        b < scalar_modulus() && is_inverse_of(b, scalar_inverse(b)) && checksum == g1_smul(
            commitment,
            scalar_inverse(b),
        ) && share_aggregate == g2_smul(z, b) && validator_public_key == g2_smul(
            g2_generator_bytes(),
            b,
        ) && decryption_share == pairing_named(commitment, z)
}

impl ValidatorShareChecksum {
    /// `C_i = [dk_i^{-1}] U` for the validator's decryption key `dk_i`, which has an inverse:
    /// the key is a nonzero residue of the prime scalar field.
    pub fn new(validator_decryption_key: &Scalar, ciphertext_header: &CiphertextHeader) -> (res:
        Result<Self, Error>)
        requires
            validator_decryption_key@ != 0,
        ensures
            res matches Ok(c) && c.checksum@ == g1_smul(
                ciphertext_header.commitment@,
                scalar_inverse(validator_decryption_key@),
            ),
            is_inverse_of(validator_decryption_key@, scalar_inverse(validator_decryption_key@)),
    {
        let inverse = match fr_inverse(validator_decryption_key) {
            Some(i) => i,
            None => {
                proof {
                    assert(false);
                }
                return Err(Error::DecryptionShareVerificationFailed);
            },
        };
        let checksum = g1_mul(&ciphertext_header.commitment, &inverse);
        Ok(ValidatorShareChecksum { checksum })
    }

    /// Verifies the share against the checksum: `D_i == e(C_i, Y_i)` and
    /// `e(C_i, ek_i) == e(U, H)`. A share made honestly from the key share `Z_i`, with the
    /// blinded share `Y_i = [b] Z_i` and the validator key `ek_i = [b] H`, is accepted.
    pub fn verify<T>(
        &self,
        decryption_share: &Gt,
        share_aggregate: &G2Point,
        validator_public_key: &G2Point,
        ciphertext: &Ciphertext<T>,
    ) -> (res: bool)
        ensures
            res <==> (decryption_share@ == pairing_named(self.checksum@, share_aggregate@) && pairing_named(
                self.checksum@,
                validator_public_key@,
            ) == pairing_named(ciphertext.commitment@, g2_generator_bytes())),
            res == checksum_verifies(
                self.checksum@,
                decryption_share@,
                share_aggregate@,
                validator_public_key@,
                ciphertext.commitment@,
            ),
            forall|b: nat, z: Seq<u8>|
                b < scalar_modulus() && is_inverse_of(b, scalar_inverse(b)) && self.checksum@
                    == #[trigger] g1_smul(ciphertext.commitment@, scalar_inverse(b))
                    && share_aggregate@ == #[trigger] g2_smul(z, b) && validator_public_key@
                    == g2_smul(g2_generator_bytes(), b) && decryption_share@ == pairing_named(
                    ciphertext.commitment@,
                    z,
                ) ==> res,
            is_honest_share(
                self.checksum@,
                decryption_share@,
                share_aggregate@,
                validator_public_key@,
                ciphertext.commitment@,
            ) ==> res,
    {
        let expected_share = pairing(&self.checksum, share_aggregate);
        let a = pairing(&self.checksum, validator_public_key);
        let h = g2_generator();
        let b = pairing(&ciphertext.commitment, &h);
        proof {
            assert forall|bb: nat, z: Seq<u8>|
                bb < scalar_modulus() && is_inverse_of(bb, scalar_inverse(bb)) && self.checksum@
                    == #[trigger] g1_smul(ciphertext.commitment@, scalar_inverse(bb))
                    && share_aggregate@ == #[trigger] g2_smul(z, bb) && validator_public_key@
                    == g2_smul(g2_generator_bytes(), bb) implies expected_share@ == pairing_named(
                ciphertext.commitment@,
                z,
            ) && a@ == b@ by {
                let i = scalar_inverse(bb);
                assert(i * bb == bb * i) by (nonlinear_arith);
            }
        }
        if !decryption_share.equals(&expected_share) {
            return false;
        }
        if !a.equals(&b) {
            return false;
        }
        true
    }
}


impl DecryptionShareSimple {
    /// Creates a decryption share after checking the ciphertext header against `aad`.
    pub fn create(
        validator_decryption_key: &Scalar,
        private_key_share: &PrivateKeyShare,
        ciphertext_header: &CiphertextHeader,
        aad: &[u8],
    ) -> (res: Result<Self, Error>)
        requires
            header_is_valid(
                ciphertext_header.commitment@,
                ciphertext_header.auth_tag@,
                ciphertext_header.ciphertext_hash@,
                aad@,
            ) ==> validator_decryption_key@ != 0,
        ensures
            header_is_valid(
                ciphertext_header.commitment@,
                ciphertext_header.auth_tag@,
                ciphertext_header.ciphertext_hash@,
                aad@,
            ) <==> res is Ok,
            res is Ok ==> is_inverse_of(
                validator_decryption_key@,
                scalar_inverse(validator_decryption_key@),
            ),
            res matches Err(e) ==> e == Error::CiphertextVerificationFailed,
            res matches Ok(s) ==> s.decryption_share@ == pairing_named(
                ciphertext_header.commitment@,
                private_key_share.0@,
            ) && s.validator_checksum.checksum@ == g1_smul(
                ciphertext_header.commitment@,
                scalar_inverse(validator_decryption_key@),
            ),
            forall|r: nat, z: nat|
                r < scalar_modulus() && z < scalar_modulus() && #[trigger] g1_smul(
                    g1_generator_bytes(),
                    r,
                ) == ciphertext_header.commitment@ && #[trigger] g2_smul(g2_generator_bytes(), z)
                    == private_key_share.0@ ==> (res matches Ok(s) ==> s.decryption_share@
                    == target_exp((r * z) % scalar_modulus())),
    {
        match ciphertext_header.check(aad) {
            Ok(_) => {},
            Err(e) => {
                return Err(e);
            },
        }
        Self::create_unchecked(validator_decryption_key, private_key_share, ciphertext_header)
    }

    /// Creates a decryption share without checking the ciphertext:
    /// `D_i = e(U, Z_i)` with the checksum `[dk_i^{-1}] U`.
    pub fn create_unchecked(
        validator_decryption_key: &Scalar,
        private_key_share: &PrivateKeyShare,
        ciphertext_header: &CiphertextHeader,
    ) -> (res: Result<Self, Error>)
        requires
            validator_decryption_key@ != 0,
        ensures
            is_inverse_of(validator_decryption_key@, scalar_inverse(validator_decryption_key@)),
            res matches Ok(s) && s.decryption_share@ == pairing_named(
                ciphertext_header.commitment@,
                private_key_share.0@,
            ) && s.validator_checksum.checksum@ == g1_smul(
                ciphertext_header.commitment@,
                scalar_inverse(validator_decryption_key@),
            ),
            forall|r: nat, z: nat|
                r < scalar_modulus() && z < scalar_modulus() && #[trigger] g1_smul(
                    g1_generator_bytes(),
                    r,
                ) == ciphertext_header.commitment@ && #[trigger] g2_smul(g2_generator_bytes(), z)
                    == private_key_share.0@ ==> (res matches Ok(s) && s.decryption_share@
                    == target_exp((r * z) % scalar_modulus())),
    {
        let decryption_share = pairing(&ciphertext_header.commitment, &private_key_share.0);
        let validator_checksum = match ValidatorShareChecksum::new(
            validator_decryption_key,
            ciphertext_header,
        ) {
            Ok(c) => c,
            Err(e) => {
                return Err(e);
            },
        };
        Ok(DecryptionShareSimple { decryption_share, validator_checksum })
    }

    /// Verifies the share with its checksum, as [ValidatorShareChecksum::verify] does.
    pub fn verify<T>(
        &self,
        share_aggregate: &G2Point,
        validator_public_key: &G2Point,
        ciphertext: &Ciphertext<T>,
    ) -> (res: bool)
        ensures
            res <==> (self.decryption_share@ == pairing_named(self.validator_checksum.checksum@, share_aggregate@) && pairing_named(
                self.validator_checksum.checksum@,
                validator_public_key@,
            ) == pairing_named(ciphertext.commitment@, g2_generator_bytes())),
            res == checksum_verifies(
                self.validator_checksum.checksum@,
                self.decryption_share@,
                share_aggregate@,
                validator_public_key@,
                ciphertext.commitment@,
            ),
            forall|b: nat, z: Seq<u8>|
                b < scalar_modulus() && is_inverse_of(b, scalar_inverse(b))
                    && self.validator_checksum.checksum@ == #[trigger] g1_smul(
                    ciphertext.commitment@,
                    scalar_inverse(b),
                ) && share_aggregate@ == #[trigger] g2_smul(z, b) && validator_public_key@
                    == g2_smul(g2_generator_bytes(), b) && self.decryption_share@ == pairing_named(
                    ciphertext.commitment@,
                    z,
                ) ==> res,
            is_honest_share(
                self.validator_checksum.checksum@,
                self.decryption_share@,
                share_aggregate@,
                validator_public_key@,
                ciphertext.commitment@,
            ) ==> res,
    {
        self.validator_checksum.verify(
            &self.decryption_share,
            share_aggregate,
            validator_public_key,
            ciphertext,
        )
    }
}

impl DecryptionSharePrecomputed {
    /// Creates a precomputed decryption share after checking the ciphertext header.
    pub fn create(
        validator_index: usize,
        validator_decryption_key: &Scalar,
        private_key_share: &PrivateKeyShare,
        ciphertext_header: &CiphertextHeader,
        aad: &[u8],
        lagrange_coeff: &Scalar,
    ) -> (res: Result<Self, Error>)
        requires
            header_is_valid(
                ciphertext_header.commitment@,
                ciphertext_header.auth_tag@,
                ciphertext_header.ciphertext_hash@,
                aad@,
            ) ==> validator_decryption_key@ != 0,
        ensures
            header_is_valid(
                ciphertext_header.commitment@,
                ciphertext_header.auth_tag@,
                ciphertext_header.ciphertext_hash@,
                aad@,
            ) <==> res is Ok,
            res is Ok ==> is_inverse_of(
                validator_decryption_key@,
                scalar_inverse(validator_decryption_key@),
            ),
            res matches Err(e) ==> e == Error::CiphertextVerificationFailed,
            res matches Ok(s) ==> s.decrypter_index == validator_index && s.decryption_share@
                == pairing_named(
                g1_smul(ciphertext_header.commitment@, lagrange_coeff@),
                private_key_share.0@,
            ) && s.validator_checksum.checksum@ == g1_smul(
                ciphertext_header.commitment@,
                scalar_inverse(validator_decryption_key@),
            ),
            forall|r: nat, z: nat|
                r < scalar_modulus() && z < scalar_modulus() && #[trigger] g1_smul(
                    g1_generator_bytes(),
                    r,
                ) == ciphertext_header.commitment@ && #[trigger] g2_smul(g2_generator_bytes(), z)
                    == private_key_share.0@ ==> (res matches Ok(s) ==> s.decryption_share@
                    == target_exp((((r * lagrange_coeff@) % scalar_modulus()) * z) % scalar_modulus())),
    {
        match ciphertext_header.check(aad) {
            Ok(_) => {},
            Err(e) => {
                return Err(e);
            },
        }
        Self::create_unchecked(
            validator_index,
            validator_decryption_key,
            private_key_share,
            ciphertext_header,
            lagrange_coeff,
        )
    }

    /// Creates a precomputed decryption share without checking the ciphertext:
    /// `D_i = e([lambda_i] U, Z_i)` with the checksum `[dk_i^{-1}] U`.
    pub fn create_unchecked(
        validator_index: usize,
        validator_decryption_key: &Scalar,
        private_key_share: &PrivateKeyShare,
        ciphertext_header: &CiphertextHeader,
        lagrange_coeff: &Scalar,
    ) -> (res: Result<Self, Error>)
        requires
            validator_decryption_key@ != 0,
        ensures
            is_inverse_of(validator_decryption_key@, scalar_inverse(validator_decryption_key@)),
            res matches Ok(s) && s.decrypter_index == validator_index && s.decryption_share@
                == pairing_named(
                g1_smul(ciphertext_header.commitment@, lagrange_coeff@),
                private_key_share.0@,
            ) && s.validator_checksum.checksum@ == g1_smul(
                ciphertext_header.commitment@,
                scalar_inverse(validator_decryption_key@),
            ),
            forall|r: nat, z: nat|
                r < scalar_modulus() && z < scalar_modulus() && #[trigger] g1_smul(
                    g1_generator_bytes(),
                    r,
                ) == ciphertext_header.commitment@ && #[trigger] g2_smul(g2_generator_bytes(), z)
                    == private_key_share.0@ ==> (res matches Ok(s) && s.decryption_share@
                    == target_exp((((r * lagrange_coeff@) % scalar_modulus()) * z) % scalar_modulus())),
    {
        let u_to_lagrange_coeff = g1_mul(&ciphertext_header.commitment, lagrange_coeff);
        let decryption_share = pairing(&u_to_lagrange_coeff, &private_key_share.0);
        let validator_checksum = match ValidatorShareChecksum::new(
            validator_decryption_key,
            ciphertext_header,
        ) {
            Ok(c) => c,
            Err(e) => {
                return Err(e);
            },
        };
        Ok(DecryptionSharePrecomputed {
            decrypter_index: validator_index,
            decryption_share,
            validator_checksum,
        })
    }

    /// Verifies the share with its checksum, as [ValidatorShareChecksum::verify] does. The
    /// share is checked as a simple share would be: one made honestly with the coefficient
    /// one, `D = e([1] U, Z) = e(U, Z)`, is accepted.
    pub fn verify<T>(
        &self,
        share_aggregate: &G2Point,
        validator_public_key: &G2Point,
        ciphertext: &Ciphertext<T>,
    ) -> (res: bool)
        ensures
            res <==> (self.decryption_share@ == pairing_named(self.validator_checksum.checksum@, share_aggregate@) && pairing_named(
                self.validator_checksum.checksum@,
                validator_public_key@,
            ) == pairing_named(ciphertext.commitment@, g2_generator_bytes())),
            res == checksum_verifies(
                self.validator_checksum.checksum@,
                self.decryption_share@,
                share_aggregate@,
                validator_public_key@,
                ciphertext.commitment@,
            ),
            is_honest_share(
                self.validator_checksum.checksum@,
                self.decryption_share@,
                share_aggregate@,
                validator_public_key@,
                ciphertext.commitment@,
            ) ==> res,
    {
        self.validator_checksum.verify(
            &self.decryption_share,
            share_aggregate,
            validator_public_key,
            ciphertext,
        )
    }
}

/// The `i`-th simple share verifies against the `i`-th public context.
pub open spec fn share_verifies_against(
    share: DecryptionShareSimple,
    context: PublicDecryptionContextSimple,
    commitment: Seq<u8>,
) -> bool {
    checksum_verifies(
        share.validator_checksum.checksum@,
        share.decryption_share@,
        context.blinded_key_share.blinded_key_share@,
        context.validator_public_key.encryption_key@,
        commitment,
    )
}

/// The `i`-th simple share was made honestly for the `i`-th public context.
pub open spec fn share_made_honestly_for(
    share: DecryptionShareSimple,
    context: PublicDecryptionContextSimple,
    commitment: Seq<u8>,
) -> bool {
    is_honest_share(
        share.validator_checksum.checksum@,
        share.decryption_share@,
        context.blinded_key_share.blinded_key_share@,
        context.validator_public_key.encryption_key@,
        commitment,
    )
}

/// A simple share verifies against a public context exactly when its value is the pairing
/// of its checksum with the context's blinded key share and the checksum passes
/// `e(C, ek) == e(U, H)` with the context's validator key: a share whose value is not
/// `e(C, Y)` fails, whatever its checksum.
pub proof fn lemma_share_verifies_against_context(
    share: DecryptionShareSimple,
    context: PublicDecryptionContextSimple,
    commitment: Seq<u8>,
)
    ensures
        share_verifies_against(share, context, commitment) <==> (share.decryption_share@
            == pairing_named(
            share.validator_checksum.checksum@,
            context.blinded_key_share.blinded_key_share@,
        ) && pairing_named(
            share.validator_checksum.checksum@,
            context.validator_public_key.encryption_key@,
        ) == pairing_named(commitment, g2_generator_bytes())),
        share.decryption_share@ != pairing_named(
            share.validator_checksum.checksum@,
            context.blinded_key_share.blinded_key_share@,
        ) ==> !share_verifies_against(share, context, commitment),
{
}

/// Verifies the simple decryption shares against the public contexts, pairing them up in
/// order as far as both lists go: true exactly when every such share verifies against the
/// blinded key share and validator key of its context.
/// Shares made honestly for their contexts all verify.
pub fn verify_decryption_shares_simple<T>(
    pub_contexts: &[PublicDecryptionContextSimple],
    ciphertext: &Ciphertext<T>,
    decryption_shares: &[DecryptionShareSimple],
) -> (res: bool)
    ensures
        res <==> (forall|i: int|
            #![trigger decryption_shares@[i], pub_contexts@[i]]
            0 <= i < pub_contexts@.len() && 0 <= i < decryption_shares@.len() ==> decryption_shares@[i].decryption_share@
                == pairing_named(
                decryption_shares@[i].validator_checksum.checksum@,
                pub_contexts@[i].blinded_key_share.blinded_key_share@,
            ) && pairing_named(
                decryption_shares@[i].validator_checksum.checksum@,
                pub_contexts@[i].validator_public_key.encryption_key@,
            ) == pairing_named(ciphertext.commitment@, g2_generator_bytes())),
        res == (forall|i: int|
            0 <= i < pub_contexts@.len() && 0 <= i < decryption_shares@.len()
                ==> #[trigger] share_verifies_against(
                decryption_shares@[i],
                pub_contexts@[i],
                ciphertext.commitment@,
            )),
        (forall|i: int|
            0 <= i < pub_contexts@.len() && 0 <= i < decryption_shares@.len()
                ==> #[trigger] share_made_honestly_for(
                decryption_shares@[i],
                pub_contexts@[i],
                ciphertext.commitment@,
            )) ==> res,
{
    let n = if pub_contexts.len() < decryption_shares.len() {
        pub_contexts.len()
    } else {
        decryption_shares.len()
    };
    let mut i: usize = 0;
    while i < n
        invariant
            n <= pub_contexts@.len(),
            n <= decryption_shares@.len(),
            n == pub_contexts@.len() || n == decryption_shares@.len(),
            i <= n,
            forall|j: int|
                0 <= j < i ==> #[trigger] share_verifies_against(
                    decryption_shares@[j],
                    pub_contexts@[j],
                    ciphertext.commitment@,
                ),
        decreases n - i,
    {
        let decryption_share = &decryption_shares[i];
        let pub_context = &pub_contexts[i];
        let is_valid = decryption_share.verify(
            &pub_context.blinded_key_share.blinded_key_share,
            &pub_context.validator_public_key.encryption_key,
            ciphertext,
        );
        if !is_valid {
            assert(!share_made_honestly_for(
                decryption_shares@[i as int],
                pub_contexts@[i as int],
                ciphertext.commitment@,
            ));
            assert(!share_verifies_against(
                decryption_shares@[i as int],
                pub_contexts@[i as int],
                ciphertext.commitment@,
            ));
            return false;
        }
        i = i + 1;
    }
    assert forall|j: int|
        #![trigger decryption_shares@[j], pub_contexts@[j]]
        0 <= j < pub_contexts@.len() && 0 <= j < decryption_shares@.len() implies decryption_shares@[j].decryption_share@
            == pairing_named(
            decryption_shares@[j].validator_checksum.checksum@,
            pub_contexts@[j].blinded_key_share.blinded_key_share@,
        ) && pairing_named(
            decryption_shares@[j].validator_checksum.checksum@,
            pub_contexts@[j].validator_public_key.encryption_key@,
        ) == pairing_named(ciphertext.commitment@, g2_generator_bytes()) by {
        assert(share_verifies_against(
            decryption_shares@[j],
            pub_contexts@[j],
            ciphertext.commitment@,
        ));
    }
    true
}


/// The SCALE encoding of a simple decryption share: the framed share, then the framed checksum.
pub open spec fn simple_share_encoding(decryption_share: Seq<u8>, checksum: Seq<u8>) -> Seq<u8> {
    scale_bytes(decryption_share) + scale_bytes(checksum)
}

impl DecryptionShareSimple {
    /// Appends the SCALE encoding of the share to `dest`: its canonical bytes framed as a
    /// byte vector, then those of its checksum.
    pub fn encode_to(&self, dest: &mut Vec<u8>)
        ensures
            final(dest)@ == old(dest)@ + simple_share_encoding(
                self.decryption_share@,
                self.validator_checksum.checksum@,
            ),
    {
        let ghost start = dest@;
        encode_target(&self.decryption_share, dest);
        encode_g1(&self.validator_checksum.checksum, dest);
        assert(dest@ =~= start + simple_share_encoding(
            self.decryption_share@,
            self.validator_checksum.checksum@,
        ));
    }

    /// Reads a share from its SCALE encoding at the start of `input`, advancing `input` past
    /// it. The encoding of a share followed by any bytes reads back as that share, leaving
    /// those bytes.
    pub fn decode(input: &mut &[u8]) -> (res: Result<Self, Error>)
        ensures
            match read_target(old(input)@) {
                Err(f) => res matches Err(e) && e == Error::ParityCodecError(f),
                Ok((d, r1)) => match read_g1(r1) {
                    Err(f) => res matches Err(e) && e == Error::ParityCodecError(f),
                    Ok((c, r2)) => res matches Ok(x) && x.decryption_share@ == d
                        && x.validator_checksum.checksum@ == c && final(input)@ == r2,
                },
            },
            is_suffix(final(input)@, old(input)@),
            forall|d: Seq<u8>, c: Seq<u8>, rest: Seq<u8>|
                #[trigger] (simple_share_encoding(d, c) + rest) == old(input)@ && d.len() == 576
                    && gt_decodes(d) && c.len() == 48 && g1_decodes(c) ==> (res matches Ok(x)
                    && x.decryption_share@ == d && x.validator_checksum.checksum@ == c)
                    && final(input)@ == rest,
    {
        let ghost in0 = *input;
        let decryption_share = match decode_target(input) {
            Ok(p) => p,
            Err(e) => {
                proof {
                    assert forall|d: Seq<u8>, c: Seq<u8>, rest: Seq<u8>|
                        #[trigger] (simple_share_encoding(d, c) + rest) == in0@ && d.len() == 576
                            && gt_decodes(d) implies false by {
                        assert(simple_share_encoding(d, c) + rest =~= scale_bytes(d) + (
                        scale_bytes(c) + rest));
                    }
                }
                return Err(e);
            },
        };
        let ghost in1 = *input;
        proof {
            assert forall|d: Seq<u8>, c: Seq<u8>, rest: Seq<u8>|
                #[trigger] (simple_share_encoding(d, c) + rest) == in0@ && d.len() == 576
                    && gt_decodes(d) implies decryption_share@ == d && in1@ == scale_bytes(c)
                + rest by {
                assert(simple_share_encoding(d, c) + rest =~= scale_bytes(d) + (scale_bytes(c)
                    + rest));
            }
        }
        let checksum = match decode_g1(input) {
            Ok(p) => p,
            Err(e) => {
                proof {
                    crate::ciphertext::lemma_suffix_trans(in1@, in0@, (*input)@);
                }
                return Err(e);
            },
        };
        proof {
            crate::ciphertext::lemma_suffix_trans(in1@, in0@, (*input)@);
        }
        Ok(DecryptionShareSimple {
            decryption_share,
            validator_checksum: ValidatorShareChecksum { checksum },
        })
    }
}

} // verus!
