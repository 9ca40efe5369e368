//! The dealer: a random threshold polynomial, the key shares of the participants and
//! their decryption contexts.

use ark_poly::{
    univariate::DensePolynomial, DenseUVPolynomial, EvaluationDomain, GeneralEvaluationDomain,
};
use ark_serialize::CanonicalSerialize;
use crate::combine::{
    are_target_exps, differences_invertible, lagrange_coefficient, prepare_combine_simple,
    scalar_values, share_combine_simple, shorter, simple_share_values, weighted_product,
    weighted_sum, SharedSecret,
};
use crate::interpolation::distinct_residues;
use crate::context::{PrivateDecryptionContextSimple, PublicDecryptionContextSimple};
use crate::decryption::DecryptionShareSimple;
use crate::field::{fr_eq, random_scalar, scalar_modulus, Scalar};
use crate::group::{
    g1_generator, g1_generator_bytes, g1_mul, g1_smul, g2_generator, g2_generator_bytes, g2_mul,
    g2_smul, target_exp,
};
use crate::key_share::{BlindedKeyShare, DkgPublicKey, PrivateKeyShare, ShareCommitment};
use crate::keypair::PublicKey;
use vstd::prelude::*;

verus! {

/// The points of the evaluation domain that arkworks builds for `n` values: the powers of
/// a root of unity of order the next power of two.
pub uninterp spec fn domain_elements_named(n: nat) -> Seq<nat>;

/// The least power of two that is at least `n` (one for zero): `usize::next_power_of_two`.
pub open spec fn next_power_of_two(n: nat) -> nat
    decreases n,
{
    if n <= 1 {
        1
    } else {
        2 * next_power_of_two(((n + 1) / 2) as nat)
    }
}

/// The value at `x` of the polynomial with coefficients `coeffs` (constant term first),
/// modulo the group order.
pub open spec fn poly_eval(coeffs: Seq<nat>, x: nat) -> nat
    decreases coeffs.len(),
{
    if coeffs.len() == 0 {
        0
    } else {
        (coeffs[0] + x * poly_eval(coeffs.drop_first(), x)) % scalar_modulus()
    }
}

/// What the dealer hands out.
#[derive(Clone, Debug, PartialEq, Eq)]
pub struct DealerOutput {
    /// Group public key `[a_0] G`.
    pub public_key: DkgPublicKey,
    /// Group private key `[a_0] H`. This is only useful for non-threshold checks and tests.
    pub private_key: PrivateKeyShare,
    /// Per-participant private decryption contexts.
    pub private_contexts: Vec<PrivateDecryptionContextSimple>,
}

/// `DensePolynomial::rand(degree, rng).coeffs`: random coefficients, constant term first.
/// arkworks draws `degree + 1` of them with a non-zero leading one.
#[verifier::external_body]
fn random_polynomial(degree: usize, rng: &mut rand::rngs::StdRng) -> (res: Vec<Scalar>)
    ensures
        res@.len() == degree + 1,
        res@[degree as int]@ != 0,
{
    let poly = DensePolynomial::<ark_bls12_381::Fr>::rand(degree, rng);
    poly.coeffs.iter().map(|c| {
        let mut bytes = [0u8; 32];
        c.serialize_compressed(&mut bytes[..]).unwrap();
        Scalar { bytes }
    }).collect()
}

/// `GeneralEvaluationDomain::<Fr>::new(n)` and its `elements()`. For `n` up to `2^31`,
/// `n.next_power_of_two()` does not overflow on any target and the radix-2 domain of that
/// many points exists (the scalar field has two-adicity 32), so the call gives that domain.
/// The contract names the points and claims their number and that they are distinct (the
/// powers of a root of unity of the domain's order).
#[verifier::external_body]
fn domain_elements(n: usize) -> (res: Vec<Scalar>)
    requires
        n <= 0x8000_0000,
    ensures
        domain_elements_named(n as nat) == scalar_values(res@),
        res@.len() == next_power_of_two(n as nat),
        res@.len() >= n,
        distinct_residues(scalar_values(res@)),
{
    let domain = GeneralEvaluationDomain::<ark_bls12_381::Fr>::new(n).unwrap();
    domain.elements().map(|e| {
        let mut bytes = [0u8; 32];
        e.serialize_compressed(&mut bytes[..]).unwrap();
        Scalar { bytes }
    }).collect()
}

/// `DensePolynomial::from_coefficients_vec(coeffs).evaluate_over_domain_by_ref(domain)` for
/// the domain of `n` values: the values of the polynomial at the domain points.
#[verifier::external_body]
fn evaluate_over_domain(coeffs: &[Scalar], n: usize) -> (res: Vec<Scalar>)
    requires
        n <= 0x8000_0000,
        coeffs@.len() <= n,
    ensures
        res@.len() == domain_elements_named(n as nat).len(),
        forall|j: int|
            0 <= j < res@.len() ==> #[trigger] res@[j]@ == poly_eval(
                scalar_values(coeffs@),
                domain_elements_named(n as nat)[j],
            ),
{
    let domain = GeneralEvaluationDomain::<ark_bls12_381::Fr>::new(n).unwrap();
    let poly = DensePolynomial::from_coefficients_vec(
        coeffs.iter().map(|c| ark_ff::PrimeField::from_le_bytes_mod_order(&c.bytes)).collect(),
    );
    poly.evaluate_over_domain_by_ref(domain).evals.iter().map(|e| {
        let mut bytes = [0u8; 32];
        e.serialize_compressed(&mut bytes[..]).unwrap();
        Scalar { bytes }
    }).collect()
}


/// The public context that the dealer makes for a participant with domain point `x`,
/// share value `s = f(x)` and blinding factor `b`.
pub open spec fn dealt_public_context(
    ctx: PublicDecryptionContextSimple,
    x: nat,
    s: nat,
    b: nat,
) -> bool {
    &&& ctx.domain@ == x
    &&& ctx.share_commitment.0@ == g1_smul(g1_generator_bytes(), s)
    &&& ctx.blinded_key_share.validator_public_key@ == g2_smul(g2_generator_bytes(), b)
    &&& ctx.blinded_key_share.blinded_key_share@ == g2_smul(g2_smul(g2_generator_bytes(), s), b)
    &&& ctx.validator_public_key.encryption_key == ctx.blinded_key_share.validator_public_key
}

/// The constant term of a polynomial, `f(0)`.
pub open spec fn constant_term(coeffs: Seq<nat>) -> nat {
    if coeffs.len() == 0 {
        0
    } else {
        coeffs[0]
    }
}

/// `out` is what the dealer hands out for the polynomial `coeffs`, the domain `points` and
/// the blinding factors `blinding`: the group keys from `f(0)`, and for each domain point
/// `x_j` the key share `[f(x_j)] H`, its commitment, and its blinding by `b_j`; each
/// private context holds all the public ones.
pub open spec fn is_dealt(
    out: DealerOutput,
    coeffs: Seq<nat>,
    points: Seq<nat>,
    blinding: Seq<nat>,
) -> bool {
    let a0 = constant_term(coeffs);
    &&& out.public_key.0@ == g1_smul(g1_generator_bytes(), a0)
    &&& out.private_key.0@ == g2_smul(g2_generator_bytes(), a0)
    &&& out.private_contexts@.len() == points.len()
    &&& forall|j: int|
        #![trigger out.private_contexts@[j]]
        0 <= j < points.len() ==> {
            let ctx = out.private_contexts@[j];
            &&& ctx.index == j
            &&& ctx.validator_decryption_key@ == blinding[j]
            &&& ctx.private_key_share.0@ == g2_smul(
                g2_generator_bytes(),
                poly_eval(coeffs, points[j]),
            )
            &&& ctx.public_decryption_contexts@.len() == points.len()
            &&& forall|k: int|
                #![trigger ctx.public_decryption_contexts@[k]]
                0 <= k < points.len() ==> dealt_public_context(
                    ctx.public_decryption_contexts@[k],
                    points[k],
                    poly_eval(coeffs, points[k]),
                    blinding[k],
                )
        }
}

/// Deals the keys for the threshold polynomial `coeffs` and the blinding factors
/// `blinding`, one per point of the evaluation domain of `shares_num` values.
pub fn deal_with_randomness(
    shares_num: usize,
    coeffs: &[Scalar],
    blinding: &[Scalar],
) -> (res: DealerOutput)
    requires
        coeffs@.len() <= shares_num,
        shares_num <= 0x8000_0000,
        blinding@.len() == next_power_of_two(shares_num as nat),
    ensures
        is_dealt(
            res,
            scalar_values(coeffs@),
            domain_elements_named(shares_num as nat),
            scalar_values(blinding@),
        ),
{
    let g = g1_generator();
    let h = g2_generator();
    let domain_points = domain_elements(shares_num);
    let evals = evaluate_over_domain(coeffs, shares_num);
    let ghost points = domain_elements_named(shares_num as nat);
    let ghost cs = scalar_values(coeffs@);
    let ghost bs = scalar_values(blinding@);
    let n = domain_points.len();
    assert(n == points.len());
    let a_0 = if coeffs.len() == 0 {
        Scalar::zero()
    } else {
        coeffs[0]
    };
    let group_pubkey = g1_mul(&g, &a_0);
    let private_key = PrivateKeyShare(g2_mul(&h, &a_0));
    let mut public_contexts: Vec<PublicDecryptionContextSimple> = Vec::new();
    let mut shares: Vec<PrivateKeyShare> = Vec::new();
    let mut j: usize = 0;
    while j < n
        invariant
            n == points.len(),
            n == domain_points@.len(),
            n == evals@.len(),
            n == blinding@.len(),
            points == scalar_values(domain_points@),
            cs == scalar_values(coeffs@),
            bs == scalar_values(blinding@),
            g@ == g1_generator_bytes(),
            h@ == g2_generator_bytes(),
            forall|k: int| 0 <= k < n ==> #[trigger] evals@[k]@ == poly_eval(cs, points[k]),
            j <= n,
            public_contexts@.len() == j,
            shares@.len() == j,
            forall|k: int|
                0 <= k < j ==> dealt_public_context(
                    #[trigger] public_contexts@[k],
                    points[k],
                    poly_eval(cs, points[k]),
                    bs[k],
                ),
            forall|k: int|
                0 <= k < j ==> #[trigger] shares@[k].0@ == g2_smul(
                    g2_generator_bytes(),
                    poly_eval(cs, points[k]),
                ),
        decreases n - j,
    {
        let share_commit = g1_mul(&g, &evals[j]);
        let private_key_share = PrivateKeyShare(g2_mul(&h, &evals[j]));
        let blinding_factor = blinding[j];
        let validator_public_key = g2_mul(&h, &blinding_factor);
        let blinded_key_share = BlindedKeyShare {
            validator_public_key,
            blinded_key_share: g2_mul(&private_key_share.0, &blinding_factor),
        };
        public_contexts.push(
            PublicDecryptionContextSimple {
                domain: domain_points[j],
                share_commitment: ShareCommitment(share_commit),
                blinded_key_share,
                validator_public_key: PublicKey {
                    encryption_key: blinded_key_share.validator_public_key,
                },
            },
        );
        shares.push(private_key_share);
        j = j + 1;
    }
    let mut private_contexts: Vec<PrivateDecryptionContextSimple> = Vec::new();
    let mut index: usize = 0;
    while index < n
        invariant
            n == points.len(),
            n == blinding@.len(),
            n == shares@.len(),
            n == public_contexts@.len(),
            cs == scalar_values(coeffs@),
            bs == scalar_values(blinding@),
            forall|k: int|
                0 <= k < n ==> dealt_public_context(
                    #[trigger] public_contexts@[k],
                    points[k],
                    poly_eval(cs, points[k]),
                    bs[k],
                ),
            forall|k: int|
                0 <= k < n ==> #[trigger] shares@[k].0@ == g2_smul(
                    g2_generator_bytes(),
                    poly_eval(cs, points[k]),
                ),
            index <= n,
            private_contexts@.len() == index,
            forall|k: int|
                #![trigger private_contexts@[k]]
                0 <= k < index ==> {
                    let ctx = private_contexts@[k];
                    &&& ctx.index == k
                    &&& ctx.validator_decryption_key@ == bs[k]
                    &&& ctx.private_key_share.0@ == g2_smul(
                        g2_generator_bytes(),
                        poly_eval(cs, points[k]),
                    )
                    &&& ctx.public_decryption_contexts@ == public_contexts@
                },
        decreases n - index,
    {
        let contexts_copy = copy_contexts(&public_contexts);
        private_contexts.push(
            PrivateDecryptionContextSimple {
                index,
                validator_decryption_key: blinding[index],
                private_key_share: shares[index],
                public_decryption_contexts: contexts_copy,
            },
        );
        index = index + 1;
    }
    proof {
        if cs.len() > 0 {
            assert(a_0@ == cs[0]);
        }
    }
    DealerOutput {
        public_key: DkgPublicKey(group_pubkey),
        private_key,
        private_contexts,
    }
}

/// A copy of a list of public contexts.
fn copy_contexts(contexts: &Vec<PublicDecryptionContextSimple>) -> (res: Vec<PublicDecryptionContextSimple>)
    ensures
        res@ == contexts@,
{
    let mut out: Vec<PublicDecryptionContextSimple> = Vec::new();
    let mut i: usize = 0;
    while i < contexts.len()
        invariant
            i <= contexts@.len(),
            out@ == contexts@.take(i as int),
        decreases contexts@.len() - i,
    {
        out.push(contexts[i]);
        i = i + 1;
        assert(out@ =~= contexts@.take(i as int));
    }
    assert(contexts@.take(contexts@.len() as int) =~= contexts@);
    out
}

/// Deals a public master key and private decryption contexts for a threshold decryption
/// setup: a random polynomial `f` of degree `threshold - 1`, the evaluation domain of
/// `shares_num` values (`shares_num.next_power_of_two()` points, one participant each), and a
/// random non-zero blinding factor per participant, which is the participant's validator key.
/// The share count is at most `2^31`, for which the domain's size is computed without
/// overflow on every target; a zero blinding factor, which cannot be inverted and is drawn
/// with probability `1/q`, is replaced by one.
pub fn deal(shares_num: usize, threshold: usize, rng: &mut rand::rngs::StdRng) -> (res: DealerOutput)
    requires
        threshold > 0,
        shares_num >= threshold,
        shares_num <= 0x8000_0000,
    ensures
        distinct_residues(domain_elements_named(shares_num as nat)),
        domain_elements_named(shares_num as nat).len() >= shares_num,
        domain_elements_named(shares_num as nat).len() == next_power_of_two(shares_num as nat),
        res.private_contexts@.len() == next_power_of_two(shares_num as nat),
        exists|coeffs: Seq<nat>, blinding: Seq<nat>|
            #![trigger is_dealt(res, coeffs, domain_elements_named(shares_num as nat), blinding)]
            coeffs.len() == threshold && coeffs[threshold - 1] != 0 && (forall|i: int|
                0 <= i < coeffs.len() ==> #[trigger] coeffs[i] < scalar_modulus())
                && blinding.len() == domain_elements_named(shares_num as nat).len() && (forall|
                i: int|
                0 <= i < blinding.len() ==> #[trigger] blinding[i] != 0) && is_dealt(
                res,
                coeffs,
                domain_elements_named(shares_num as nat),
                blinding,
            ),
{
    let coeffs = random_polynomial(threshold - 1, rng);
    let domain_points = domain_elements(shares_num);
    let zero = Scalar::zero();
    let mut blinding: Vec<Scalar> = Vec::new();
    let mut j: usize = 0;
    while j < domain_points.len()
        invariant
            j <= domain_points@.len(),
            blinding@.len() == j,
            zero@ == 0,
            forall|k: int| 0 <= k < j ==> #[trigger] blinding@[k]@ != 0,
        decreases domain_points@.len() - j,
    {
        let b = random_scalar(rng);
        // A validator key must have an inverse; zero, drawn with negligible probability, is
        // replaced by one.
        let b = if fr_eq(&b, &zero) {
            Scalar::one()
        } else {
            b
        };
        blinding.push(b);
        j = j + 1;
    }
    let out = deal_with_randomness(shares_num, coeffs.as_slice(), blinding.as_slice());
    assert(scalar_values(coeffs@).len() == threshold);
    assert forall|i: int| 0 <= i < scalar_values(coeffs@).len() implies #[trigger] scalar_values(
        coeffs@,
    )[i] < scalar_modulus() by {
        assert(scalar_values(coeffs@)[i] == coeffs@[i]@);
    }
    assert forall|i: int| 0 <= i < scalar_values(blinding@).len() implies #[trigger] scalar_values(
        blinding@,
    )[i] != 0 by {
        assert(scalar_values(blinding@)[i] == blinding@[i]@);
    }
    out
}

/// The residues of the domain points of public contexts, in their order.
pub open spec fn context_points(contexts: Seq<PublicDecryptionContextSimple>) -> Seq<nat> {
    Seq::new(contexts.len(), |k: int| contexts[k].domain@)
}

/// Combines simple decryption shares with the Lagrange coefficients at zero of the domain
/// points of the given public contexts, pairing shares and contexts up in order.
pub fn create_shared_secret_simple(
    pub_contexts: &[PublicDecryptionContextSimple],
    decryption_shares: &[DecryptionShareSimple],
) -> (res: SharedSecret)
    ensures
        res.0@ == weighted_product(
            simple_share_values(decryption_shares@),
            Seq::new(
                pub_contexts@.len(),
                |j: int|
                    lagrange_coefficient(
                        Seq::new(pub_contexts@.len(), |k: int| pub_contexts@[k].domain@),
                        j,
                        0,
                    ),
            ),
            if decryption_shares@.len() < pub_contexts@.len() {
                decryption_shares@.len() as int
            } else {
                pub_contexts@.len() as int
            },
        ),
        differences_invertible(context_points(pub_contexts@)),
        forall|cs: Seq<nat>|
            #[trigger] are_target_exps(
                simple_share_values(decryption_shares@),
                cs,
                shorter(decryption_shares@.len(), pub_contexts@.len()),
            ) ==> res.0@ == target_exp(
                weighted_sum(
                    cs,
                    Seq::new(
                        pub_contexts@.len(),
                        |j: int| lagrange_coefficient(context_points(pub_contexts@), j, 0),
                    ),
                    shorter(decryption_shares@.len(), pub_contexts@.len()),
                ),
            ),
{
    let mut domain: Vec<Scalar> = Vec::new();
    let mut i: usize = 0;
    while i < pub_contexts.len()
        invariant
            i <= pub_contexts@.len(),
            domain@.len() == i,
            forall|k: int| 0 <= k < i ==> #[trigger] domain@[k] == pub_contexts@[k].domain,
        decreases pub_contexts@.len() - i,
    {
        domain.push(pub_contexts[i].domain);
        i = i + 1;
    }
    let lagrange_coeffs = prepare_combine_simple(domain.as_slice());
    let res = share_combine_simple(decryption_shares, lagrange_coeffs.as_slice());
    proof {
        let pts = Seq::new(pub_contexts@.len(), |k: int| pub_contexts@[k].domain@);
        assert(scalar_values(domain@) =~= pts);
        assert(context_points(pub_contexts@) == pts);
        assert(scalar_values(lagrange_coeffs@) =~= Seq::new(
            pub_contexts@.len(),
            |j: int| lagrange_coefficient(pts, j, 0),
        ));
    }
    res
}

} // verus!
