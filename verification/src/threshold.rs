//! The laws of threshold decryption: shares of a dealt key combine into the shared secret
//! of an encryption under the dealt public key.

use crate::ciphertext::encryption_shared_secret;
use crate::combine::{are_target_exps, differences_invertible, lagrange_coefficient, residue_sum, weighted_sum};
use crate::dealer::{constant_term, poly_eval};
use crate::field::scalar_modulus;
use crate::group::{g1_generator_bytes, g1_smul, g2_generator_bytes, pairing_named, target_exp};
use crate::interpolation::{distinct_residues, lemma_threshold_recovers_secret};
use crate::field::Scalar;
use crate::key_share::sorted_point_values;
use crate::listing::sorted_listing;
use vstd::prelude::*;

verus! {

/// The Lagrange coefficients at zero of the points.
pub open spec fn coefficients_at_zero(points: Seq<nat>) -> Seq<nat> {
    Seq::new(points.len(), |j: int| lagrange_coefficient(points, j, 0))
}

/// The exponents `r f(x_j)` of the simple shares `e(U, [f(x_j)] H) = e([r f(x_j)] G, H)` that
/// participants at the points `x_j` make for a ciphertext with commitment `U = [r] G`.
pub open spec fn simple_share_exponents(points: Seq<nat>, coeffs: Seq<nat>, r: nat) -> Seq<nat> {
    Seq::new(points.len(), |j: int| (r * poly_eval(coeffs, points[j])) % scalar_modulus())
}

/// The exponents `[r lambda_j] f(x_j)` of the precomputed shares
/// `e([lambda_j] U, [f(x_j)] H)`, `lambda_j` the Lagrange coefficient at zero of `x_j`.
pub open spec fn precomputed_share_exponents(points: Seq<nat>, coeffs: Seq<nat>, r: nat) -> Seq<nat> {
    Seq::new(
        points.len(),
        |j: int|
            (((r * lagrange_coefficient(points, j, 0)) % scalar_modulus()) * poly_eval(
                coeffs,
                points[j],
            )) % scalar_modulus(),
    )
}

/// The encryption under `pk = [f(0)] G` with randomness `r` has the shared secret
/// `e([f(0) r] G, H)`, as encryption states it.
pub open spec fn encryption_secret_is(pk: Seq<u8>, r: nat) -> bool {
    forall|a: nat|
        a < scalar_modulus() && #[trigger] g1_smul(g1_generator_bytes(), a) == pk
            ==> encryption_shared_secret(pk, r) == pairing_named(
            g1_smul(g1_generator_bytes(), (a * r) % scalar_modulus()),
            g2_generator_bytes(),
        )
}

/// The constant term of a polynomial with residue coefficients is a residue.
proof fn lemma_constant_term_residue(coeffs: Seq<nat>)
    requires
        forall|i: int| 0 <= i < coeffs.len() ==> #[trigger] coeffs[i] < scalar_modulus(),
    ensures
        constant_term(coeffs) < scalar_modulus(),
{
    if coeffs.len() > 0 {
        assert(coeffs[0] < scalar_modulus());
    }
}

/// Threshold decryption, simple variant: participants at distinct points, at least as many
/// as the dealt polynomial `f` has coefficients, make the shares `e([r f(x_j)] G, H)` for a
/// ciphertext with commitment `[r] G`; whatever combines them with the Lagrange coefficients at
/// zero of their points, as `create_shared_secret_simple` does, obtains the shared secret of
/// the encryption under the dealt public key `[f(0)] G`: `e([f(0) r] G, H)`, the secret that
/// decryption with the dealt private key `[f(0)] H` derives from the commitment.
pub proof fn lemma_simple_shares_give_encryption_secret(
    points: Seq<nat>,
    coeffs: Seq<nat>,
    r: nat,
    pk: Seq<u8>,
    shares: Seq<Seq<u8>>,
    secret: Seq<u8>,
)
    requires
        distinct_residues(points),
        differences_invertible(points),
        coeffs.len() <= points.len(),
        forall|i: int| 0 <= i < coeffs.len() ==> #[trigger] coeffs[i] < scalar_modulus(),
        r < scalar_modulus(),
        pk == g1_smul(g1_generator_bytes(), constant_term(coeffs)),
        encryption_secret_is(pk, r),
        shares.len() == points.len(),
        forall|j: int|
            0 <= j < points.len() ==> #[trigger] shares[j] == target_exp(
                simple_share_exponents(points, coeffs, r)[j],
            ),
        forall|cs: Seq<nat>|
            #[trigger] are_target_exps(shares, cs, points.len() as int) ==> secret == target_exp(
                weighted_sum(cs, coefficients_at_zero(points), points.len() as int),
            ),
    ensures
        secret == encryption_shared_secret(pk, r),
        secret == target_exp((constant_term(coeffs) * r) % scalar_modulus()),
{
    let cs = simple_share_exponents(points, coeffs, r);
    assert(are_target_exps(shares, cs, points.len() as int));
    lemma_threshold_recovers_secret(points, coeffs, r);
    assert(cs == Seq::new(
        points.len(),
        |j: int| (r * poly_eval(coeffs, points[j])) % scalar_modulus(),
    ));
    lemma_constant_term_residue(coeffs);
    let a = constant_term(coeffs);
    assert(r * a == a * r) by (nonlinear_arith);
    assert(g1_smul(g1_generator_bytes(), a) == pk);
}

/// `(r l mod q) z mod q == (r z mod q) l mod q`: multiplying by `l` before or after `z`.
proof fn lemma_exponent_reorder(r: nat, l: nat, z: nat)
    ensures
        (((r * l) % scalar_modulus()) * z) % scalar_modulus() == (((r * z) % scalar_modulus()) * l)
            % scalar_modulus(),
{
    let m = scalar_modulus() as int;
    vstd::arithmetic::div_mod::lemma_mul_mod_noop_left((r * l) as int, z as int, m);
    vstd::arithmetic::div_mod::lemma_mul_mod_noop_left((r * z) as int, l as int, m);
    assert((r * l) * z == (r * z) * l) by (nonlinear_arith);
}

/// A precomputed share is the simple share raised to the Lagrange coefficient: for a
/// commitment `[r] G` and a key share `[z] H`, the precomputed share made with the coefficient
/// `l`, `e([l] U, [z] H) = e([(r l) z] G, H)`, is the simple share `e(U, [z] H) = e([r z] G, H)`
/// raised to `l`, `e([(r z) l] G, H)`; with the coefficient one it is the simple share.
pub proof fn lemma_precomputed_share_is_simple_share_power(r: nat, z: nat, l: nat)
    requires
        r < scalar_modulus(),
        z < scalar_modulus(),
    ensures
        target_exp((((r * l) % scalar_modulus()) * z) % scalar_modulus()) == target_exp(
            (((r * z) % scalar_modulus()) * l) % scalar_modulus(),
        ),
        target_exp((((r * 1) % scalar_modulus()) * z) % scalar_modulus()) == target_exp(
            (r * z) % scalar_modulus(),
        ),
{
    lemma_exponent_reorder(r, l, z);
    assert(r * 1 == r);
    assert((r % scalar_modulus()) == r) by {
        vstd::arithmetic::div_mod::lemma_small_mod(r, scalar_modulus());
    }
}

/// The precomputed shares sum as the simple shares weighted by the Lagrange coefficients.
proof fn lemma_precomputed_sum(points: Seq<nat>, coeffs: Seq<nat>, r: nat, k: int)
    requires
        0 <= k <= points.len(),
    ensures
        residue_sum(precomputed_share_exponents(points, coeffs, r), k) == weighted_sum(
            simple_share_exponents(points, coeffs, r),
            coefficients_at_zero(points),
            k,
        ),
    decreases k,
{
    if k > 0 {
        lemma_precomputed_sum(points, coeffs, r, k - 1);
        let m = scalar_modulus() as int;
        let l = lagrange_coefficient(points, k - 1, 0) as int;
        let f = poly_eval(coeffs, points[k - 1]) as int;
        lemma_exponent_reorder(r, l as nat, f as nat);
        assert(precomputed_share_exponents(points, coeffs, r)[k - 1] == ((r * l) % m * f) % m);
        assert(simple_share_exponents(points, coeffs, r)[k - 1] == (r * f) % m);
        assert(coefficients_at_zero(points)[k - 1] == l);
    }
}

/// Threshold decryption, precomputed variant: participants at distinct points, at least as
/// many as the dealt polynomial `f` has coefficients, make the shares
/// `e([lambda_j] U, [f(x_j)] H)` for a ciphertext with commitment `U = [r] G`, `lambda_j` the
/// Lagrange coefficient at zero of their point; whatever multiplies them together, as
/// `share_combine_precomputed` does, obtains the shared secret of the encryption under the
/// dealt public key `[f(0)] G`: `e([f(0) r] G, H)`, the secret that decryption with the dealt
/// private key `[f(0)] H` derives from the commitment.
pub proof fn lemma_precomputed_shares_give_encryption_secret(
    points: Seq<nat>,
    coeffs: Seq<nat>,
    r: nat,
    pk: Seq<u8>,
    shares: Seq<Seq<u8>>,
    secret: Seq<u8>,
)
    requires
        distinct_residues(points),
        differences_invertible(points),
        coeffs.len() <= points.len(),
        forall|i: int| 0 <= i < coeffs.len() ==> #[trigger] coeffs[i] < scalar_modulus(),
        r < scalar_modulus(),
        pk == g1_smul(g1_generator_bytes(), constant_term(coeffs)),
        encryption_secret_is(pk, r),
        shares.len() == points.len(),
        forall|j: int|
            0 <= j < points.len() ==> #[trigger] shares[j] == target_exp(
                precomputed_share_exponents(points, coeffs, r)[j],
            ),
        forall|cs: Seq<nat>|
            #[trigger] are_target_exps(shares, cs, points.len() as int) ==> secret == target_exp(
                residue_sum(cs, points.len() as int),
            ),
    ensures
        secret == encryption_shared_secret(pk, r),
        secret == target_exp((constant_term(coeffs) * r) % scalar_modulus()),
{
    let cs = precomputed_share_exponents(points, coeffs, r);
    assert(are_target_exps(shares, cs, points.len() as int));
    lemma_precomputed_sum(points, coeffs, r, points.len() as int);
    lemma_threshold_recovers_secret(points, coeffs, r);
    assert(simple_share_exponents(points, coeffs, r) == Seq::new(
        points.len(),
        |j: int| (r * poly_eval(coeffs, points[j])) % scalar_modulus(),
    ));
    lemma_constant_term_residue(coeffs);
    let a = constant_term(coeffs);
    assert(r * a == a * r) by (nonlinear_arith);
    assert(g1_smul(g1_generator_bytes(), a) == pk);
}

/// Threshold decryption, precomputed variant with shares made from blinded key shares and a
/// map of domain points, as `create_decryption_share_precomputed` makes them: the share of
/// the participant at sorted position `j` of the map is `e([lambda_j] U, [f(x_j)] H)`, with
/// `lambda_j` the Lagrange coefficient at zero of its point among the map's sorted points.
/// When the map holds at least as many distinct points as the dealt polynomial has
/// coefficients, the product of the shares is the shared secret `e([f(0) r] G, H)` of the
/// encryption under the dealt public key, whatever order the map is walked in.
pub proof fn lemma_map_precomputed_shares_give_encryption_secret(
    m: Map<u32, Scalar>,
    coeffs: Seq<nat>,
    r: nat,
    pk: Seq<u8>,
    shares: Seq<Seq<u8>>,
    secret: Seq<u8>,
)
    requires
        distinct_residues(sorted_point_values(sorted_listing(m))),
        differences_invertible(sorted_point_values(sorted_listing(m))),
        coeffs.len() <= sorted_listing(m).len(),
        forall|i: int| 0 <= i < coeffs.len() ==> #[trigger] coeffs[i] < scalar_modulus(),
        r < scalar_modulus(),
        pk == g1_smul(g1_generator_bytes(), constant_term(coeffs)),
        encryption_secret_is(pk, r),
        shares.len() == sorted_listing(m).len(),
        forall|j: int|
            0 <= j < shares.len() ==> #[trigger] shares[j] == target_exp(
                (((r * lagrange_coefficient(sorted_point_values(sorted_listing(m)), j, 0))
                    % scalar_modulus()) * poly_eval(
                    coeffs,
                    sorted_point_values(sorted_listing(m))[j],
                )) % scalar_modulus(),
            ),
        forall|cs: Seq<nat>|
            #[trigger] are_target_exps(shares, cs, shares.len() as int) ==> secret == target_exp(
                residue_sum(cs, shares.len() as int),
            ),
    ensures
        secret == encryption_shared_secret(pk, r),
        secret == target_exp((constant_term(coeffs) * r) % scalar_modulus()),
{
    let points = sorted_point_values(sorted_listing(m));
    assert(points.len() == sorted_listing(m).len());
    assert forall|j: int| 0 <= j < points.len() implies #[trigger] shares[j] == target_exp(
        precomputed_share_exponents(points, coeffs, r)[j],
    ) by {
        assert(shares[j] == target_exp(
            (((r * lagrange_coefficient(points, j, 0)) % scalar_modulus()) * poly_eval(
                coeffs,
                points[j],
            )) % scalar_modulus(),
        ));
    }
    lemma_precomputed_shares_give_encryption_secret(points, coeffs, r, pk, shares, secret);
}

} // verus!
