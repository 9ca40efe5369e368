//! Combining decryption shares into the shared secret, with Lagrange coefficients.

use crate::decryption::{DecryptionSharePrecomputed, DecryptionShareSimple};
use crate::field::{
    fr_eq, fr_inverse, fr_mul, fr_sub, is_inverse_of, scalar_inverse, scalar_modulus, Scalar,
};
use crate::group::{
    gt_mul, gt_mul_named, gt_one, gt_one_bytes, gt_pow, gt_power, target_exp, Gt,
};
use vstd::prelude::*;

verus! {

/// The secret `e(U, [a_0] H)` from which the symmetric key of a ciphertext is derived.
#[derive(Clone, Copy, Debug, PartialEq, Eq)]
pub struct SharedSecret(pub Gt);

/// `a - b` modulo the group order, for residues `a` and `b`.
pub open spec fn scalar_sub(a: nat, b: nat) -> nat {
    ((a + scalar_modulus() - b) % scalar_modulus() as int) as nat
}

/// `a / b` modulo the group order: `a` times the inverse of `b`.
pub open spec fn scalar_div(a: nat, b: nat) -> nat {
    (a * scalar_inverse(b)) % scalar_modulus()
}

/// The difference of any two different points has an inverse, as it does in the scalar field.
pub open spec fn differences_invertible(d: Seq<nat>) -> bool {
    forall|i: int, j: int|
        #![trigger d[i], d[j]]
        0 <= i < d.len() && 0 <= j < d.len() && d[i] != d[j] ==> is_inverse_of(
            scalar_sub(d[i], d[j]),
            scalar_inverse(scalar_sub(d[i], d[j])),
        )
}

/// The residues of a sequence of scalars.
pub open spec fn scalar_values(s: Seq<Scalar>) -> Seq<nat> {
    s.map_values(|x: Scalar| x@)
}

/// The factor `(m - x) / (m - base)` of a Lagrange basis polynomial.
pub open spec fn lagrange_factor(m: nat, base: nat, x: nat) -> nat {
    scalar_div(scalar_sub(m, x), scalar_sub(m, base))
}

/// The product, over the first `k` points `m` of `domain` that differ from `base`, of
/// `(m - x) / (m - base)`, taken in order.
pub open spec fn lagrange_partial(domain: Seq<nat>, base: nat, x: nat, k: int) -> nat
    decreases k,
{
    if k <= 0 {
        1
    } else {
        let prev = lagrange_partial(domain, base, x, k - 1);
        if base != domain[k - 1] {
            (prev * lagrange_factor(domain[k - 1], base, x)) % scalar_modulus()
        } else {
            prev
        }
    }
}

/// The Lagrange basis polynomial of `domain[j]` over `domain`, evaluated at `x`.
pub open spec fn lagrange_coefficient(domain: Seq<nat>, j: int, x: nat) -> nat {
    lagrange_partial(domain, domain[j], x, domain.len() as int)
}

/// The product of the first `k` shares, each raised to its coefficient, starting from one.
pub open spec fn weighted_product(shares: Seq<Seq<u8>>, coeffs: Seq<nat>, k: int) -> Seq<u8>
    decreases k,
{
    if k <= 0 {
        gt_one_bytes()
    } else {
        gt_mul_named(
            weighted_product(shares, coeffs, k - 1),
            gt_power(shares[k - 1], coeffs[k - 1]),
        )
    }
}

/// `sum_{i < k} cs[i] * coeffs[i]` modulo the group order.
pub open spec fn weighted_sum(cs: Seq<nat>, coeffs: Seq<nat>, k: int) -> nat
    decreases k,
{
    if k <= 0 {
        0
    } else {
        (weighted_sum(cs, coeffs, k - 1) + (cs[k - 1] * coeffs[k - 1]) % scalar_modulus())
            % scalar_modulus()
    }
}

/// `sum_{i < k} cs[i]` modulo the group order.
pub open spec fn residue_sum(cs: Seq<nat>, k: int) -> nat
    decreases k,
{
    if k <= 0 {
        0
    } else {
        (residue_sum(cs, k - 1) + cs[k - 1]) % scalar_modulus()
    }
}

/// The first `k` elements are `e([cs[i]] G, H)` for residues `cs[i]`.
pub open spec fn are_target_exps(elems: Seq<Seq<u8>>, cs: Seq<nat>, k: int) -> bool {
    &&& cs.len() == k
    &&& k <= elems.len()
    &&& forall|i: int| 0 <= i < k ==> cs[i] < scalar_modulus() && #[trigger] elems[i] == target_exp(cs[i])
}

/// The smaller of two lengths.
pub open spec fn shorter(a: nat, b: nat) -> int {
    if a < b {
        a as int
    } else {
        b as int
    }
}

/// The product of the first `k` elements, starting from one.
pub open spec fn gt_product(elems: Seq<Seq<u8>>, k: int) -> Seq<u8>
    decreases k,
{
    if k <= 0 {
        gt_one_bytes()
    } else {
        gt_mul_named(gt_product(elems, k - 1), elems[k - 1])
    }
}

/// The encoded decryption shares of simple shares.
pub open spec fn simple_share_values(s: Seq<DecryptionShareSimple>) -> Seq<Seq<u8>> {
    s.map_values(|d: DecryptionShareSimple| d.decryption_share@)
}

/// The encoded decryption shares of precomputed shares.
pub open spec fn precomputed_share_values(s: Seq<DecryptionSharePrecomputed>) -> Seq<Seq<u8>> {
    s.map_values(|d: DecryptionSharePrecomputed| d.decryption_share@)
}

/// The Lagrange coefficients of the points of `domain`, evaluated at `x`. The points are
/// compared as residues; equal points contribute no factor.
pub fn lagrange_coefficients_at(domain: &[Scalar], x: &Scalar) -> (res: Option<Vec<Scalar>>)
    ensures
        res matches Some(c) && c@.len() == domain@.len() && forall|j: int|
            0 <= j < domain@.len() ==> #[trigger] c@[j]@ == lagrange_coefficient(
                scalar_values(domain@),
                j,
                x@,
            ),
        differences_invertible(scalar_values(domain@)),
{
    let ghost vals = scalar_values(domain@);
    let n = domain.len();
    let mut coeffs: Vec<Scalar> = Vec::new();
    let mut j: usize = 0;
    while j < n
        invariant
            n == domain@.len(),
            vals == scalar_values(domain@),
            j <= n,
            coeffs@.len() == j,
            forall|i: int| 0 <= i < j ==> #[trigger] coeffs@[i]@ == lagrange_coefficient(vals, i, x@),
            forall|i: int, m2: int|
                #![trigger vals[i], vals[m2]]
                0 <= i < j && 0 <= m2 < n && vals[i] != vals[m2] ==> is_inverse_of(
                    scalar_sub(vals[m2], vals[i]),
                    scalar_inverse(scalar_sub(vals[m2], vals[i])),
                ),
        decreases n - j,
    {
        let mut prod = Scalar::one();
        let mut m: usize = 0;
        while m < n
            invariant
                n == domain@.len(),
                vals == scalar_values(domain@),
                j < n,
                m <= n,
                prod@ == lagrange_partial(vals, vals[j as int], x@, m as int),
            forall|i: int, m2: int|
                #![trigger vals[i], vals[m2]]
                0 <= i < j && 0 <= m2 < n && vals[i] != vals[m2] ==> is_inverse_of(
                    scalar_sub(vals[m2], vals[i]),
                    scalar_inverse(scalar_sub(vals[m2], vals[i])),
                ),
            forall|m2: int|
                #![trigger vals[m2]]
                0 <= m2 < m && vals[j as int] != vals[m2] ==> is_inverse_of(
                    scalar_sub(vals[m2], vals[j as int]),
                    scalar_inverse(scalar_sub(vals[m2], vals[j as int])),
                ),
            decreases n - m,
        {
            if !fr_eq(&domain[j], &domain[m]) {
                let num = fr_sub(&domain[m], x);
                let den = fr_sub(&domain[m], &domain[j]);
                assert(vals[m as int] == domain@[m as int]@);
                assert(vals[j as int] == domain@[j as int]@);
                assert(den@ != 0);
                // A non-zero difference has an inverse.
                let inv = match fr_inverse(&den) {
                    Some(i) => i,
                    None => vstd::pervasive::unreached(),
                };
                let q = fr_mul(&num, &inv);
                assert(den@ == scalar_sub(vals[m as int], vals[j as int]));
                assert(q@ == scalar_div(num@, den@));
                prod = fr_mul(&prod, &q);
            }
            m = m + 1;
        }
        coeffs.push(prod);
        j = j + 1;
    }
    assert forall|i: int, m2: int|
        #![trigger vals[i], vals[m2]]
        0 <= i < vals.len() && 0 <= m2 < vals.len() && vals[i] != vals[m2] implies is_inverse_of(
            scalar_sub(vals[i], vals[m2]),
            scalar_inverse(scalar_sub(vals[i], vals[m2])),
        ) by {
        assert(vals[m2] != vals[i]);
    }
    Some(coeffs)
}

/// The Lagrange coefficients at zero of the points of `domain`, which combine shares of a
/// secret `f(0)`.
pub fn prepare_combine_simple(domain: &[Scalar]) -> (res: Vec<Scalar>)
    ensures
        res@.len() == domain@.len(),
        differences_invertible(scalar_values(domain@)),
        forall|j: int|
            0 <= j < domain@.len() ==> #[trigger] res@[j]@ == lagrange_coefficient(
                scalar_values(domain@),
                j,
                0,
            ),
{
    let zero = Scalar::zero();
    match lagrange_coefficients_at(domain, &zero) {
        Some(c) => c,
        None => vstd::pervasive::unreached(),
    }
}

/// Combines simple shares: the product of each share raised to its coefficient, pairing
/// shares and coefficients up in order as far as both lists go. For shares
/// `e([c_i] G, H)` this is `e([sum_i c_i lambda_i] G, H)`.
pub fn share_combine_simple(
    decryption_shares: &[DecryptionShareSimple],
    lagrange_coeffs: &[Scalar],
) -> (res: SharedSecret)
    ensures
        res.0@ == weighted_product(
            simple_share_values(decryption_shares@),
            scalar_values(lagrange_coeffs@),
            shorter(decryption_shares@.len(), lagrange_coeffs@.len()),
        ),
        forall|cs: Seq<nat>|
            #[trigger] are_target_exps(
                simple_share_values(decryption_shares@),
                cs,
                shorter(decryption_shares@.len(), lagrange_coeffs@.len()),
            ) ==> res.0@ == target_exp(
                weighted_sum(
                    cs,
                    scalar_values(lagrange_coeffs@),
                    shorter(decryption_shares@.len(), lagrange_coeffs@.len()),
                ),
            ),
{
    let n = if decryption_shares.len() < lagrange_coeffs.len() {
        decryption_shares.len()
    } else {
        lagrange_coeffs.len()
    };
    let ghost shares = simple_share_values(decryption_shares@);
    let ghost coeffs = scalar_values(lagrange_coeffs@);
    let mut product = gt_one();
    let mut i: usize = 0;
    while i < n
        invariant
            n <= decryption_shares@.len(),
            n <= lagrange_coeffs@.len(),
            shares == simple_share_values(decryption_shares@),
            coeffs == scalar_values(lagrange_coeffs@),
            i <= n,
            product@ == weighted_product(shares, coeffs, i as int),
            forall|cs: Seq<nat>|
                #[trigger] are_target_exps(shares, cs, n as int) ==> product@ == target_exp(
                    weighted_sum(cs, coeffs, i as int),
                ),
        decreases n - i,
    {
        let term = gt_pow(&decryption_shares[i].decryption_share, &lagrange_coeffs[i]);
        let next = gt_mul(&product, &term);
        proof {
            assert forall|cs: Seq<nat>| #[trigger] are_target_exps(shares, cs, n as int) implies next@
                == target_exp(weighted_sum(cs, coeffs, i + 1)) by {
                let c = cs[i as int];
                assert(shares[i as int] == target_exp(c));
                assert(shares[i as int] == decryption_shares@[i as int].decryption_share@);
                assert(term@ == target_exp((c * coeffs[i as int]) % scalar_modulus()));
                let w = weighted_sum(cs, coeffs, i as int);
                assert(w < scalar_modulus());
                assert(product@ == target_exp(w));
            }
        }
        product = next;
        i = i + 1;
    }
    SharedSecret(product)
}

/// Combines precomputed shares: the product of the shares. For shares `e([c_i] G, H)` this
/// is `e([sum_i c_i] G, H)`.
pub fn share_combine_precomputed(shares: &[DecryptionSharePrecomputed]) -> (res: SharedSecret)
    ensures
        res.0@ == gt_product(precomputed_share_values(shares@), shares@.len() as int),
        forall|cs: Seq<nat>|
            #[trigger] are_target_exps(precomputed_share_values(shares@), cs, shares@.len() as int)
                ==> res.0@ == target_exp(residue_sum(cs, shares@.len() as int)),
{
    let ghost elems = precomputed_share_values(shares@);
    let mut product = gt_one();
    let mut i: usize = 0;
    while i < shares.len()
        invariant
            elems == precomputed_share_values(shares@),
            i <= shares@.len(),
            product@ == gt_product(elems, i as int),
            forall|cs: Seq<nat>|
                #[trigger] are_target_exps(elems, cs, shares@.len() as int) ==> product@
                    == target_exp(residue_sum(cs, i as int)),
        decreases shares@.len() - i,
    {
        let next = gt_mul(&product, &shares[i].decryption_share);
        proof {
            assert forall|cs: Seq<nat>| #[trigger] are_target_exps(elems, cs, shares@.len() as int) implies next@
                == target_exp(residue_sum(cs, i + 1)) by {
                let c = cs[i as int];
                assert(elems[i as int] == target_exp(c));
                assert(elems[i as int] == shares@[i as int].decryption_share@);
                let w = residue_sum(cs, i as int);
                assert(w < scalar_modulus());
            }
        }
        product = next;
        i = i + 1;
    }
    SharedSecret(product)
}

} // verus!
