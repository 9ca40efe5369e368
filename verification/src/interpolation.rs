//! Lagrange interpolation in the scalar field: the coefficients that the library computes
//! recover a polynomial's value from its values at enough distinct points.

use crate::combine::{
    differences_invertible, lagrange_coefficient, lagrange_factor, lagrange_partial, scalar_sub,
    weighted_sum,
};
use crate::dealer::{constant_term, poly_eval};
use crate::field::{is_inverse_of, scalar_inverse, scalar_modulus};
use vstd::arithmetic::div_mod::*;
use vstd::prelude::*;

verus! {

/// The group order, as an integer.
spec fn rr() -> int {
    scalar_modulus() as int
}

/// `a` and `b` are congruent modulo the group order.
spec fn cong(a: int, b: int) -> bool {
    a % rr() == b % rr()
}

/// Congruence is kept by addition.
proof fn lemma_cong_add(a: int, b: int, c: int, d: int)
    requires
        cong(a, c),
        cong(b, d),
    ensures
        cong(a + b, c + d),
{
    lemma_add_mod_noop(a, b, rr());
    lemma_add_mod_noop(c, d, rr());
}

/// Congruence is kept by subtraction.
proof fn lemma_cong_sub(a: int, b: int, c: int, d: int)
    requires
        cong(a, c),
        cong(b, d),
    ensures
        cong(a - b, c - d),
{
    lemma_sub_mod_noop(a, b, rr());
    lemma_sub_mod_noop(c, d, rr());
}

/// Congruence is kept by multiplication.
proof fn lemma_cong_mul(a: int, b: int, c: int, d: int)
    requires
        cong(a, c),
        cong(b, d),
    ensures
        cong(a * b, c * d),
{
    lemma_mul_mod_noop(a, b, rr());
    lemma_mul_mod_noop(c, d, rr());
}

/// A residue is congruent to what it is the residue of.
proof fn lemma_cong_mod(a: int)
    ensures
        cong(a % rr(), a),
{
    lemma_mod_twice(a, rr());
}

/// Congruent residues are equal.
proof fn lemma_cong_residues(a: int, b: int)
    requires
        cong(a, b),
        0 <= a < rr(),
        0 <= b < rr(),
    ensures
        a == b,
{
    lemma_small_mod(a as nat, rr() as nat);
    lemma_small_mod(b as nat, rr() as nat);
}

/// The difference of residues is congruent to their difference as integers.
proof fn lemma_sub_cong(a: nat, b: nat)
    ensures
        cong(scalar_sub(a, b) as int, a - b),
{
    let s = a + rr() - b;
    lemma_mod_twice(s, rr());
    lemma_mod_add_multiples_vanish(a - b, rr());
    assert(scalar_sub(a, b) == s % rr());
}


/// The quotient of the division of a polynomial by `x - y`, coefficients constant term first.
pub open spec fn poly_quotient(coeffs: Seq<nat>, y: nat) -> Seq<nat>
    decreases coeffs.len(),
{
    if coeffs.len() <= 1 {
        seq![]
    } else {
        seq![poly_eval(coeffs.drop_first(), y)] + poly_quotient(coeffs.drop_first(), y)
    }
}

/// Division by `x - y`: `f(x) = (x - y) q(x) + f(y)`, with one coefficient fewer in `q`.
proof fn lemma_poly_division(coeffs: Seq<nat>, x: nat, y: nat)
    ensures
        poly_quotient(coeffs, y).len() == (if coeffs.len() == 0 {
            0
        } else {
            coeffs.len() - 1
        }),
        cong(
            poly_eval(coeffs, x) as int,
            (x - y) * poly_eval(poly_quotient(coeffs, y), x) + poly_eval(coeffs, y),
        ),
    decreases coeffs.len(),
{
    if coeffs.len() == 0 {
        assert(poly_quotient(coeffs, y) =~= seq![]);
        assert(poly_eval(poly_quotient(coeffs, y), x) == 0);
        assert((x - y) * 0 == 0);
    } else if coeffs.len() == 1 {
        let rest = coeffs.drop_first();
        assert(poly_eval(rest, x) == 0);
        assert(poly_eval(rest, y) == 0);
        assert(poly_eval(coeffs, x) == (coeffs[0] + x * 0) % scalar_modulus());
        assert(poly_eval(coeffs, y) == (coeffs[0] + y * 0) % scalar_modulus());
        lemma_cong_mod(coeffs[0] as int);
        assert(poly_quotient(coeffs, y) =~= seq![]);
        assert(poly_eval(poly_quotient(coeffs, y), x) == 0);
        assert((x - y) * 0 == 0);
        assert(cong(poly_eval(coeffs, x) as int, poly_eval(coeffs, y) as int));
    } else {
        let a0 = coeffs[0] as int;
        let f1 = coeffs.drop_first();
        let g1 = poly_quotient(f1, y);
        let g = poly_quotient(coeffs, y);
        lemma_poly_division(f1, x, y);
        let fy1 = poly_eval(f1, y) as int;
        let fx1 = poly_eval(f1, x) as int;
        let gx1 = poly_eval(g1, x) as int;
        assert(g.drop_first() =~= g1);
        assert(g[0] == fy1);
        let gx = poly_eval(g, x) as int;
        assert(gx == (fy1 + x * gx1) % rr());
        // f(x) = a0 + x f1(x) = a0 + x ((x - y) g1(x) + f1(y))
        assert(poly_eval(coeffs, x) == (a0 + x * fx1) % rr());
        lemma_cong_mod(a0 + x * fx1);
        lemma_cong_mul(x as int, fx1, x as int, (x - y) * gx1 + fy1);
        lemma_cong_add(a0, x * fx1, a0, x * ((x - y) * gx1 + fy1));
        // (x - y) g(x) + f(y) = (x - y)(f1(y) + x g1(x)) + a0 + y f1(y)
        assert(poly_eval(coeffs, y) == (a0 + y * fy1) % rr());
        lemma_cong_mod(fy1 + x * gx1);
        lemma_cong_mul((x - y) as int, gx, (x - y) as int, fy1 + x * gx1);
        lemma_cong_mod(a0 + y * fy1);
        lemma_cong_add(
            (x - y) * gx,
            poly_eval(coeffs, y) as int,
            (x - y) * (fy1 + x * gx1),
            a0 + y * fy1,
        );
        assert(a0 + x * ((x - y) * gx1 + fy1) == (x - y) * (fy1 + x * gx1) + (a0 + y * fy1))
            by (nonlinear_arith);
        assert(cong(poly_eval(coeffs, x) as int, a0 + x * ((x - y) * gx1 + fy1)));
        assert(cong((x - y) * gx + poly_eval(coeffs, y), a0 + x * ((x - y) * gx1 + fy1)));
    }
}


/// `sum_{j < k} f(j)` modulo the group order.
spec fn msum(f: spec_fn(int) -> int, k: int) -> int
    decreases k,
{
    if k <= 0 {
        0
    } else {
        (msum(f, k - 1) + f(k - 1)) % rr()
    }
}

/// A sum is a residue.
proof fn lemma_msum_range(f: spec_fn(int) -> int, k: int)
    ensures
        0 <= msum(f, k) < rr(),
    decreases k,
{
    if k > 0 {
        lemma_msum_range(f, k - 1);
    }
}

/// Sums of congruent terms with a common linear shape are congruent:
/// if `f(j) = alpha A(j) + beta B(j)` for every `j < k`, then the sums are related alike.
proof fn lemma_msum_linear(
    f: spec_fn(int) -> int,
    a: spec_fn(int) -> int,
    b: spec_fn(int) -> int,
    alpha: int,
    beta: int,
    k: int,
)
    requires
        forall|j: int| 0 <= j < k ==> cong(#[trigger] f(j), alpha * a(j) + beta * b(j)),
    ensures
        cong(msum(f, k), alpha * msum(a, k) + beta * msum(b, k)),
    decreases k,
{
    if k > 0 {
        lemma_msum_linear(f, a, b, alpha, beta, k - 1);
        let fs = msum(f, k - 1);
        let as_ = msum(a, k - 1);
        let bs = msum(b, k - 1);
        let fj = f(k - 1);
        let aj = a(k - 1);
        let bj = b(k - 1);
        // msum(f, k) = fs + fj = alpha as + beta bs + alpha aj + beta bj
        lemma_cong_mod(fs + fj);
        lemma_cong_add(fs, fj, alpha * as_ + beta * bs, alpha * aj + beta * bj);
        lemma_cong_mod(as_ + aj);
        lemma_cong_mod(bs + bj);
        lemma_cong_mul(alpha, msum(a, k), alpha, as_ + aj);
        lemma_cong_mul(beta, msum(b, k), beta, bs + bj);
        lemma_cong_add(alpha * msum(a, k), beta * msum(b, k), alpha * (as_ + aj), beta * (bs + bj));
        assert(alpha * (as_ + aj) + beta * (bs + bj) == (alpha * as_ + beta * bs) + (alpha * aj
            + beta * bj)) by (nonlinear_arith);
    }
}

/// The partial products of two domains that agree on their first `k` points are equal.
proof fn lemma_partial_prefix(d1: Seq<nat>, d2: Seq<nat>, base: nat, x: nat, k: int)
    requires
        0 <= k <= d1.len(),
        k <= d2.len(),
        forall|i: int| 0 <= i < k ==> d1[i] == d2[i],
    ensures
        lagrange_partial(d1, base, x, k) == lagrange_partial(d2, base, x, k),
    decreases k,
{
    if k > 0 {
        lemma_partial_prefix(d1, d2, base, x, k - 1);
    }
}

/// A Lagrange factor is `(m - x)` times the inverse of `m - base`.
proof fn lemma_factor_cong(m: nat, base: nat, x: nat)
    ensures
        cong(
            lagrange_factor(m, base, x) as int,
            (m - x) * scalar_inverse(scalar_sub(m, base)),
        ),
{
    let i = scalar_inverse(scalar_sub(m, base)) as int;
    lemma_sub_cong(m, x);
    lemma_cong_mod(scalar_sub(m, x) * i);
    lemma_cong_mul(scalar_sub(m, x) as int, i, m - x, i);
}


/// The points are residues of the scalar field and pairwise distinct.
pub open spec fn distinct_residues(d: Seq<nat>) -> bool {
    &&& forall|i: int| 0 <= i < d.len() ==> #[trigger] d[i] < scalar_modulus()
    &&& forall|i: int, j: int|
        #![trigger d[i], d[j]]
        0 <= i < d.len() && 0 <= j < d.len() && i != j ==> d[i] != d[j]
}

/// The Lagrange coefficients of a domain at `x`, as a function of the index.
spec fn lc_terms(d: Seq<nat>, x: nat) -> spec_fn(int) -> int {
    |j: int| lagrange_coefficient(d, j, x) as int
}

/// A difference times its inverse is one.
proof fn lemma_inv_cong(a: nat, b: nat)
    requires
        is_inverse_of(scalar_sub(a, b), scalar_inverse(scalar_sub(a, b))),
    ensures
        cong((a - b) * scalar_inverse(scalar_sub(a, b)), 1),
{
    let u = scalar_inverse(scalar_sub(a, b)) as int;
    lemma_sub_cong(a, b);
    lemma_cong_mul(scalar_sub(a, b) as int, u, a - b, u);
    lemma_small_mod(1, scalar_modulus());
}

/// The Neville relation for one inner point: with `LD = P fa fb`, `LA = P fb`, `LB = P fa`,
/// `fa = (a - x) ia`, `fb = (b - x) ib` and `ia`, `ib` the inverses of `a - xj`, `b - xj`:
/// `(b - a) LD = (x - a) LA + (b - x) LB`.
proof fn lemma_neville_term(
    p: int,
    a: int,
    b: int,
    x: int,
    xj: int,
    fa: int,
    fb: int,
    ia: int,
    ib: int,
    ld: int,
    la: int,
    lb: int,
)
    requires
        cong(fa, (a - x) * ia),
        cong(fb, (b - x) * ib),
        cong((a - xj) * ia, 1),
        cong((b - xj) * ib, 1),
        ld == ((p * fa) % rr() * fb) % rr(),
        la == (p * fb) % rr(),
        lb == (p * fa) % rr(),
    ensures
        cong((b - a) * ld, (x - a) * la + (b - x) * lb),
{
    let q = p * (a - x) * (b - x);
    // LD = P fa fb = q ia ib
    lemma_cong_mod(p * fa);
    lemma_cong_mul((p * fa) % rr(), fb, p * fa, fb);
    lemma_cong_mod((p * fa) % rr() * fb);
    lemma_cong_mul(p, fa, p, (a - x) * ia);
    lemma_cong_mul(p * fa, fb, p * ((a - x) * ia), (b - x) * ib);
    assert(p * ((a - x) * ia) * ((b - x) * ib) == q * ia * ib) by (nonlinear_arith)
        requires
            q == p * (a - x) * (b - x),
    ;
    assert(cong(ld, q * ia * ib));
    lemma_cong_mul(b - a, ld, b - a, q * ia * ib);
    assert((b - a) * (q * ia * ib) == q * (ia * ((b - xj) * ib) - ib * ((a - xj) * ia)))
        by (nonlinear_arith);
    lemma_cong_mul(ia, (b - xj) * ib, ia, 1);
    lemma_cong_mul(ib, (a - xj) * ia, ib, 1);
    lemma_cong_sub(ia * ((b - xj) * ib), ib * ((a - xj) * ia), ia * 1, ib * 1);
    lemma_cong_mul(q, ia * ((b - xj) * ib) - ib * ((a - xj) * ia), q, ia * 1 - ib * 1);
    assert(cong((b - a) * ld, q * (ia - ib)));
    // (x - a) LA + (b - x) LB = q (ia - ib)
    lemma_cong_mod(p * fb);
    lemma_cong_mul(p, fb, p, (b - x) * ib);
    lemma_cong_mul(x - a, la, x - a, p * ((b - x) * ib));
    lemma_cong_mul(p, fa, p, (a - x) * ia);
    lemma_cong_mul(b - x, lb, b - x, p * ((a - x) * ia));
    lemma_cong_add(
        (x - a) * la,
        (b - x) * lb,
        (x - a) * (p * ((b - x) * ib)),
        (b - x) * (p * ((a - x) * ia)),
    );
    assert((x - a) * (p * ((b - x) * ib)) == -(q * ib)) by (nonlinear_arith)
        requires
            q == p * (a - x) * (b - x),
    ;
    assert((b - x) * (p * ((a - x) * ia)) == q * ia) by (nonlinear_arith)
        requires
            q == p * (a - x) * (b - x),
    ;
    assert(q * ia - q * ib == q * (ia - ib)) by (nonlinear_arith);
}

/// The Neville relation for an end point: with `LD = P f`, `f = (c - x) i` and `i` the
/// inverse of `c - e`: `(c - e) LD = (c - x) P`.
proof fn lemma_neville_end(p: int, c: int, e: int, x: int, f: int, i: int, ld: int)
    requires
        cong(f, (c - x) * i),
        cong((c - e) * i, 1),
        ld == (p * f) % rr(),
    ensures
        cong((c - e) * ld, (c - x) * p),
{
    lemma_cong_mod(p * f);
    lemma_cong_mul(p, f, p, (c - x) * i);
    lemma_cong_mul(c - e, ld, c - e, p * ((c - x) * i));
    assert((c - e) * (p * ((c - x) * i)) == (c - x) * p * ((c - e) * i)) by (nonlinear_arith);
    lemma_cong_mul((c - x) * p, (c - e) * i, (c - x) * p, 1);
}


/// Dropping points keeps them distinct with invertible differences: `sub` picks the points
/// of `d` at the distinct indices `idx`.
proof fn lemma_sub_domain(d: Seq<nat>, sub: Seq<nat>, idx: Seq<int>)
    requires
        distinct_residues(d),
        differences_invertible(d),
        idx.len() == sub.len(),
        forall|i: int| 0 <= i < sub.len() ==> 0 <= #[trigger] idx[i] < d.len() && sub[i] == d[idx[i]],
        forall|i: int, j: int| 0 <= i < idx.len() && 0 <= j < idx.len() && i != j ==> #[trigger] idx[i] != #[trigger] idx[j],
    ensures
        distinct_residues(sub),
        differences_invertible(sub),
{
    assert forall|i: int, j: int|
        #![trigger sub[i], sub[j]]
        0 <= i < sub.len() && 0 <= j < sub.len() && i != j implies sub[i] != sub[j] && is_inverse_of(
            scalar_sub(sub[i], sub[j]),
            scalar_inverse(scalar_sub(sub[i], sub[j])),
        ) by {
        let ii = idx[i];
        let jj = idx[j];
        assert(d[ii] != d[jj]);
    }
    assert forall|i: int| 0 <= i < sub.len() implies #[trigger] sub[i] < scalar_modulus() by {
        let ii = idx[i];
        assert(d[ii] < scalar_modulus());
    }
}

/// The domain without its second-to-last point.
spec fn drop_second_last(d: Seq<nat>) -> Seq<nat> {
    d.take(d.len() - 2).push(d[d.len() - 1])
}

/// Dropping the last or the second-to-last point keeps the points distinct with invertible
/// differences.
proof fn lemma_drops_are_sub_domains(d: Seq<nat>)
    requires
        d.len() >= 2,
        distinct_residues(d),
        differences_invertible(d),
    ensures
        distinct_residues(d.take(d.len() - 1)),
        differences_invertible(d.take(d.len() - 1)),
        distinct_residues(drop_second_last(d)),
        differences_invertible(drop_second_last(d)),
{
    let n = d.len() - 1;
    let idx_b = Seq::new(n as nat, |i: int| i);
    let idx_a = Seq::new(n as nat, |i: int| if i < n - 1 { i } else { n });
    lemma_sub_domain(d, d.take(n), idx_b);
    lemma_sub_domain(d, drop_second_last(d), idx_a);
}

/// Neville's relation for an inner point `x_j` of `d = ... a b`: its coefficient times
/// `b - a` is `(x - a)` times its coefficient without `a`, plus `(b - x)` times its
/// coefficient without `b`.
proof fn lemma_neville_inner(d: Seq<nat>, x: nat, j: int)
    requires
        d.len() >= 2,
        distinct_residues(d),
        differences_invertible(d),
        0 <= j < d.len() - 2,
    ensures
        ({
            let n = d.len() - 1;
            let a = d[n - 1];
            let b = d[n];
            cong(
                (b - a) * lagrange_coefficient(d, j, x),
                (x - a) * lagrange_coefficient(drop_second_last(d), j, x) + (b - x)
                    * lagrange_coefficient(d.take(n), j, x),
            )
        }),
{
    let n = d.len() - 1;
    let a = d[n - 1];
    let b = d[n];
    let sb = d.take(n);
    let sa = drop_second_last(d);
    let xj = d[j];
    assert(xj != a && xj != b);
    let p = lagrange_partial(d, xj, x, n - 1) as int;
    lemma_partial_prefix(d, sa, xj, x, n - 1);
    lemma_partial_prefix(d, sb, xj, x, n - 1);
    assert(sa[j] == xj);
    assert(sb[j] == xj);
    let fa = lagrange_factor(a, xj, x) as int;
    let fb = lagrange_factor(b, xj, x) as int;
    assert(lagrange_partial(d, xj, x, n) == (p * fa) % rr());
    assert(sa[n - 1] == b);
    assert(sb[n - 1] == a);
    lemma_factor_cong(a, xj, x);
    lemma_factor_cong(b, xj, x);
    lemma_inv_cong(a, xj);
    lemma_inv_cong(b, xj);
    lemma_neville_term(
        p,
        a as int,
        b as int,
        x as int,
        xj as int,
        fa,
        fb,
        scalar_inverse(scalar_sub(a, xj)) as int,
        scalar_inverse(scalar_sub(b, xj)) as int,
        lagrange_coefficient(d, j, x) as int,
        lagrange_coefficient(sa, j, x) as int,
        lagrange_coefficient(sb, j, x) as int,
    );
}

/// Neville's relation for the point `a` of `d = ... a b`.
proof fn lemma_neville_first_end(d: Seq<nat>, x: nat)
    requires
        d.len() >= 2,
        distinct_residues(d),
        differences_invertible(d),
    ensures
        ({
            let n = d.len() - 1;
            let a = d[n - 1];
            let b = d[n];
            cong(
                (b - a) * lagrange_coefficient(d, n - 1, x),
                (b - x) * lagrange_coefficient(d.take(n), n - 1, x),
            )
        }),
{
    let n = d.len() - 1;
    let a = d[n - 1];
    let b = d[n];
    let sb = d.take(n);
    assert(a != b);
    let pa = lagrange_partial(d, a, x, n - 1) as int;
    let fba = lagrange_factor(b, a, x) as int;
    assert(lagrange_partial(d, a, x, n) == pa);
    assert(lagrange_coefficient(d, n - 1, x) == (pa * fba) % rr());
    lemma_partial_prefix(d, sb, a, x, n - 1);
    assert(lagrange_coefficient(sb, n - 1, x) == pa);
    lemma_factor_cong(b, a, x);
    lemma_inv_cong(b, a);
    lemma_neville_end(
        pa,
        b as int,
        a as int,
        x as int,
        fba,
        scalar_inverse(scalar_sub(b, a)) as int,
        lagrange_coefficient(d, n - 1, x) as int,
    );
}

/// Neville's relation for the point `b` of `d = ... a b`.
proof fn lemma_neville_last_end(d: Seq<nat>, x: nat)
    requires
        d.len() >= 2,
        distinct_residues(d),
        differences_invertible(d),
    ensures
        ({
            let n = d.len() - 1;
            let a = d[n - 1];
            let b = d[n];
            cong(
                (b - a) * lagrange_coefficient(d, n, x),
                (x - a) * lagrange_coefficient(drop_second_last(d), n - 1, x),
            )
        }),
{
    let n = d.len() - 1;
    let a = d[n - 1];
    let b = d[n];
    let sa = drop_second_last(d);
    assert(a != b);
    let pb = lagrange_partial(d, b, x, n - 1) as int;
    let fab = lagrange_factor(a, b, x) as int;
    assert(lagrange_partial(d, b, x, n) == (pb * fab) % rr());
    assert(lagrange_coefficient(d, n, x) == (pb * fab) % rr());
    lemma_partial_prefix(d, sa, b, x, n - 1);
    assert(sa[n - 1] == b);
    assert(lagrange_coefficient(sa, n - 1, x) == pb);
    lemma_factor_cong(a, b, x);
    lemma_inv_cong(a, b);
    let ldn = lagrange_coefficient(d, n, x) as int;
    lemma_neville_end(
        pb,
        a as int,
        b as int,
        x as int,
        fab,
        scalar_inverse(scalar_sub(a, b)) as int,
        ldn,
    );
    lemma_cong_sub(0, (a - b) * ldn, 0, (a - x) * pb);
    assert(-((a - b) * ldn) == (b - a) * ldn) by (nonlinear_arith);
    assert(-((a - x) * pb) == (x - a) * pb) by (nonlinear_arith);
}

/// Neville's relation summed over the inner points of `d = ... a b`.
proof fn lemma_neville_inner_sum(d: Seq<nat>, x: nat)
    requires
        d.len() >= 2,
        distinct_residues(d),
        differences_invertible(d),
    ensures
        ({
            let n = d.len() - 1;
            let a = d[n - 1];
            let b = d[n];
            cong(
                (b - a) * msum(lc_terms(d, x), n - 1),
                (x - a) * msum(lc_terms(drop_second_last(d), x), n - 1) + (b - x) * msum(
                    lc_terms(d.take(n), x),
                    n - 1,
                ),
            )
        }),
{
    let n = d.len() - 1;
    let a = d[n - 1];
    let b = d[n];
    let ld = lc_terms(d, x);
    let la = lc_terms(drop_second_last(d), x);
    let lb = lc_terms(d.take(n), x);
    let td = |j: int| (b - a) * ld(j);
    assert forall|j: int| 0 <= j < n - 1 implies cong(
        #[trigger] td(j),
        (x - a) * la(j) + (b - x) * lb(j),
    ) by {
        lemma_neville_inner(d, x, j);
    }
    assert forall|j: int| 0 <= j < n - 1 implies cong(
        #[trigger] td(j),
        (b - a) * ld(j) + 0 * ld(j),
    ) by {}
    lemma_msum_linear(td, ld, ld, b - a, 0, n - 1);
    lemma_msum_linear(td, la, lb, x - a, b - x, n - 1);
}

/// The Neville step: if the coefficients of `d` without `a` and of `d` without `b` each sum
/// to one, so do those of `d = ... a b`.
proof fn lemma_partition_step(d: Seq<nat>, x: nat)
    requires
        d.len() >= 2,
        distinct_residues(d),
        differences_invertible(d),
        msum(lc_terms(drop_second_last(d), x), d.len() - 1) == 1,
        msum(lc_terms(d.take(d.len() - 1), x), d.len() - 1) == 1,
    ensures
        msum(lc_terms(d, x), d.len() as int) == 1,
{
    let n = d.len() - 1;
    let a = d[n - 1];
    let b = d[n];
    let ld = lc_terms(d, x);
    let la = lc_terms(drop_second_last(d), x);
    let lb = lc_terms(d.take(n), x);
    lemma_neville_inner_sum(d, x);
    lemma_neville_first_end(d, x);
    lemma_neville_last_end(d, x);
    assert(la(n - 1) == lagrange_coefficient(drop_second_last(d), n - 1, x));
    assert(lb(n - 1) == lagrange_coefficient(d.take(n), n - 1, x));
    assert(msum(ld, n) == (msum(ld, n - 1) + ld(n - 1)) % rr());
    assert(msum(ld, n + 1) == (msum(ld, n) + ld(n)) % rr());
    lemma_assemble(
        b - a,
        x - a,
        b - x,
        msum(ld, n - 1),
        ld(n - 1),
        ld(n),
        msum(la, n - 1),
        la(n - 1),
        msum(lb, n - 1),
        lb(n - 1),
        msum(ld, n + 1),
        msum(la, n),
        msum(lb, n),
    );
    let total = msum(ld, n + 1);
    let iba = scalar_inverse(scalar_sub(b, a)) as int;
    lemma_inv_cong(b, a);
    lemma_cong_mul((b - a) * total, iba, b - a, iba);
    assert((b - a) * total * iba == total * ((b - a) * iba)) by (nonlinear_arith);
    lemma_cong_mul(total, (b - a) * iba, total, 1);
    lemma_msum_range(ld, n + 1);
    lemma_cong_residues(total, 1);
}

/// The Lagrange coefficients of distinct points at any `x` sum to one.
proof fn lemma_partition_of_unity(d: Seq<nat>, x: nat)
    requires
        d.len() >= 1,
        distinct_residues(d),
        differences_invertible(d),
    ensures
        msum(lc_terms(d, x), d.len() as int) == 1,
    decreases d.len(),
{
    let ld = lc_terms(d, x);
    if d.len() == 1 {
        assert(lagrange_partial(d, d[0], x, 0) == 1);
        assert(ld(0) == 1);
        assert(msum(ld, 0) == 0);
        lemma_small_mod(1, scalar_modulus());
    } else {
        lemma_drops_are_sub_domains(d);
        lemma_partition_of_unity(drop_second_last(d), x);
        lemma_partition_of_unity(d.take(d.len() - 1), x);
        lemma_partition_step(d, x);
    }
}

/// Adds the two end terms to the inner sums, for the Neville step.
proof fn lemma_assemble(
    ba: int,
    xa: int,
    bx: int,
    sd: int,
    lda: int,
    ldb: int,
    sla: int,
    lab: int,
    slb: int,
    lba: int,
    total: int,
    suma: int,
    sumb: int,
)
    requires
        ba == xa + bx,
        cong(ba * sd, xa * sla + bx * slb),
        cong(ba * lda, bx * lba),
        cong(ba * ldb, xa * lab),
        total == ((sd + lda) % rr() + ldb) % rr(),
        suma == (sla + lab) % rr(),
        sumb == (slb + lba) % rr(),
        suma == 1,
        sumb == 1,
    ensures
        cong(ba * total, ba),
{
    lemma_cong_mod(sd + lda);
    lemma_cong_add((sd + lda) % rr(), ldb, sd + lda, ldb);
    lemma_cong_mod((sd + lda) % rr() + ldb);
    lemma_cong_mul(ba, total, ba, sd + lda + ldb);
    assert(ba * (sd + lda + ldb) == ba * sd + ba * lda + ba * ldb) by (nonlinear_arith);
    lemma_cong_add(ba * sd, ba * lda, xa * sla + bx * slb, bx * lba);
    lemma_cong_add(ba * sd + ba * lda, ba * ldb, xa * sla + bx * slb + bx * lba, xa * lab);
    assert(xa * sla + bx * slb + bx * lba + xa * lab == xa * (sla + lab) + bx * (slb + lba))
        by (nonlinear_arith);
    lemma_cong_mod(sla + lab);
    lemma_cong_mod(slb + lba);
    lemma_cong_mul(xa, sla + lab, xa, 1);
    lemma_cong_mul(bx, slb + lba, bx, 1);
    lemma_cong_add(xa * (sla + lab), bx * (slb + lba), xa * 1, bx * 1);
}


/// The shares `f(x_j)` weighted by the Lagrange coefficients of `d` at `x`.
spec fn interp_terms(d: Seq<nat>, f: Seq<nat>, x: nat) -> spec_fn(int) -> int {
    |j: int| (lagrange_coefficient(d, j, x) * poly_eval(f, d[j])) as int
}

/// One term of the interpolation step: with `ld = L F`, `F = (y - x) i`, `i` the inverse of
/// `y - xj` and `f(xj) = (xj - y) g(xj) + f(y)`: `ld f(xj) = (x - y) L g(xj) + f(y) ld`.
proof fn lemma_interp_term(
    l: int,
    f: int,
    fxj: int,
    gxj: int,
    fy: int,
    y: int,
    x: int,
    xj: int,
    i: int,
    ld: int,
)
    requires
        ld == (l * f) % rr(),
        cong(f, (y - x) * i),
        cong((y - xj) * i, 1),
        cong(fxj, (xj - y) * gxj + fy),
    ensures
        cong(ld * fxj, (x - y) * (l * gxj) + fy * ld),
{
    lemma_cong_mod(l * f);
    lemma_cong_mul(ld, fxj, l * f, (xj - y) * gxj + fy);
    assert((l * f) * ((xj - y) * gxj + fy) == (l * f) * (xj - y) * gxj + (l * f) * fy)
        by (nonlinear_arith);
    // (l f) (xj - y) gxj = -(l (y - x) gxj) ((y - xj) i)
    lemma_cong_mul(l, f, l, (y - x) * i);
    lemma_cong_mul(l * f, (xj - y) * gxj, l * ((y - x) * i), (xj - y) * gxj);
    assert((l * ((y - x) * i)) * ((xj - y) * gxj) == (x - y) * (l * gxj) * ((y - xj) * i))
        by (nonlinear_arith);
    lemma_cong_mul((x - y) * (l * gxj), (y - xj) * i, (x - y) * (l * gxj), 1);
    assert((l * f) * (xj - y) * gxj == (l * f) * ((xj - y) * gxj)) by (nonlinear_arith);
    // (l f) fy = ld fy
    lemma_cong_mul(l * f, fy, ld, fy);
    assert(ld * fy == fy * ld) by (nonlinear_arith);
    lemma_cong_add((l * f) * ((xj - y) * gxj), (l * f) * fy, (x - y) * (l * gxj), fy * ld);
}

/// Lagrange interpolation for a single point: the polynomial is a constant.
proof fn lemma_interpolation_one(d: Seq<nat>, f: Seq<nat>, x: nat)
    requires
        d.len() == 1,
        f.len() <= 1,
    ensures
        msum(interp_terms(d, f, x), 1) == poly_eval(f, x),
{
    let t = interp_terms(d, f, x);
    assert(lagrange_partial(d, d[0], x, 0) == 1);
    assert(lagrange_coefficient(d, 0, x) == 1);
    if f.len() == 1 {
        assert(poly_eval(f.drop_first(), x) == 0);
        assert(poly_eval(f.drop_first(), d[0]) == 0);
        assert(poly_eval(f, x) == (f[0] + x * 0) % scalar_modulus());
        assert(poly_eval(f, d[0]) == (f[0] + d[0] * 0) % scalar_modulus());
    } else {
        assert(poly_eval(f, x) == 0);
        assert(poly_eval(f, d[0]) == 0);
    }
    assert(poly_eval(f, d[0]) == poly_eval(f, x));
    assert(t(0) == poly_eval(f, x));
    assert(msum(t, 0) == 0);
    assert(msum(t, 1) == (0 + t(0)) % rr());
    lemma_small_mod(poly_eval(f, x), scalar_modulus());
}

/// The interpolation step: from interpolation of the quotient by `x - y` over the points
/// before `y`, and the partition of unity over all the points.
proof fn lemma_interpolation_step(d: Seq<nat>, f: Seq<nat>, x: nat)
    requires
        d.len() >= 2,
        distinct_residues(d),
        differences_invertible(d),
        f.len() <= d.len(),
        msum(
            interp_terms(d.take(d.len() - 1), poly_quotient(f, d[d.len() - 1]), x),
            d.len() - 1,
        ) == poly_eval(poly_quotient(f, d[d.len() - 1]), x),
        msum(lc_terms(d, x), d.len() as int) == 1,
    ensures
        msum(interp_terms(d, f, x), d.len() as int) == poly_eval(f, x),
{
    let t = interp_terms(d, f, x);
    let n = d.len() - 1;
    let y = d[n];
    let dd = d.take(n);
    let g = poly_quotient(f, y);
    let fy = poly_eval(f, y) as int;
    lemma_poly_division(f, x, y);
    let gt = interp_terms(dd, g, x);
    let ld = lc_terms(d, x);
    assert forall|j: int| 0 <= j < n implies cong(#[trigger] t(j), (x - y) * gt(j) + fy * ld(j)) by {
        lemma_interpolation_term(d, f, x, j);
    }
    lemma_msum_linear(t, gt, ld, x - y, fy, n);
    let sg = msum(gt, n);
    let sl = msum(ld, n);
    assert(msum(t, n + 1) == (msum(t, n) + t(n)) % rr());
    assert(msum(ld, n + 1) == (sl + ld(n)) % rr());
    assert(t(n) == fy * ld(n)) by (nonlinear_arith)
        requires
            t(n) == ld(n) * fy,
    ;
    lemma_cong_mod(msum(t, n) + t(n));
    lemma_cong_add(msum(t, n), t(n), (x - y) * sg + fy * sl, fy * ld(n));
    assert((x - y) * sg + fy * sl + fy * ld(n) == (x - y) * sg + fy * (sl + ld(n)))
        by (nonlinear_arith);
    lemma_cong_mod(sl + ld(n));
    lemma_cong_mul(fy, sl + ld(n), fy, 1);
    lemma_cong_add((x - y) * sg, fy * (sl + ld(n)), (x - y) * sg, fy * 1);
    lemma_msum_range(t, n + 1);
    lemma_cong_residues(msum(t, n + 1), poly_eval(f, x) as int);
}

/// One inner term of the interpolation step.
proof fn lemma_interpolation_term(d: Seq<nat>, f: Seq<nat>, x: nat, j: int)
    requires
        d.len() >= 2,
        distinct_residues(d),
        differences_invertible(d),
        0 <= j < d.len() - 1,
    ensures
        ({
            let n = d.len() - 1;
            let y = d[n];
            cong(
                interp_terms(d, f, x)(j),
                (x - y) * interp_terms(d.take(n), poly_quotient(f, y), x)(j) + poly_eval(f, y)
                    * lc_terms(d, x)(j),
            )
        }),
{
    let n = d.len() - 1;
    let y = d[n];
    let dd = d.take(n);
    let g = poly_quotient(f, y);
    let xj = d[j];
    assert(xj != y);
    assert(dd[j] == xj);
    lemma_partial_prefix(d, dd, xj, x, n);
    let l = lagrange_coefficient(dd, j, x) as int;
    let fac = lagrange_factor(y, xj, x) as int;
    assert(lagrange_coefficient(d, j, x) == (l * fac) % rr());
    lemma_factor_cong(y, xj, x);
    lemma_inv_cong(y, xj);
    lemma_poly_division(f, xj, y);
    lemma_interp_term(
        l,
        fac,
        poly_eval(f, xj) as int,
        poly_eval(g, xj) as int,
        poly_eval(f, y) as int,
        y as int,
        x as int,
        xj as int,
        scalar_inverse(scalar_sub(y, xj)) as int,
        lagrange_coefficient(d, j, x) as int,
    );
}

/// Lagrange interpolation: for distinct points `d` and a polynomial `f` with at most
/// `d.len()` coefficients, `sum_j L_j(x) f(d[j]) = f(x)`.
proof fn lemma_interpolation(d: Seq<nat>, f: Seq<nat>, x: nat)
    requires
        d.len() >= 1,
        distinct_residues(d),
        differences_invertible(d),
        f.len() <= d.len(),
    ensures
        msum(interp_terms(d, f, x), d.len() as int) == poly_eval(f, x),
    decreases d.len(),
{
    if d.len() == 1 {
        lemma_interpolation_one(d, f, x);
    } else {
        let n = d.len() - 1;
        let g = poly_quotient(f, d[n]);
        lemma_poly_division(f, x, d[n]);
        lemma_drops_are_sub_domains(d);
        lemma_interpolation(d.take(n), g, x);
        lemma_partition_of_unity(d, x);
        lemma_interpolation_step(d, f, x);
    }
}


/// A weighted sum is the sum of the products of its terms.
proof fn lemma_weighted_sum_msum(cs: Seq<nat>, coeffs: Seq<nat>, f: spec_fn(int) -> int, k: int)
    requires
        forall|j: int| 0 <= j < k ==> #[trigger] f(j) == coeffs[j] * cs[j],
    ensures
        weighted_sum(cs, coeffs, k) == msum(f, k),
    decreases k,
{
    if k > 0 {
        lemma_weighted_sum_msum(cs, coeffs, f, k - 1);
        let c = cs[k - 1] as int;
        let e = coeffs[k - 1] as int;
        assert(c * e == e * c) by (nonlinear_arith);
        lemma_cong_mod(c * e);
        lemma_cong_add(msum(f, k - 1), (c * e) % rr(), msum(f, k - 1), f(k - 1));
    }
}

/// Scaling the terms of a weighted sum scales the sum.
proof fn lemma_weighted_sum_scale(cs: Seq<nat>, scaled: Seq<nat>, coeffs: Seq<nat>, r: nat, k: int)
    requires
        0 <= k <= cs.len(),
        k <= scaled.len(),
        k <= coeffs.len(),
        forall|j: int| 0 <= j < k ==> #[trigger] scaled[j] == (r * cs[j]) % scalar_modulus(),
    ensures
        weighted_sum(scaled, coeffs, k) == (r * weighted_sum(cs, coeffs, k)) % scalar_modulus(),
    decreases k,
{
    if k > 0 {
        lemma_weighted_sum_scale(cs, scaled, coeffs, r, k - 1);
        let w = weighted_sum(cs, coeffs, k - 1) as int;
        let c = cs[k - 1] as int;
        let e = coeffs[k - 1] as int;
        // scaled term: ((r c) % R * e) % R = r (c e)
        lemma_cong_mod(r * c);
        lemma_cong_mul((r * c) % rr(), e, r * c, e);
        lemma_cong_mod(((r * c) % rr()) * e);
        lemma_cong_mod(c * e);
        lemma_cong_mul(r as int, (c * e) % rr(), r as int, c * e);
        assert((r * c) * e == r * (c * e)) by (nonlinear_arith);
        // the sums
        lemma_cong_mod(r * w);
        lemma_cong_add(
            (r * w) % rr(),
            (((r * c) % rr()) * e) % rr(),
            r * w,
            r * ((c * e) % rr()),
        );
        lemma_cong_mod(w + (c * e) % rr());
        lemma_cong_mul(r as int, (w + (c * e) % rr()) % rr(), r as int, w + (c * e) % rr());
        assert(r * (w + (c * e) % rr()) == r * w + r * ((c * e) % rr())) by (nonlinear_arith);
        lemma_cong_mod((r * w) % rr() + (((r * c) % rr()) * e) % rr());
        lemma_cong_mod(r * ((w + (c * e) % rr()) % rr()));
        assert(scaled[k - 1] == (r * c) % rr());
        assert(weighted_sum(scaled, coeffs, k) == ((r * w) % rr() + (((r * c) % rr()) * e) % rr())
            % rr());
        assert(weighted_sum(cs, coeffs, k) == (w + (c * e) % rr()) % rr());
        lemma_cong_mul(r as int, weighted_sum(cs, coeffs, k) as int, r as int, w + (c * e) % rr());
        lemma_cong_mod(r * (weighted_sum(cs, coeffs, k) as int));
        lemma_cong_residues(
            weighted_sum(scaled, coeffs, k) as int,
            (r * (weighted_sum(cs, coeffs, k) as int)) % rr(),
        );
    } else {
        assert(weighted_sum(scaled, coeffs, k) == 0);
        assert(weighted_sum(cs, coeffs, k) == 0);
        assert(r * 0 == 0);
    }
}

/// The Lagrange coefficients at `x` of distinct points interpolate: for a polynomial `f`
/// with at most as many coefficients as there are points, its values at the points,
/// weighted by the coefficients, sum to `f(x)`. The points are residues of the scalar field,
/// pairwise distinct, so their differences have inverses.
pub proof fn lemma_lagrange_interpolation(points: Seq<nat>, coeffs: Seq<nat>, x: nat)
    requires
        distinct_residues(points),
        differences_invertible(points),
        coeffs.len() <= points.len(),
    ensures
        weighted_sum(
            Seq::new(points.len(), |j: int| poly_eval(coeffs, points[j])),
            Seq::new(points.len(), |j: int| lagrange_coefficient(points, j, x)),
            points.len() as int,
        ) == poly_eval(coeffs, x),
{
    let n = points.len() as int;
    let vals = Seq::new(points.len(), |j: int| poly_eval(coeffs, points[j]));
    let lcs = Seq::new(points.len(), |j: int| lagrange_coefficient(points, j, x));
    if n == 0 {
        assert(coeffs.len() == 0);
        assert(poly_eval(coeffs, x) == 0);
    } else {
        lemma_interpolation(points, coeffs, x);
        lemma_weighted_sum_msum(vals, lcs, interp_terms(points, coeffs, x), n);
    }
}

/// The value at zero of a polynomial is its constant term.
pub proof fn lemma_poly_eval_zero(coeffs: Seq<nat>)
    ensures
        poly_eval(coeffs, 0) == constant_term(coeffs) % scalar_modulus(),
{
    if coeffs.len() > 0 {
        assert(0 * poly_eval(coeffs.drop_first(), 0) == 0);
    }
}

/// Threshold decryption recovers the secret: shares `r f(x_j)` of a polynomial `f` at
/// distinct points, at least as many as `f` has coefficients, weighted by the Lagrange
/// coefficients at zero of the points, sum to `r f(0)`. With `r` the randomness of a
/// ciphertext and `f(0)` the dealt secret, this is the exponent of the shared secret
/// `e([r] pk, H) = e([r f(0)] G, H)` of the encryption.
pub proof fn lemma_threshold_recovers_secret(points: Seq<nat>, coeffs: Seq<nat>, r: nat)
    requires
        distinct_residues(points),
        differences_invertible(points),
        coeffs.len() <= points.len(),
    ensures
        weighted_sum(
            Seq::new(
                points.len(),
                |j: int| (r * poly_eval(coeffs, points[j])) % scalar_modulus(),
            ),
            Seq::new(points.len(), |j: int| lagrange_coefficient(points, j, 0)),
            points.len() as int,
        ) == (r * constant_term(coeffs)) % scalar_modulus(),
{
    let n = points.len() as int;
    let vals = Seq::new(points.len(), |j: int| poly_eval(coeffs, points[j]));
    let scaled = Seq::new(
        points.len(),
        |j: int| (r * poly_eval(coeffs, points[j])) % scalar_modulus(),
    );
    let lcs = Seq::new(points.len(), |j: int| lagrange_coefficient(points, j, 0));
    lemma_lagrange_interpolation(points, coeffs, 0);
    lemma_weighted_sum_scale(vals, scaled, lcs, r, n);
    lemma_poly_eval_zero(coeffs);
    let c = constant_term(coeffs) as int;
    lemma_cong_mod(c);
    lemma_cong_mul(r as int, c % rr(), r as int, c);
}

} // verus!
