//! Ring facts about the field operations: dot products as sums reduced
//! modulo q, and associativity of matrix products.

use crate::field::{fadd, fmul, modulus};
use crate::matrix::{dot, mat_vec};
use vstd::arithmetic::div_mod::{lemma_add_mod_noop, lemma_mul_mod_noop_left, lemma_mul_mod_noop_right};
use vstd::prelude::*;

verus! {

/// `f(0) + ... + f(n - 1)` over the integers.
pub open spec fn sum(f: spec_fn(int) -> int, n: nat) -> int
    decreases n,
{
    if n == 0 {
        0
    } else {
        sum(f, (n - 1) as nat) + f(n - 1)
    }
}

/// Column `j` of a matrix.
pub open spec fn column(m: Seq<Seq<nat>>, j: int) -> Seq<nat> {
    Seq::new(m.len(), |k: int| m[k][j])
}

/// The matrix product `a * b` of two `n` by `n` matrices, in field arithmetic.
pub open spec fn mat_mul(a: Seq<Seq<nat>>, b: Seq<Seq<nat>>) -> Seq<Seq<nat>> {
    Seq::new(a.len(), |i: int| Seq::new(b.len(), |j: int| dot(a[i], column(b, j), b.len())))
}

/// The `n` by `n` identity matrix.
pub open spec fn identity(n: nat) -> Seq<Seq<nat>> {
    Seq::new(n, |i: int| Seq::new(n, |j: int| if i == j { 1nat } else { 0nat }))
}

/// `m` has an inverse: some `n` by `n` matrix `inv` with `inv * m == I`.
pub open spec fn invertible(m: Seq<Seq<nat>>, n: nat) -> bool {
    exists|inv: Seq<Seq<nat>>| is_square_vals(inv, n) && #[trigger] mat_mul(inv, m) == identity(n)
}

/// `m` has `n` rows of `n` entries.
pub open spec fn is_square_vals(m: Seq<Seq<nat>>, n: nat) -> bool {
    m.len() == n && forall|i: int| 0 <= i < n ==> (#[trigger] m[i]).len() == n
}

pub proof fn lemma_sum_ext(f: spec_fn(int) -> int, g: spec_fn(int) -> int, n: nat)
    requires
        forall|i: int| 0 <= i < n ==> #[trigger] f(i) == g(i),
    ensures
        sum(f, n) == sum(g, n),
    decreases n,
{
    if n > 0 {
        lemma_sum_ext(f, g, (n - 1) as nat);
    }
}

/// Sums of terms congruent modulo q are congruent.
pub proof fn lemma_sum_cong(f: spec_fn(int) -> int, g: spec_fn(int) -> int, n: nat)
    requires
        forall|i: int| 0 <= i < n ==> #[trigger] f(i) % (modulus() as int) == g(i) % (modulus() as int),
    ensures
        sum(f, n) % (modulus() as int) == sum(g, n) % (modulus() as int),
    decreases n,
{
    let p = modulus() as int;
    if n > 0 {
        let m = (n - 1) as nat;
        lemma_sum_cong(f, g, m);
        lemma_add_mod_noop(sum(f, m), f(m as int), p);
        lemma_add_mod_noop(sum(g, m), g(m as int), p);
    }
}

pub proof fn lemma_sum_scale(f: spec_fn(int) -> int, g: spec_fn(int) -> int, c: int, n: nat)
    requires
        forall|i: int| 0 <= i < n ==> #[trigger] g(i) == f(i) * c,
    ensures
        sum(g, n) == sum(f, n) * c,
    decreases n,
{
    if n > 0 {
        let m = (n - 1) as nat;
        lemma_sum_scale(f, g, c, m);
        let s = sum(f, m);
        let t = f(m as int);
        assert((s + t) * c == s * c + t * c) by (nonlinear_arith);
    }
}

pub proof fn lemma_sum_add(f: spec_fn(int) -> int, g: spec_fn(int) -> int, h: spec_fn(int) -> int, n: nat)
    requires
        forall|i: int| 0 <= i < n ==> #[trigger] h(i) == f(i) + g(i),
    ensures
        sum(h, n) == sum(f, n) + sum(g, n),
    decreases n,
{
    if n > 0 {
        lemma_sum_add(f, g, h, (n - 1) as nat);
    }
}

/// Exchanging the order of a double sum.
pub proof fn lemma_sum_swap(h: spec_fn(int, int) -> int, m: nat, n: nat)
    ensures
        sum(|j: int| sum(|k: int| h(k, j), m), n) == sum(|k: int| sum(|j: int| h(k, j), n), m),
    decreases n,
{
    let big_f = |j: int| sum(|k: int| h(k, j), m);
    let big_g = |k: int| sum(|j: int| h(k, j), n);
    if n == 0 {
        assert forall|k: int| 0 <= k < m implies #[trigger] big_g(k) == 0 by {}
        lemma_sum_ext(big_g, |k: int| 0, m);
        lemma_sum_zero(m);
    } else {
        let n1 = (n - 1) as nat;
        lemma_sum_swap(h, m, n1);
        let g1 = |k: int| sum(|j: int| h(k, j), n1);
        let last = |k: int| h(k, n1 as int);
        assert(sum(big_f, n) == sum(big_f, n1) + big_f(n1 as int));
        assert(big_f(n1 as int) == sum(|k: int| h(k, n1 as int), m));
        lemma_sum_ext(|k: int| h(k, n1 as int), last, m);
        assert forall|k: int| 0 <= k < m implies #[trigger] big_g(k) == g1(k) + last(k) by {
            let hk = |j: int| h(k, j);
            assert(sum(hk, n) == sum(hk, n1) + hk(n1 as int));
            lemma_sum_ext(|j: int| h(k, j), hk, n);
            lemma_sum_ext(|j: int| h(k, j), hk, n1);
        }
        lemma_sum_add(g1, last, big_g, m);
    }
}

pub proof fn lemma_sum_zero(n: nat)
    ensures
        sum(|k: int| 0, n) == 0,
    decreases n,
{
    if n > 0 {
        lemma_sum_zero((n - 1) as nat);
    }
}

/// A dot product is the integer sum of the products, reduced modulo q.
pub proof fn lemma_dot_sum(row: Seq<nat>, x: Seq<nat>, n: nat)
    ensures
        dot(row, x, n) as int == sum(|k: int| row[k] as int * x[k], n) % (modulus() as int),
    decreases n,
{
    let p = modulus() as int;
    if n > 0 {
        let m = (n - 1) as nat;
        lemma_dot_sum(row, x, m);
        let s = sum(|k: int| row[k] as int * x[k], m);
        let t = row[m as int] as int * x[m as int];
        lemma_add_mod_noop(s, t, p);
        assert(t % p % p == t % p) by {
            vstd::arithmetic::div_mod::lemma_mod_twice(t, p);
        }
        lemma_add_mod_noop(s, t % p, p);
    }
}

/// Associativity of the product with a vector:
/// `(a * b) * x == a * (b * x)` for square matrices `a`, `b` and a vector `x`.
pub proof fn lemma_mat_mul_vec(a: Seq<Seq<nat>>, b: Seq<Seq<nat>>, x: Seq<nat>)
    requires
        is_square_vals(a, x.len()),
        is_square_vals(b, x.len()),
    ensures
        mat_vec(mat_mul(a, b), x) == mat_vec(a, mat_vec(b, x)),
{
    let n = x.len();
    let p = modulus() as int;
    let ab = mat_mul(a, b);
    let bx = mat_vec(b, x);
    assert forall|i: int| 0 <= i < n implies #[trigger] mat_vec(ab, x)[i] == mat_vec(a, bx)[i] by {
        let ai = a[i];
        let h = |k: int, j: int| ai[k] as int * b[k][j] * x[j];
        // left side
        lemma_dot_sum(ab[i], x, n);
        assert forall|j: int| 0 <= j < n implies (ab[i][j] as int * x[j]) % p == (sum(
            |k: int| ai[k] as int * column(b, j)[k],
            n,
        ) * x[j]) % p by {
            lemma_dot_sum(ai, column(b, j), n);
            lemma_mul_mod_noop_left(sum(|k: int| ai[k] as int * column(b, j)[k], n), x[j] as int, p);
        }
        lemma_sum_cong(
            |j: int| ab[i][j] as int * x[j],
            |j: int| sum(|k: int| ai[k] as int * column(b, j)[k], n) * x[j],
            n,
        );
        assert forall|j: int| 0 <= j < n implies sum(|k: int| ai[k] as int * column(b, j)[k], n) * x[j]
            == sum(|k: int| h(k, j), n) by {
            assert forall|k: int| 0 <= k < n implies #[trigger] h(k, j) == (ai[k] as int * column(b, j)[k]) * x[j] by {
                vstd::arithmetic::mul::lemma_mul_is_associative(ai[k] as int, b[k][j] as int, x[j] as int);
            }
            lemma_sum_ext(|k: int| h(k, j), |k: int| (ai[k] as int * column(b, j)[k]) * x[j], n);
            lemma_sum_scale(|k: int| ai[k] as int * column(b, j)[k], |k: int| (ai[k] as int * column(b, j)[k]) * x[j], x[j] as int, n);
        }
        lemma_sum_ext(
            |j: int| sum(|k: int| ai[k] as int * column(b, j)[k], n) * x[j],
            |j: int| sum(|k: int| h(k, j), n),
            n,
        );
        // right side
        lemma_dot_sum(ai, bx, n);
        assert forall|k: int| 0 <= k < n implies (ai[k] as int * bx[k]) % p == (ai[k] as int * sum(
            |j: int| b[k][j] as int * x[j],
            n,
        )) % p by {
            lemma_dot_sum(b[k], x, n);
            lemma_mul_mod_noop_right(ai[k] as int, sum(|j: int| b[k][j] as int * x[j], n), p);
        }
        lemma_sum_cong(
            |k: int| ai[k] as int * bx[k],
            |k: int| ai[k] as int * sum(|j: int| b[k][j] as int * x[j], n),
            n,
        );
        assert forall|k: int| 0 <= k < n implies ai[k] as int * sum(|j: int| b[k][j] as int * x[j], n) == sum(
            |j: int| h(k, j),
            n,
        ) by {
            assert forall|j: int| 0 <= j < n implies #[trigger] h(k, j) == (b[k][j] as int * x[j]) * ai[k] by {
                vstd::arithmetic::mul::lemma_mul_is_associative(ai[k] as int, b[k][j] as int, x[j] as int);
                vstd::arithmetic::mul::lemma_mul_is_commutative(ai[k] as int, b[k][j] as int * x[j]);
            }
            lemma_sum_scale(|j: int| b[k][j] as int * x[j], |j: int| h(k, j), ai[k] as int, n);
            vstd::arithmetic::mul::lemma_mul_is_commutative(ai[k] as int, sum(|j: int| b[k][j] as int * x[j], n));
        }
        lemma_sum_ext(
            |k: int| ai[k] as int * sum(|j: int| b[k][j] as int * x[j], n),
            |k: int| sum(|j: int| h(k, j), n),
            n,
        );
        lemma_sum_swap(h, n, n);
    }
    assert(mat_vec(ab, x) =~= mat_vec(a, bx));
}

} // verus!
