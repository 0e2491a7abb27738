//! The mixing-layer optimizer. The dense matrix `M` applied once before and
//! once after each of `r` partial rounds is factored into one dense
//! pre-sparse matrix and `r` sparse matrices, each the identity but for its
//! first row and first column, so that a partial round mixes in linear
//! rather than quadratic work.
//!
//! With `C_0 = M`, each step splits `C_t = S_t * A_t`, where `A_t` keeps the
//! first element and applies the lower-right block of `C_t` to the rest, and
//! sets `C_{t+1} = A_t * M`. Since `A_t` leaves the first element alone, it
//! commutes with a round that only changes the first element, and the phase
//! `M g_r M ... g_1 M` equals `S_0 g_r S_1 ... S_{r-1} g_1 C_r`.

use crate::algebra::{column, identity, is_square_vals, lemma_dot_sum, lemma_mat_mul_vec, lemma_sum_ext, mat_mul, sum};
use crate::constants::PoseidonConstants;
use crate::field::{fadd, fmul, modulus, Scalar};
use crate::matrix::{
    all_wf, copy_matrix, copy_vec, dot, identity_matrix, is_square, lemma_dot_bound, lemma_square_vals, mat_vals, mat_vec,
    multiply, same_matrix, vals, Matrix,
};
use crate::params::Error;
use crate::poseidon::{quintic_s_box, sbox};
use vstd::prelude::*;

verus! {

/// A sum whose terms vanish but at `a` is its term at `a`.
pub proof fn lemma_sum_one(f: spec_fn(int) -> int, a: int, n: nat)
    requires
        0 <= a < n,
        forall|k: int| 0 <= k < n && k != a ==> #[trigger] f(k) == 0,
    ensures
        sum(f, n) == f(a),
    decreases n,
{
    let m = (n - 1) as nat;
    if m as int == a {
        lemma_sum_zero_prefix(f, m);
    } else {
        lemma_sum_one(f, a, m);
    }
}

/// A sum of vanishing terms vanishes.
pub proof fn lemma_sum_zero_prefix(f: spec_fn(int) -> int, n: nat)
    requires
        forall|k: int| 0 <= k < n ==> #[trigger] f(k) == 0,
    ensures
        sum(f, n) == 0,
    decreases n,
{
    if n > 0 {
        lemma_sum_zero_prefix(f, (n - 1) as nat);
    }
}

/// A sum whose terms vanish but at `0` and `a` is those two terms.
pub proof fn lemma_sum_two(f: spec_fn(int) -> int, a: int, n: nat)
    requires
        0 < a < n,
        forall|k: int| 0 < k < n && k != a ==> #[trigger] f(k) == 0,
    ensures
        sum(f, n) == f(0) + f(a),
    decreases n,
{
    let m = (n - 1) as nat;
    if m as int == a {
        lemma_sum_one(f, 0, m);
    } else {
        lemma_sum_two(f, a, m);
    }
}

/// Row `i` of the identity picks element `i`.
pub proof fn lemma_dot_unit(row: Seq<nat>, x: Seq<nat>, i: int, n: nat)
    requires
        0 <= i < n,
        x[i] < modulus(),
        forall|k: int| 0 <= k < n ==> #[trigger] row[k] == (if k == i { 1nat } else { 0nat }),
    ensures
        dot(row, x, n) == x[i],
{
    lemma_dot_sum(row, x, n);
    lemma_sum_one(|k: int| row[k] as int * x[k], i, n);
    vstd::arithmetic::div_mod::lemma_small_mod(x[i], modulus());
}

/// A row that is `c` at `0`, one at `i > 0` and zero elsewhere gives
/// `x[i] + c * x[0]`.
pub proof fn lemma_dot_sparse_row(row: Seq<nat>, x: Seq<nat>, i: int, n: nat)
    requires
        0 < i < n,
        row[i] == 1,
        forall|k: int| 0 < k < n && k != i ==> #[trigger] row[k] == 0,
    ensures
        dot(row, x, n) == fadd(x[i], fmul(row[0], x[0])),
{
    let p = modulus() as int;
    lemma_dot_sum(row, x, n);
    lemma_sum_two(|k: int| row[k] as int * x[k], i, n);
    vstd::arithmetic::div_mod::lemma_add_mod_noop_right(x[i] as int, row[0] as int * x[0], p);
}

/// A row that is zero at `0` does not read element `0`.
pub proof fn lemma_dot_skips_first(row: Seq<nat>, x: Seq<nat>, z: nat, n: nat)
    requires
        0 < n <= x.len(),
        row[0] == 0,
    ensures
        dot(row, x.update(0, z), n) == dot(row, x, n),
{
    let y = x.update(0, z);
    lemma_dot_sum(row, x, n);
    lemma_dot_sum(row, y, n);
    assert forall|k: int| 0 <= k < n implies #[trigger] (row[k] as int * y[k]) == row[k] as int * x[k] by {
        if k == 0 {
            assert(row[k] as int * y[k] == 0);
            assert(row[k] as int * x[k] == 0);
        }
    }
    lemma_sum_ext(|k: int| row[k] as int * y[k], |k: int| row[k] as int * x[k], n);
}

/// `a` keeps the first element and does not let it reach the others.
pub open spec fn fixes_first(a: Seq<Seq<nat>>, n: nat) -> bool {
    &&& is_square_vals(a, n)
    &&& forall|j: int| 0 <= j < n ==> #[trigger] a[0][j] == (if j == 0 { 1nat } else { 0nat })
    &&& forall|i: int| 0 < i < n ==> #[trigger] a[i][0] == 0
}

/// The dense form of a sparse matrix: first row `row`, first column `col`
/// below it, identity elsewhere.
pub open spec fn sparse_dense(row: Seq<nat>, col: Seq<nat>) -> Seq<Seq<nat>> {
    Seq::new(
        row.len(),
        |i: int|
            Seq::new(
                row.len(),
                |j: int|
                    if i == 0 {
                        row[j]
                    } else if j == 0 {
                        col[i]
                    } else if i == j {
                        1nat
                    } else {
                        0nat
                    },
            ),
    )
}

/// A sparse matrix applied in linear work: the first element is the dot
/// product with the first row; element `i > 0` gains `col[i]` times the
/// first element.
pub open spec fn sparse_apply(row: Seq<nat>, col: Seq<nat>, x: Seq<nat>) -> Seq<nat> {
    Seq::new(
        x.len(),
        |i: int|
            if i == 0 {
                dot(row, x, x.len())
            } else {
                fadd(x[i], fmul(col[i], x[0]))
            },
    )
}

/// A round that only touches the first element: add `c`, then the S-box.
pub open spec fn first_round(v: Seq<nat>, c: nat) -> Seq<nat> {
    v.update(0, sbox(fadd(v[0], c)))
}

/// The linear-work application agrees with the dense form.
pub proof fn lemma_sparse_apply(row: Seq<nat>, col: Seq<nat>, x: Seq<nat>)
    requires
        row.len() == x.len(),
        x.len() > 0,
    ensures
        sparse_apply(row, col, x) == mat_vec(sparse_dense(row, col), x),
{
    let n = x.len();
    let d = sparse_dense(row, col);
    assert forall|i: int| 0 <= i < n implies #[trigger] sparse_apply(row, col, x)[i] == mat_vec(d, x)[i] by {
        if i == 0 {
            assert(d[0] =~= row);
        } else {
            lemma_dot_sparse_row(d[i], x, i, n);
        }
    }
    assert(sparse_apply(row, col, x) =~= mat_vec(d, x));
}

/// A matrix that fixes the first element commutes with a change of the
/// first element alone.
pub proof fn lemma_fixes_first_commutes(a: Seq<Seq<nat>>, v: Seq<nat>, z: nat)
    requires
        fixes_first(a, v.len()),
        v.len() > 0,
        v[0] < modulus(),
        z < modulus(),
    ensures
        mat_vec(a, v.update(0, z)) == mat_vec(a, v).update(0, z),
{
    let n = v.len();
    let w = v.update(0, z);
    assert forall|i: int| 0 <= i < n implies #[trigger] mat_vec(a, w)[i] == mat_vec(a, v).update(0, z)[i] by {
        if i == 0 {
            lemma_dot_unit(a[0], w, 0, n);
        } else {
            lemma_dot_skips_first(a[i], v, z, n);
        }
    }
    assert(mat_vec(a, w) =~= mat_vec(a, v).update(0, z));
}

/// The partial-round phase with the dense matrix: `M` once, then for each
/// round `j` the first-element round with `cs[j]` followed by `M`.
pub open spec fn dense_phase(m: Seq<Seq<nat>>, cs: Seq<nat>, x: Seq<nat>, j: nat) -> Seq<nat>
    decreases j,
{
    if j == 0 {
        mat_vec(m, x)
    } else {
        mat_vec(m, first_round(dense_phase(m, cs, x, (j - 1) as nat), cs[j - 1]))
    }
}

/// The same phase through the decomposition: the pre-sparse matrix once,
/// then for each round `j` the first-element round with `cs[j]` followed by
/// sparse matrix `j`, given by `rows[j]` and `cols[j]`.
pub open spec fn sparse_phase(
    pre: Seq<Seq<nat>>,
    rows: Seq<Seq<nat>>,
    cols: Seq<Seq<nat>>,
    cs: Seq<nat>,
    x: Seq<nat>,
    j: nat,
) -> Seq<nat>
    decreases j,
{
    if j == 0 {
        mat_vec(pre, x)
    } else {
        sparse_apply(
            rows[j - 1],
            cols[j - 1],
            first_round(sparse_phase(pre, rows, cols, cs, x, (j - 1) as nat), cs[j - 1]),
        )
    }
}

/// The vector that the dense phase multiplies by `M` after `j` rounds.
pub open spec fn dense_inner(m: Seq<Seq<nat>>, cs: Seq<nat>, x: Seq<nat>, j: nat) -> Seq<nat>
    decreases j,
{
    if j == 0 {
        x
    } else {
        first_round(mat_vec(m, dense_inner(m, cs, x, (j - 1) as nat)), cs[j - 1])
    }
}

/// A certified factor chain of `m` over `r` rounds: `c[0] == m`, and for each
/// `t < r`, `c[t] == S_t * a[t]` and `c[t + 1] == a[t] * m`, where `S_t` is
/// the sparse matrix of `rows[r - 1 - t]`, `cols[r - 1 - t]`.
pub open spec fn factor_chain(
    m: Seq<Seq<nat>>,
    c: Seq<Seq<Seq<nat>>>,
    a: Seq<Seq<Seq<nat>>>,
    rows: Seq<Seq<nat>>,
    cols: Seq<Seq<nat>>,
    n: nat,
    r: nat,
) -> bool {
    &&& n > 0
    &&& is_square_vals(m, n)
    &&& c.len() == r + 1
    &&& a.len() == r
    &&& rows.len() == r
    &&& cols.len() == r
    &&& c[0] == m
    &&& forall|t: int| 0 <= t <= r ==> is_square_vals(#[trigger] c[t], n)
    &&& forall|t: int| 0 <= t < r ==> fixes_first(#[trigger] a[t], n)
    &&& forall|t: int| 0 <= t < r ==> (#[trigger] rows[t]).len() == n
    &&& forall|t: int|
        0 <= t < r ==> mat_mul(sparse_dense(rows[r - 1 - t], cols[r - 1 - t]), a[t]) == #[trigger] c[t]
    &&& forall|t: int| 0 <= t < r ==> mat_mul(#[trigger] a[t], m) == c[t + 1]
}

/// Along a certified chain, after `j` rounds the decomposed phase holds
/// `c[r - j]` times what the dense phase is about to multiply by `M`.
pub proof fn lemma_chain_step(
    m: Seq<Seq<nat>>,
    c: Seq<Seq<Seq<nat>>>,
    a: Seq<Seq<Seq<nat>>>,
    rows: Seq<Seq<nat>>,
    cols: Seq<Seq<nat>>,
    cs: Seq<nat>,
    x: Seq<nat>,
    n: nat,
    r: nat,
    j: nat,
)
    requires
        factor_chain(m, c, a, rows, cols, n, r),
        x.len() == n,
        j <= r,
    ensures
        sparse_phase(c[r as int], rows, cols, cs, x, j) == mat_vec(c[r - j], dense_inner(m, cs, x, j)),
        dense_inner(m, cs, x, j).len() == n,
    decreases j,
{
    if j > 0 {
        let j1 = (j - 1) as nat;
        lemma_chain_step(m, c, a, rows, cols, cs, x, n, r, j1);
        let t = r - j;
        let k = dense_inner(m, cs, x, j1);
        let mk = mat_vec(m, k);
        let z = sbox(fadd(mk[0], cs[j1 as int]));
        // c[t + 1] * k == a[t] * (m * k)
        lemma_mat_mul_vec(a[t], m, k);
        assert(c[t + 1] == c[r - j1]);
        // a[t] commutes with the first-element round
        lemma_dot_bound(m[0], k, k.len());
        lemma_fixes_first_commutes(a[t], mk, z);
        let v = mat_vec(a[t], mk);
        assert(first_round(v, cs[j1 as int]) == v.update(0, z)) by {
            lemma_dot_unit(a[t][0], mk, 0, n);
        }
        // S_t * (a[t] * y) == c[t] * y
        let y = dense_inner(m, cs, x, j);
        assert(y == mk.update(0, z));
        lemma_mat_mul_vec(sparse_dense(rows[r - 1 - t], cols[r - 1 - t]), a[t], y);
        lemma_sparse_apply(rows[j1 as int], cols[j1 as int], mat_vec(a[t], y));
    }
}

/// Along a certified chain the decomposed phase equals the dense phase.
pub proof fn lemma_chain_equivalence(
    m: Seq<Seq<nat>>,
    c: Seq<Seq<Seq<nat>>>,
    a: Seq<Seq<Seq<nat>>>,
    rows: Seq<Seq<nat>>,
    cols: Seq<Seq<nat>>,
    cs: Seq<nat>,
    x: Seq<nat>,
    n: nat,
    r: nat,
)
    requires
        factor_chain(m, c, a, rows, cols, n, r),
        x.len() == n,
    ensures
        sparse_phase(c[r as int], rows, cols, cs, x, r) == dense_phase(m, cs, x, r),
{
    lemma_chain_step(m, c, a, rows, cols, cs, x, n, r, r);
    lemma_dense_inner(m, cs, x, r);
}

/// The dense phase multiplies by `M` what `dense_inner` holds.
pub proof fn lemma_dense_inner(m: Seq<Seq<nat>>, cs: Seq<nat>, x: Seq<nat>, j: nat)
    ensures
        dense_phase(m, cs, x, j) == mat_vec(m, dense_inner(m, cs, x, j)),
    decreases j,
{
    if j > 0 {
        lemma_dense_inner(m, cs, x, (j - 1) as nat);
    }
}

/// A matrix that is the identity but for its first row and first column.
#[derive(Clone, Debug, PartialEq, Eq)]
pub struct SparseMatrix {
    /// The first row.
    pub row: Vec<Scalar>,
    /// The first column; its entry 0 is not read (the first row gives it).
    pub column: Vec<Scalar>,
}

impl SparseMatrix {
    /// A sparse matrix of width `n` with canonical entries.
    pub open spec fn wf(&self, n: nat) -> bool {
        &&& self.row@.len() == n
        &&& self.column@.len() == n
        &&& all_wf(self.row@)
        &&& all_wf(self.column@)
    }

    /// The values of the first row.
    pub open spec fn row_vals(&self) -> Seq<nat> {
        vals(self.row@)
    }

    /// The values of the first column.
    pub open spec fn column_vals(&self) -> Seq<nat> {
        vals(self.column@)
    }

    /// The product with `x`, in linear work.
    pub fn apply(&self, x: &Vec<Scalar>) -> (r: Vec<Scalar>)
        requires
            self.wf(x@.len()),
            x@.len() > 0,
            all_wf(x@),
        ensures
            r@.len() == x@.len(),
            all_wf(r@),
            vals(r@) == sparse_apply(self.row_vals(), self.column_vals(), vals(x@)),
    {
        let n = x.len();
        let mut acc = Scalar::zero();
        let mut k: usize = 0;
        while k < n
            invariant
                k <= n,
                n == x@.len(),
                self.wf(n as nat),
                all_wf(x@),
                acc.wf(),
                acc.val() == dot(self.row_vals(), vals(x@), k as nat),
            decreases n - k,
        {
            let t = self.row[k].mul(&x[k]);
            acc = acc.add(&t);
            k = k + 1;
        }
        let mut r: Vec<Scalar> = Vec::new();
        r.push(acc);
        let mut i: usize = 1;
        while i < n
            invariant
                1 <= i <= n,
                n == x@.len(),
                self.wf(n as nat),
                all_wf(x@),
                r@.len() == i,
                all_wf(r@),
                vals(r@) =~= sparse_apply(self.row_vals(), self.column_vals(), vals(x@)).take(i as int),
            decreases n - i,
        {
            let t = self.column[i].mul(&x[0]);
            r.push(x[i].add(&t));
            i = i + 1;
            assert(vals(r@) =~= sparse_apply(self.row_vals(), self.column_vals(), vals(x@)).take(i as int));
        }
        assert(vals(r@) =~= sparse_apply(self.row_vals(), self.column_vals(), vals(x@)));
        r
    }

    /// The dense form.
    fn to_dense(&self, n: usize) -> (r: Matrix)
        requires
            n >= 1,
            self.wf(n as nat),
        ensures
            is_square(r@, n as nat),
            mat_vals(r@) == sparse_dense(self.row_vals(), self.column_vals()),
    {
        let ghost d = sparse_dense(self.row_vals(), self.column_vals());
        let mut r: Matrix = Vec::new();
        r.push(copy_vec(&self.row));
        assert(vals(r@[0]@) =~= d[0]);
        let mut i: usize = 1;
        while i < n
            invariant
                1 <= i <= n,
                self.wf(n as nat),
                d == sparse_dense(self.row_vals(), self.column_vals()),
                r@.len() == i,
                forall|k: int| 0 <= k < i ==> (#[trigger] r@[k])@.len() == n && all_wf(r@[k]@),
                forall|k: int| 0 <= k < i ==> vals((#[trigger] r@[k])@) == d[k],
            decreases n - i,
        {
            let mut row: Vec<Scalar> = Vec::new();
            row.push(self.column[i]);
            let mut j: usize = 1;
            while j < n
                invariant
                    1 <= i < n,
                    1 <= j <= n,
                    self.wf(n as nat),
                    d == sparse_dense(self.row_vals(), self.column_vals()),
                    row@.len() == j,
                    all_wf(row@),
                    vals(row@) =~= d[i as int].take(j as int),
                decreases n - j,
            {
                if i == j {
                    row.push(Scalar::one());
                } else {
                    row.push(Scalar::zero());
                }
                j = j + 1;
                assert(vals(row@) =~= d[i as int].take(j as int));
            }
            assert(vals(row@) =~= d[i as int]);
            r.push(row);
            i = i + 1;
        }
        assert(mat_vals(r@) =~= d);
        r
    }
}

/// `v` with every element multiplied by `f`.
fn scale_row(v: &Vec<Scalar>, f: &Scalar) -> (r: Vec<Scalar>)
    requires
        all_wf(v@),
        f.wf(),
    ensures
        r@.len() == v@.len(),
        all_wf(r@),
{
    let mut r: Vec<Scalar> = Vec::new();
    let mut i: usize = 0;
    while i < v.len()
        invariant
            i <= v@.len(),
            all_wf(v@),
            f.wf(),
            r@.len() == i,
            all_wf(r@),
        decreases v@.len() - i,
    {
        r.push(v[i].mul(f));
        i = i + 1;
    }
    r
}

/// `a - f * b`, element by element.
fn sub_multiple(a: &Vec<Scalar>, b: &Vec<Scalar>, f: &Scalar) -> (r: Vec<Scalar>)
    requires
        a@.len() == b@.len(),
        all_wf(a@),
        all_wf(b@),
        f.wf(),
    ensures
        r@.len() == a@.len(),
        all_wf(r@),
{
    let mut r: Vec<Scalar> = Vec::new();
    let mut i: usize = 0;
    while i < a.len()
        invariant
            i <= a@.len(),
            a@.len() == b@.len(),
            all_wf(a@),
            all_wf(b@),
            f.wf(),
            r@.len() == i,
            all_wf(r@),
        decreases a@.len() - i,
    {
        let t = f.mul(&b[i]);
        r.push(a[i].sub(&t));
        i = i + 1;
    }
    r
}

/// `n` rows of `cols >= n` canonical elements.
pub open spec fn is_augmented(m: Seq<Vec<Scalar>>, n: nat, cols: nat) -> bool {
    &&& n <= cols
    &&& m.len() == n
    &&& forall|i: int| 0 <= i < n ==> (#[trigger] m[i])@.len() == cols && all_wf(m[i]@)
}

/// Gauss-Jordan elimination on the first `n` columns of an augmented
/// system `[T | B]`; the reduced system, or `None` where no pivot is found.
/// What it returns is checked by its callers, so only its shape is stated.
fn reduce(system: Matrix, n: usize, cols: usize) -> (r: Option<Matrix>)
    requires
        is_augmented(system@, n as nat, cols as nat),
    ensures
        r.is_some() ==> is_augmented(r.unwrap()@, n as nat, cols as nat),
{
    let mut aug = system;
    let mut col: usize = 0;
    while col < n
        invariant
            col <= n,
            is_augmented(aug@, n as nat, cols as nat),
        decreases n - col,
    {
        let mut scan: usize = col;
        let mut piv: usize = col;
        let mut found: Option<Scalar> = None;
        while scan < n
            invariant
                col <= scan <= n,
                col < n,
                is_augmented(aug@, n as nat, cols as nat),
                found.is_some() ==> col <= piv < n && found.unwrap().wf(),
            decreases n - scan,
        {
            if found.is_none() {
                match aug[scan][col].invert() {
                    Some(x) => {
                        found = Some(x);
                        piv = scan;
                    },
                    None => {},
                }
            }
            scan = scan + 1;
        }
        let inv = match found {
            Some(x) => x,
            None => {
                return None;
            },
        };
        let rp = copy_vec(&aug[piv]);
        let rc = copy_vec(&aug[col]);
        aug.set(piv, rc);
        aug.set(col, rp);
        let scaled = scale_row(&aug[col], &inv);
        aug.set(col, scaled);
        let mut i: usize = 0;
        while i < n
            invariant
                i <= n,
                col < n,
                is_augmented(aug@, n as nat, cols as nat),
            decreases n - i,
        {
            if i != col {
                let f = aug[i][col];
                let nr = sub_multiple(&aug[i], &aug[col], &f);
                aug.set(i, nr);
            }
            i = i + 1;
        }
        col = col + 1;
    }
    Some(aug)
}

/// The last column of the reduced system `[T | b]`, or `None` where no
/// pivot is found. Checked by the caller.
fn solve(system: Matrix, n: usize) -> (r: Option<Vec<Scalar>>)
    requires
        n <= 64,
        is_augmented(system@, n as nat, n as nat + 1),
    ensures
        r.is_some() ==> r.unwrap()@.len() == n && all_wf(r.unwrap()@),
{
    let aug = match reduce(system, n, n + 1) {
        Some(a) => a,
        None => {
            return None;
        },
    };
    let mut out: Vec<Scalar> = Vec::new();
    let mut k: usize = 0;
    while k < n
        invariant
            k <= n,
            is_augmented(aug@, n as nat, n as nat + 1),
            out@.len() == k,
            all_wf(out@),
        decreases n - k,
    {
        out.push(aug[k][n]);
        k = k + 1;
    }
    Some(out)
}

/// A left inverse of the `n` by `n` matrix `m`, found by elimination on
/// `[m | I]` and confirmed by multiplication; `None` where none was found.
pub fn left_inverse(m: &Matrix, n: usize) -> (r: Option<Matrix>)
    requires
        is_square(m@, n as nat),
        n <= 64,
    ensures
        r.is_some() ==> is_square(r.unwrap()@, n as nat) && mat_mul(
            mat_vals(r.unwrap()@),
            mat_vals(m@),
        ) == identity(n as nat),
{
    let id = identity_matrix(n);
    let mut system: Matrix = Vec::new();
    let mut i: usize = 0;
    while i < n
        invariant
            i <= n,
            n <= 64,
            is_square(m@, n as nat),
            is_square(id@, n as nat),
            system@.len() == i,
            forall|k: int| 0 <= k < i ==> (#[trigger] system@[k])@.len() == 2 * n && all_wf(system@[k]@),
        decreases n - i,
    {
        let mut row = copy_vec(&m[i]);
        let mut j: usize = 0;
        while j < n
            invariant
                i < n,
                j <= n,
                is_square(m@, n as nat),
                is_square(id@, n as nat),
                row@.len() == n + j,
                all_wf(row@),
            decreases n - j,
        {
            row.push(id[i][j]);
            j = j + 1;
        }
        system.push(row);
        i = i + 1;
    }
    let aug = match reduce(system, n, 2 * n) {
        Some(a) => a,
        None => {
            return None;
        },
    };
    let mut inv: Matrix = Vec::new();
    let mut i: usize = 0;
    while i < n
        invariant
            i <= n,
            n <= 64,
            is_augmented(aug@, n as nat, 2 * n as nat),
            inv@.len() == i,
            forall|k: int| 0 <= k < i ==> (#[trigger] inv@[k])@.len() == n && all_wf(inv@[k]@),
        decreases n - i,
    {
        let mut row: Vec<Scalar> = Vec::new();
        let mut j: usize = 0;
        while j < n
            invariant
                i < n,
                j <= n,
                n <= 64,
                is_augmented(aug@, n as nat, 2 * n as nat),
                row@.len() == j,
                all_wf(row@),
            decreases n - j,
        {
            row.push(aug[i][n + j]);
            j = j + 1;
        }
        inv.push(row);
        i = i + 1;
    }
    let prod = multiply(&inv, m, n);
    if same_matrix(&prod, &id, n) {
        Some(inv)
    } else {
        None
    }
}

/// One step of the decomposition: `c == S * A` with `S` sparse and `A`
/// fixing the first element, or `None` where the lower-right block of `c`
/// could not be inverted.
fn factor_step(c: &Matrix, n: usize) -> (r: Option<(SparseMatrix, Matrix)>)
    requires
        2 <= n <= 64,
        is_square(c@, n as nat),
    ensures
        r.is_some() ==> {
            let (s, a) = r.unwrap();
            &&& s.wf(n as nat)
            &&& is_square(a@, n as nat)
            &&& fixes_first(mat_vals(a@), n as nat)
            &&& mat_mul(sparse_dense(s.row_vals(), s.column_vals()), mat_vals(a@)) == mat_vals(c@)
        },
{
    // A: the first element alone, then the lower-right block of c.
    let mut a: Matrix = Vec::new();
    let mut first: Vec<Scalar> = Vec::new();
    first.push(Scalar::one());
    let mut j: usize = 1;
    while j < n
        invariant
            1 <= j <= n,
            first@.len() == j,
            all_wf(first@),
            vals(first@)[0] == 1,
            forall|k: int| 1 <= k < j ==> (#[trigger] first@[k]).val() == 0,
        decreases n - j,
    {
        first.push(Scalar::zero());
        j = j + 1;
    }
    a.push(first);
    let mut i: usize = 1;
    while i < n
        invariant
            1 <= i <= n,
            is_square(c@, n as nat),
            a@.len() == i,
            forall|k: int| 0 <= k < i ==> (#[trigger] a@[k])@.len() == n && all_wf(a@[k]@),
            forall|k: int| 0 <= k < n ==> (#[trigger] a@[0]@[k]).val() == (if k == 0 { 1nat } else { 0nat }),
            forall|k: int| 1 <= k < i ==> (#[trigger] a@[k]@[0]).val() == 0,
        decreases n - i,
    {
        let mut row: Vec<Scalar> = Vec::new();
        row.push(Scalar::zero());
        let mut j: usize = 1;
        while j < n
            invariant
                1 <= i < n,
                1 <= j <= n,
                is_square(c@, n as nat),
                row@.len() == j,
                all_wf(row@),
                row@[0].val() == 0,
            decreases n - j,
        {
            row.push(c[i][j]);
            j = j + 1;
        }
        a.push(row);
        i = i + 1;
    }
    // The first row of S solves s * block == (first row of c, past its first entry).
    let m = n - 1;
    let mut system: Matrix = Vec::new();
    let mut t: usize = 0;
    while t < m
        invariant
            t <= m,
            m + 1 == n,
            is_square(c@, n as nat),
            system@.len() == t,
            forall|k: int| 0 <= k < t ==> (#[trigger] system@[k])@.len() == m + 1 && all_wf(system@[k]@),
        decreases m - t,
    {
        let mut row: Vec<Scalar> = Vec::new();
        let mut u: usize = 0;
        while u < m
            invariant
                t < m,
                u <= m,
                m + 1 == n,
                is_square(c@, n as nat),
                row@.len() == u,
                all_wf(row@),
            decreases m - u,
        {
            row.push(c[u + 1][t + 1]);
            u = u + 1;
        }
        row.push(c[0][t + 1]);
        system.push(row);
        t = t + 1;
    }
    assert(is_augmented(system@, m as nat, m as nat + 1));
    let sol = match solve(system, m) {
        Some(v) => v,
        None => {
            return None;
        },
    };
    let mut srow: Vec<Scalar> = Vec::new();
    srow.push(c[0][0]);
    let mut k: usize = 0;
    while k < m
        invariant
            k <= m,
            m + 1 == n,
            sol@.len() == m,
            all_wf(sol@),
            is_square(c@, n as nat),
            srow@.len() == k + 1,
            all_wf(srow@),
        decreases m - k,
    {
        srow.push(sol[k]);
        k = k + 1;
    }
    let mut scol: Vec<Scalar> = Vec::new();
    let mut k: usize = 0;
    while k < n
        invariant
            k <= n,
            is_square(c@, n as nat),
            scol@.len() == k,
            all_wf(scol@),
        decreases n - k,
    {
        scol.push(c[k][0]);
        k = k + 1;
    }
    let s = SparseMatrix { row: srow, column: scol };
    let dense = s.to_dense(n);
    let prod = multiply(&dense, &a, n);
    if same_matrix(&prod, c, n) {
        Some((s, a))
    } else {
        None
    }
}

/// The first rows of a sequence of sparse matrices.
pub open spec fn rows_of(v: Seq<SparseMatrix>) -> Seq<Seq<nat>> {
    v.map_values(|s: SparseMatrix| s.row_vals())
}

/// The first columns of a sequence of sparse matrices.
pub open spec fn cols_of(v: Seq<SparseMatrix>) -> Seq<Seq<nat>> {
    v.map_values(|s: SparseMatrix| s.column_vals())
}

/// The decomposition of the mixing layer of a partial-round phase.
#[derive(Clone, Debug, PartialEq, Eq)]
pub struct MixingDecomposition {
    /// Applied once, in place of the dense matrix, just before the first partial round.
    pub pre_sparse_matrix: Matrix,
    /// One per partial round, in round order.
    pub sparse_matrices: Vec<SparseMatrix>,
}

impl MixingDecomposition {
    /// A decomposition of width `n` for `rounds` partial rounds.
    pub open spec fn wf(&self, n: nat, rounds: nat) -> bool {
        &&& is_square(self.pre_sparse_matrix@, n)
        &&& self.sparse_matrices@.len() == rounds
        &&& forall|t: int| 0 <= t < rounds ==> (#[trigger] self.sparse_matrices@[t]).wf(n)
    }

    /// The partial-round phase through the decomposition: the pre-sparse
    /// matrix, then for each round the first-element round with its constant
    /// and that round's sparse matrix.
    pub fn partial_phase(&self, constants: &Vec<Scalar>, x: &Vec<Scalar>) -> (r: Vec<Scalar>)
        requires
            x@.len() > 0,
            self.wf(x@.len(), constants@.len()),
            all_wf(constants@),
            all_wf(x@),
        ensures
            r@.len() == x@.len(),
            all_wf(r@),
            vals(r@) == sparse_phase(
                mat_vals(self.pre_sparse_matrix@),
                rows_of(self.sparse_matrices@),
                cols_of(self.sparse_matrices@),
                vals(constants@),
                vals(x@),
                constants@.len(),
            ),
    {
        let ghost pre = mat_vals(self.pre_sparse_matrix@);
        let ghost rows = rows_of(self.sparse_matrices@);
        let ghost cols = cols_of(self.sparse_matrices@);
        let ghost cs = vals(constants@);
        let mut v = crate::matrix::apply_matrix(&self.pre_sparse_matrix, x);
        let mut j: usize = 0;
        while j < constants.len()
            invariant
                j <= constants@.len(),
                x@.len() > 0,
                self.wf(x@.len(), constants@.len()),
                all_wf(constants@),
                v@.len() == x@.len(),
                all_wf(v@),
                pre == mat_vals(self.pre_sparse_matrix@),
                rows == rows_of(self.sparse_matrices@),
                cols == cols_of(self.sparse_matrices@),
                cs == vals(constants@),
                vals(v@) == sparse_phase(pre, rows, cols, cs, vals(x@), j as nat),
            decreases constants@.len() - j,
        {
            let w = first_element_round(&v, &constants[j]);
            v = self.sparse_matrices[j].apply(&w);
            j = j + 1;
        }
        v
    }
}

/// Adds `c` to the first element and applies the S-box to it.
fn first_element_round(v: &Vec<Scalar>, c: &Scalar) -> (r: Vec<Scalar>)
    requires
        v@.len() > 0,
        all_wf(v@),
        c.wf(),
    ensures
        r@.len() == v@.len(),
        all_wf(r@),
        vals(r@) == first_round(vals(v@), c.val()),
{
    let mut r = copy_vec(v);
    let mut l = r[0].add(c);
    quintic_s_box(&mut l);
    r.set(0, l);
    assert(vals(r@) =~= first_round(vals(v@), c.val()));
    r
}

/// The partial-round phase with the dense matrix: `m` once, then for each
/// round the first-element round with its constant and `m`.
pub fn dense_partial_phase(m: &Matrix, constants: &Vec<Scalar>, x: &Vec<Scalar>) -> (r: Vec<Scalar>)
    requires
        x@.len() > 0,
        is_square(m@, x@.len()),
        all_wf(constants@),
        all_wf(x@),
    ensures
        r@.len() == x@.len(),
        all_wf(r@),
        vals(r@) == dense_phase(mat_vals(m@), vals(constants@), vals(x@), constants@.len()),
{
    let mut v = crate::matrix::apply_matrix(m, x);
    let mut j: usize = 0;
    while j < constants.len()
        invariant
            j <= constants@.len(),
            x@.len() > 0,
            is_square(m@, x@.len()),
            all_wf(constants@),
            v@.len() == x@.len(),
            all_wf(v@),
            vals(v@) == dense_phase(mat_vals(m@), vals(constants@), vals(x@), j as nat),
        decreases constants@.len() - j,
    {
        let w = first_element_round(&v, &constants[j]);
        v = crate::matrix::apply_matrix(m, &w);
        j = j + 1;
    }
    v
}

/// Factors the mixing of a phase of `rounds` partial rounds with the dense
/// `n` by `n` matrix `m` into a pre-sparse matrix and one sparse matrix per
/// round. Fails with `SingularMatrix` where a lower-right block met on the
/// way cannot be inverted.
///
/// On success the decomposition is exact: for every state `x` and every
/// sequence of round constants, the phase through the decomposition ends in
/// the same state as the phase with the dense matrix.
pub fn factor_to_sparse_matrices(m: &Matrix, n: usize, rounds: usize) -> (r: Result<
    MixingDecomposition,
    Error,
>)
    requires
        2 <= n <= 64,
        is_square(m@, n as nat),
    ensures
        r.is_err() ==> r == Err::<MixingDecomposition, Error>(Error::SingularMatrix),
        r.is_ok() ==> r.unwrap().wf(n as nat, rounds as nat),
        r.is_ok() ==> forall|cs: Seq<nat>, x: Seq<nat>|
            x.len() == n ==> #[trigger] sparse_phase(
                mat_vals(r.unwrap().pre_sparse_matrix@),
                rows_of(r.unwrap().sparse_matrices@),
                cols_of(r.unwrap().sparse_matrices@),
                cs,
                x,
                rounds as nat,
            ) == dense_phase(mat_vals(m@), cs, x, rounds as nat),
{
    let ghost mv = mat_vals(m@);
    let mut cur = copy_matrix(m);
    let ghost mut cseq: Seq<Seq<Seq<nat>>> = seq![mv];
    let ghost mut aseq: Seq<Seq<Seq<nat>>> = Seq::empty();
    let mut acc: Vec<SparseMatrix> = Vec::new();
    proof {
        lemma_square_vals(m@, n as nat);
    }
    let mut t: usize = 0;
    while t < rounds
        invariant
            t <= rounds,
            2 <= n <= 64,
            is_square(m@, n as nat),
            mv == mat_vals(m@),
            is_square(cur@, n as nat),
            is_square_vals(mv, n as nat),
            cseq.len() == t + 1,
            aseq.len() == t,
            acc@.len() == t,
            cseq[0] == mv,
            cseq[t as int] == mat_vals(cur@),
            forall|k: int| 0 <= k <= t ==> is_square_vals(#[trigger] cseq[k], n as nat),
            forall|k: int| 0 <= k < t ==> fixes_first(#[trigger] aseq[k], n as nat),
            forall|k: int| 0 <= k < t ==> (#[trigger] acc@[k]).wf(n as nat),
            forall|k: int|
                0 <= k < t ==> mat_mul(
                    sparse_dense(acc@[k].row_vals(), acc@[k].column_vals()),
                    aseq[k],
                ) == #[trigger] cseq[k],
            forall|k: int| 0 <= k < t ==> mat_mul(#[trigger] aseq[k], mv) == cseq[k + 1],
        decreases rounds - t,
    {
        let (s, a) = match factor_step(&cur, n) {
            Some(p) => p,
            None => {
                return Err(Error::SingularMatrix);
            },
        };
        let next = multiply(&a, m, n);
        proof {
            lemma_square_vals(next@, n as nat);
            aseq = aseq.push(mat_vals(a@));
            cseq = cseq.push(mat_vals(next@));
        }
        acc.push(s);
        cur = next;
        t = t + 1;
    }
    let ghost acc0 = acc@;
    let mut rev: Vec<SparseMatrix> = Vec::new();
    let mut k: usize = 0;
    while k < rounds
        invariant
            k <= rounds,
            acc0.len() == rounds,
            acc@ == acc0.take(rounds - k),
            rev@.len() == k,
            forall|i: int| 0 <= i < k ==> #[trigger] rev@[i] == acc0[rounds - 1 - i],
        decreases rounds - k,
    {
        let s = acc.pop().unwrap();
        rev.push(s);
        k = k + 1;
        assert(acc@ =~= acc0.take(rounds - k));
    }
    let d = MixingDecomposition { pre_sparse_matrix: cur, sparse_matrices: rev };
    proof {
        let rows = rows_of(d.sparse_matrices@);
        let cols = cols_of(d.sparse_matrices@);
        let r = rounds as nat;
        assert forall|i: int| 0 <= i < r implies (#[trigger] d.sparse_matrices@[i]).wf(n as nat) by {
            assert(d.sparse_matrices@[i] == acc0[r - 1 - i]);
        }
        assert forall|i: int| 0 <= i < r implies mat_mul(
            sparse_dense(rows[r - 1 - i], cols[r - 1 - i]),
            aseq[i],
        ) == #[trigger] cseq[i] by {
            assert(d.sparse_matrices@[r - 1 - i] == acc0[i]);
        }
        assert(factor_chain(mv, cseq, aseq, rows, cols, n as nat, r));
        assert forall|cs: Seq<nat>, x: Seq<nat>| x.len() == n implies #[trigger] sparse_phase(
            mat_vals(d.pre_sparse_matrix@),
            rows,
            cols,
            cs,
            x,
            r,
        ) == dense_phase(mv, cs, x, r) by {
            lemma_chain_equivalence(mv, cseq, aseq, rows, cols, cs, x, n as nat, r);
        }
    }
    Ok(d)
}

impl PoseidonConstants {
    /// The decomposition of the dense matrix over this model's partial rounds.
    /// Fails with `SingularMatrix` where it does not exist; on success every
    /// state goes through the partial-round phase alike on both paths.
    pub fn optimize(&self) -> (r: Result<MixingDecomposition, Error>)
        requires
            self.wf(),
        ensures
            r.is_err() ==> r == Err::<MixingDecomposition, Error>(Error::SingularMatrix),
            r.is_ok() ==> r.unwrap().wf(self.width(), self.partial_rounds as nat),
            r.is_ok() ==> forall|cs: Seq<nat>, x: Seq<nat>|
                x.len() == self.width() ==> #[trigger] sparse_phase(
                    mat_vals(r.unwrap().pre_sparse_matrix@),
                    rows_of(r.unwrap().sparse_matrices@),
                    cols_of(r.unwrap().sparse_matrices@),
                    cs,
                    x,
                    self.partial_rounds as nat,
                ) == dense_phase(mat_vals(self.mds_matrix@), cs, x, self.partial_rounds as nat),
    {
        factor_to_sparse_matrices(&self.mds_matrix, self.arity + 1, self.partial_rounds)
    }
}

} // verus!
