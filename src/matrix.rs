//! Vectors and square matrices of field elements, modelled as sequences of
//! canonical values.

use crate::algebra::{column, identity, is_square_vals, mat_mul};
use crate::field::{fadd, fmul, Scalar};
use vstd::prelude::*;

verus! {

/// A matrix, row by row.
pub type Matrix = Vec<Vec<Scalar>>;

/// The values of a sequence of elements.
pub open spec fn vals(v: Seq<Scalar>) -> Seq<nat> {
    v.map_values(|s: Scalar| s.val())
}

/// Every element is canonical.
pub open spec fn all_wf(v: Seq<Scalar>) -> bool {
    forall|i: int| 0 <= i < v.len() ==> (#[trigger] v[i]).wf()
}

/// The values of a matrix, row by row.
pub open spec fn mat_vals(m: Seq<Vec<Scalar>>) -> Seq<Seq<nat>> {
    m.map_values(|r: Vec<Scalar>| vals(r@))
}

/// `m` is an `n` by `n` matrix of canonical elements.
pub open spec fn is_square(m: Seq<Vec<Scalar>>, n: nat) -> bool {
    &&& m.len() == n
    &&& forall|i: int| 0 <= i < m.len() ==> (#[trigger] m[i])@.len() == n && all_wf(m[i]@)
}

/// The field sum of `row[k] * x[k]` over `k < n`, accumulated from `k = 0` up.
pub open spec fn dot(row: Seq<nat>, x: Seq<nat>, n: nat) -> nat
    decreases n,
{
    if n == 0 {
        0
    } else {
        fadd(dot(row, x, (n - 1) as nat), fmul(row[n - 1], x[n - 1]))
    }
}

/// The matrix-vector product `m * x`.
pub open spec fn mat_vec(m: Seq<Seq<nat>>, x: Seq<nat>) -> Seq<nat> {
    Seq::new(m.len(), |j: int| dot(m[j], x, x.len()))
}

/// Every value of the field lies below the modulus, dot products included.
pub proof fn lemma_dot_bound(row: Seq<nat>, x: Seq<nat>, n: nat)
    ensures
        dot(row, x, n) < crate::field::modulus(),
    decreases n,
{
    if n > 0 {
        lemma_dot_bound(row, x, (n - 1) as nat);
    }
}

/// The product `m * x` of a square matrix and a vector of its width.
pub fn apply_matrix(m: &Matrix, x: &Vec<Scalar>) -> (r: Vec<Scalar>)
    requires
        is_square(m@, x@.len()),
        all_wf(x@),
    ensures
        r@.len() == x@.len(),
        all_wf(r@),
        vals(r@) == mat_vec(mat_vals(m@), vals(x@)),
{
    let n = x.len();
    let mut r: Vec<Scalar> = Vec::new();
    let mut j: usize = 0;
    while j < n
        invariant
            j <= n,
            n == x@.len(),
            is_square(m@, x@.len()),
            all_wf(x@),
            r@.len() == j,
            all_wf(r@),
            forall|i: int| 0 <= i < j ==> (#[trigger] r@[i]).val() == dot(vals(m@[i]@), vals(x@), n as nat),
        decreases n - j,
    {
        let row = &m[j];
        let mut acc = Scalar::zero();
        let mut k: usize = 0;
        while k < n
            invariant
                k <= n,
                n == x@.len(),
                row@.len() == n,
                all_wf(row@),
                all_wf(x@),
                acc.wf(),
                acc.val() == dot(vals(row@), vals(x@), k as nat),
            decreases n - k,
        {
            let t = row[k].mul(&x[k]);
            acc = acc.add(&t);
            k = k + 1;
        }
        r.push(acc);
        j = j + 1;
    }
    assert(vals(r@) =~= mat_vec(mat_vals(m@), vals(x@)));
    r
}

/// The values of a square matrix form a square.
pub proof fn lemma_square_vals(m: Seq<Vec<Scalar>>, n: nat)
    requires
        is_square(m, n),
    ensures
        is_square_vals(mat_vals(m), n),
{
}

/// A copy of a vector of elements.
pub fn copy_vec(v: &Vec<Scalar>) -> (r: Vec<Scalar>)
    ensures
        r@ == v@,
{
    let mut r: Vec<Scalar> = Vec::new();
    let mut i: usize = 0;
    while i < v.len()
        invariant
            i <= v@.len(),
            r@ == v@.take(i as int),
        decreases v@.len() - i,
    {
        r.push(v[i]);
        i = i + 1;
        assert(r@ =~= v@.take(i as int));
    }
    assert(v@.take(i as int) =~= v@);
    r
}

/// The product `a * b` of two `n` by `n` matrices.
pub fn multiply(a: &Matrix, b: &Matrix, n: usize) -> (r: Matrix)
    requires
        is_square(a@, n as nat),
        is_square(b@, n as nat),
    ensures
        is_square(r@, n as nat),
        mat_vals(r@) == mat_mul(mat_vals(a@), mat_vals(b@)),
{
    let ghost av = mat_vals(a@);
    let ghost bv = mat_vals(b@);
    let mut r: Matrix = Vec::new();
    let mut i: usize = 0;
    while i < n
        invariant
            i <= n,
            is_square(a@, n as nat),
            is_square(b@, n as nat),
            av == mat_vals(a@),
            bv == mat_vals(b@),
            r@.len() == i,
            forall|k: int| 0 <= k < i ==> (#[trigger] r@[k])@.len() == n && all_wf(r@[k]@),
            forall|k: int| 0 <= k < i ==> vals((#[trigger] r@[k])@) == mat_mul(av, bv)[k],
        decreases n - i,
    {
        let mut row: Vec<Scalar> = Vec::new();
        let mut j: usize = 0;
        while j < n
            invariant
                i < n,
                j <= n,
                is_square(a@, n as nat),
                is_square(b@, n as nat),
                av == mat_vals(a@),
                bv == mat_vals(b@),
                row@.len() == j,
                all_wf(row@),
                forall|k: int| 0 <= k < j ==> (#[trigger] row@[k]).val() == dot(av[i as int], column(bv, k), n as nat),
            decreases n - j,
        {
            let mut acc = Scalar::zero();
            let mut k: usize = 0;
            while k < n
                invariant
                    i < n,
                    j < n,
                    k <= n,
                    is_square(a@, n as nat),
                    is_square(b@, n as nat),
                    av == mat_vals(a@),
                    bv == mat_vals(b@),
                    acc.wf(),
                    acc.val() == dot(av[i as int], column(bv, j as int), k as nat),
                decreases n - k,
            {
                let t = a[i][k].mul(&b[k][j]);
                acc = acc.add(&t);
                k = k + 1;
            }
            row.push(acc);
            j = j + 1;
        }
        assert(vals(row@) =~= mat_mul(av, bv)[i as int]);
        r.push(row);
        i = i + 1;
    }
    assert(mat_vals(r@) =~= mat_mul(av, bv));
    r
}

/// Whether two `n` by `n` matrices hold elements of the same values.
pub fn same_matrix(a: &Matrix, b: &Matrix, n: usize) -> (r: bool)
    requires
        is_square(a@, n as nat),
        is_square(b@, n as nat),
    ensures
        r <==> mat_vals(a@) == mat_vals(b@),
{
    let mut i: usize = 0;
    while i < n
        invariant
            i <= n,
            is_square(a@, n as nat),
            is_square(b@, n as nat),
            forall|k: int| 0 <= k < i ==> vals((#[trigger] a@[k])@) == vals(b@[k]@),
        decreases n - i,
    {
        let mut j: usize = 0;
        while j < n
            invariant
                i < n,
                j <= n,
                is_square(a@, n as nat),
                is_square(b@, n as nat),
                forall|k: int| 0 <= k < j ==> (#[trigger] a@[i as int]@[k]).val() == b@[i as int]@[k].val(),
            decreases n - j,
        {
            if !a[i][j].equals(&b[i][j]) {
                proof {
                    if a@[i as int]@[j as int].val() == b@[i as int]@[j as int].val() {
                        crate::lemmas::lemma_scalar_val_injective(a@[i as int]@[j as int], b@[i as int]@[j as int]);
                    }
                    assert(vals(a@[i as int]@)[j as int] != vals(b@[i as int]@)[j as int]);
                    assert(mat_vals(a@)[i as int] != mat_vals(b@)[i as int]);
                }
                return false;
            }
            j = j + 1;
        }
        assert(vals(a@[i as int]@) =~= vals(b@[i as int]@));
        i = i + 1;
    }
    assert(mat_vals(a@) =~= mat_vals(b@));
    true
}

/// A copy of a matrix.
pub fn copy_matrix(m: &Matrix) -> (r: Matrix)
    ensures
        r@.len() == m@.len(),
        forall|i: int| 0 <= i < m@.len() ==> (#[trigger] r@[i])@ == m@[i]@,
        mat_vals(r@) == mat_vals(m@),
{
    let mut r: Matrix = Vec::new();
    let mut i: usize = 0;
    while i < m.len()
        invariant
            i <= m@.len(),
            r@.len() == i,
            forall|k: int| 0 <= k < i ==> (#[trigger] r@[k])@ == m@[k]@,
        decreases m@.len() - i,
    {
        r.push(copy_vec(&m[i]));
        i = i + 1;
    }
    assert(mat_vals(r@) =~= mat_vals(m@));
    r
}

/// The `n` by `n` identity matrix.
pub fn identity_matrix(n: usize) -> (r: Matrix)
    ensures
        is_square(r@, n as nat),
        mat_vals(r@) == identity(n as nat),
{
    let mut r: Matrix = Vec::new();
    let mut i: usize = 0;
    while i < n
        invariant
            i <= n,
            r@.len() == i,
            forall|k: int| 0 <= k < i ==> (#[trigger] r@[k])@.len() == n && all_wf(r@[k]@),
            forall|k: int| 0 <= k < i ==> vals((#[trigger] r@[k])@) == identity(n as nat)[k],
        decreases n - i,
    {
        let mut row: Vec<Scalar> = Vec::new();
        let mut j: usize = 0;
        while j < n
            invariant
                i < n,
                j <= n,
                row@.len() == j,
                all_wf(row@),
                vals(row@) =~= identity(n as nat)[i as int].take(j as int),
            decreases n - j,
        {
            if i == j {
                row.push(Scalar::one());
            } else {
                row.push(Scalar::zero());
            }
            j = j + 1;
            assert(vals(row@) =~= identity(n as nat)[i as int].take(j as int));
        }
        assert(vals(row@) =~= identity(n as nat)[i as int]);
        r.push(row);
        i = i + 1;
    }
    assert(mat_vals(r@) =~= identity(n as nat));
    r
}

} // verus!
