//! Folding the round constants of the partial rounds so that the sparse
//! decomposition can run inside the permutation.
//!
//! A partial round adds a constant to every element, though only the first
//! goes through the S-box. Split each round's constants `c` into the first
//! entry and the rest `ĉ`: the rest passes through the S-box untouched, and
//! the matrix carries `M ĉ` into the next round's constants. So the phase
//! equals a phase whose rounds add a constant to the first element only,
//! followed by one final vector addition; that phase is what the
//! decomposition computes.

use crate::algebra::{lemma_dot_sum, lemma_sum_add, lemma_sum_cong, sum};
use crate::constants::PoseidonConstants;
use crate::field::{fadd, modulus, Scalar};
use crate::matrix::{all_wf, apply_matrix, dot, lemma_dot_bound, mat_vals, mat_vec, vals};
use crate::params::Error;
use crate::poseidon::{is_full_round, partial_round_spec, rounds, sbox};
use crate::sparse::{cols_of, dense_phase, first_round, rows_of, sparse_phase, MixingDecomposition};
use vstd::arithmetic::div_mod::{lemma_add_mod_noop, lemma_mul_mod_noop_right, lemma_small_mod};
use vstd::prelude::*;

verus! {

/// Element-wise field sum.
pub open spec fn vadd(a: Seq<nat>, b: Seq<nat>) -> Seq<nat> {
    Seq::new(a.len(), |i: int| fadd(a[i], b[i]))
}

/// Every entry is a field value.
pub open spec fn bounded(v: Seq<nat>) -> bool {
    forall|i: int| 0 <= i < v.len() ==> #[trigger] v[i] < modulus()
}

/// A partial round with the constant vector `cv`: add, the S-box on the
/// first element, then `m`.
pub open spec fn partial_step(m: Seq<Seq<nat>>, s: Seq<nat>, cv: Seq<nat>) -> Seq<nat> {
    let t = vadd(s, cv);
    mat_vec(m, t.update(0, sbox(t[0])))
}

/// The dot product distributes over an element-wise sum.
pub proof fn lemma_dot_vadd(row: Seq<nat>, a: Seq<nat>, b: Seq<nat>, n: nat)
    requires
        n <= a.len(),
        a.len() == b.len(),
    ensures
        dot(row, vadd(a, b), n) == fadd(dot(row, a, n), dot(row, b, n)),
{
    let p = modulus() as int;
    let ab = vadd(a, b);
    lemma_dot_sum(row, ab, n);
    lemma_dot_sum(row, a, n);
    lemma_dot_sum(row, b, n);
    let f = |k: int| row[k] as int * a[k];
    let g = |k: int| row[k] as int * b[k];
    let h = |k: int| row[k] as int * ab[k];
    let hh = |k: int| row[k] as int * a[k] + row[k] as int * b[k];
    assert forall|k: int| 0 <= k < n implies #[trigger] h(k) % p == hh(k) % p by {
        lemma_mul_mod_noop_right(row[k] as int, (a[k] + b[k]) as int, p);
        assert(row[k] as int * (a[k] + b[k]) == row[k] as int * a[k] + row[k] as int * b[k]) by (nonlinear_arith);
    }
    lemma_sum_cong(h, hh, n);
    lemma_sum_add(f, g, hh, n);
    lemma_add_mod_noop(sum(f, n), sum(g, n), p);
}

/// The matrix product distributes over an element-wise sum.
pub proof fn lemma_mat_vec_vadd(m: Seq<Seq<nat>>, a: Seq<nat>, b: Seq<nat>)
    requires
        a.len() == b.len(),
    ensures
        mat_vec(m, vadd(a, b)) == vadd(mat_vec(m, a), mat_vec(m, b)),
{
    assert forall|i: int| 0 <= i < m.len() implies #[trigger] mat_vec(m, vadd(a, b))[i] == vadd(
        mat_vec(m, a),
        mat_vec(m, b),
    )[i] by {
        lemma_dot_vadd(m[i], a, b, a.len());
    }
    assert(mat_vec(m, vadd(a, b)) =~= vadd(mat_vec(m, a), mat_vec(m, b)));
}

/// One partial round on `d + f` with constants `cv` is the first-element
/// round of `d` with the first entry of `e = cv + f`, mixed, plus the rest
/// of `e`, mixed.
pub proof fn lemma_partial_step_split(m: Seq<Seq<nat>>, d: Seq<nat>, f: Seq<nat>, cv: Seq<nat>)
    requires
        d.len() == f.len(),
        cv.len() == d.len(),
        d.len() > 0,
        bounded(d),
        bounded(f),
        bounded(cv),
    ensures
        partial_step(m, vadd(d, f), cv) == ({
            let e = vadd(cv, f);
            vadd(mat_vec(m, first_round(d, e[0])), mat_vec(m, e.update(0, 0)))
        }),
{
    let p = modulus() as int;
    let e = vadd(cv, f);
    let t = vadd(vadd(d, f), cv);
    let u = t.update(0, sbox(t[0]));
    let g = first_round(d, e[0]);
    let z = e.update(0, 0);
    assert forall|i: int| 0 <= i < d.len() implies #[trigger] t[i] == fadd(d[i], e[i]) by {
        lemma_add_mod_noop((d[i] + f[i]) as int, cv[i] as int, p);
        lemma_add_mod_noop(d[i] as int, (cv[i] + f[i]) as int, p);
        lemma_small_mod(d[i], modulus());
        lemma_small_mod(cv[i], modulus());
    }
    assert forall|i: int| 0 <= i < d.len() implies #[trigger] u[i] == vadd(g, z)[i] by {
        if i == 0 {
            lemma_small_mod(sbox(fadd(d[0], e[0])), modulus());
        } else {
            lemma_small_mod(d[i], modulus());
        }
    }
    assert(u =~= vadd(g, z));
    lemma_mat_vec_vadd(m, g, z);
}

/// A matrix-vector product holds field values.
pub proof fn lemma_mat_vec_bounded(m: Seq<Seq<nat>>, x: Seq<nat>)
    ensures
        bounded(mat_vec(m, x)),
{
    assert forall|i: int| 0 <= i < mat_vec(m, x).len() implies #[trigger] mat_vec(m, x)[i] < modulus() by {
        lemma_dot_bound(m[i], x, x.len());
    }
}

/// The constants of round `k` of the permutation.
pub open spec fn round_vec(c: PoseidonConstants, k: nat) -> Seq<nat> {
    Seq::new(c.width(), |i: int| vals(c.round_constants@)[k * c.width() + i])
}

/// The constants of partial round `j`.
pub open spec fn partial_vec(c: PoseidonConstants, j: nat) -> Seq<nat> {
    round_vec(c, c.half_full_rounds as nat + j)
}

/// What the mixing has carried out of the constants of the first `j`
/// partial rounds, past their first entries.
pub open spec fn carry(c: PoseidonConstants, j: nat) -> Seq<nat>
    decreases j,
{
    if j == 0 {
        Seq::new(c.width(), |i: int| 0nat)
    } else {
        let e = vadd(partial_vec(c, (j - 1) as nat), carry(c, (j - 1) as nat));
        mat_vec(mat_vals(c.mds_matrix@), e.update(0, 0))
    }
}

/// The folded constant of each partial round: the first entry of its
/// constants plus what the earlier rounds carried there.
pub open spec fn folded_constants(c: PoseidonConstants) -> Seq<nat> {
    Seq::new(
        c.partial_rounds as nat,
        |j: int| vadd(partial_vec(c, j as nat), carry(c, j as nat))[0],
    )
}

/// A partial round of the permutation is `partial_step` with its constants.
pub proof fn lemma_partial_round_is_step(c: PoseidonConstants, s: Seq<nat>, j: nat)
    requires
        s.len() == c.width(),
    ensures
        partial_round_spec(c, s, (c.half_full_rounds as nat + j) * c.width()) == partial_step(
            mat_vals(c.mds_matrix@),
            s,
            partial_vec(c, j),
        ),
{
    let off = (c.half_full_rounds as nat + j) * c.width();
    let t1 = crate::poseidon::add_round_constants_spec(s, vals(c.round_constants@), off);
    let t2 = vadd(s, partial_vec(c, j));
    assert(t1 =~= t2);
}

/// Folded constants and carries are field values.
pub proof fn lemma_carry_bounded(c: PoseidonConstants, j: nat)
    requires
        c.wf(),
    ensures
        bounded(carry(c, j)),
        carry(c, j).len() == c.width(),
    decreases j,
{
    if j > 0 {
        let e = vadd(partial_vec(c, (j - 1) as nat), carry(c, (j - 1) as nat));
        lemma_mat_vec_bounded(mat_vals(c.mds_matrix@), e.update(0, 0));
    }
}

/// After `j` partial rounds from the mixed state `m * u`, the permutation
/// holds the first-element phase on `u` with the folded constants, plus the
/// carry.
pub proof fn lemma_partial_rounds_folded(c: PoseidonConstants, s0: Seq<nat>, u: Seq<nat>, j: nat)
    requires
        c.wf(),
        u.len() == c.width(),
        rounds(c, s0, c.half_full_rounds as nat) == mat_vec(mat_vals(c.mds_matrix@), u),
        j <= c.partial_rounds,
    ensures
        rounds(c, s0, c.half_full_rounds as nat + j) == vadd(
            dense_phase(mat_vals(c.mds_matrix@), folded_constants(c), u, j),
            carry(c, j),
        ),
    decreases j,
{
    let m = mat_vals(c.mds_matrix@);
    let h = c.half_full_rounds as nat;
    let w = c.width();
    if j == 0 {
        let d = mat_vec(m, u);
        lemma_mat_vec_bounded(m, u);
        assert forall|i: int| 0 <= i < d.len() implies #[trigger] vadd(d, carry(c, 0))[i] == d[i] by {
            lemma_small_mod(d[i], modulus());
        }
        assert(vadd(d, carry(c, 0)) =~= d);
    } else {
        let j1 = (j - 1) as nat;
        lemma_partial_rounds_folded(c, s0, u, j1);
        let d = dense_phase(m, folded_constants(c), u, j1);
        let f = carry(c, j1);
        let cv = partial_vec(c, j1);
        assert(!is_full_round(c, h + j1));
        assert((h + j - 1) as nat == h + j1);
        lemma_partial_round_is_step(c, vadd(d, f), j1);
        assert(d.len() == w) by {
            crate::sparse::lemma_dense_inner(m, folded_constants(c), u, j1);
        }
        assert(bounded(d)) by {
            crate::sparse::lemma_dense_inner(m, folded_constants(c), u, j1);
            lemma_mat_vec_bounded(m, crate::sparse::dense_inner(m, folded_constants(c), u, j1));
        }
        lemma_carry_bounded(c, j1);
        assert(bounded(cv)) by {
            assert forall|i: int| 0 <= i < cv.len() implies #[trigger] cv[i] < modulus() by {
                let k = (h + j1) * w + i;
                assert(k < c.round_constants@.len()) by (nonlinear_arith)
                    requires
                        k == (h + j1) * w + i,
                        0 <= i < w,
                        h + j1 < c.total_rounds(),
                        c.round_constants@.len() == c.total_rounds() * w,
                ;
                assert(c.round_constants@[k].wf());
            }
        }
        lemma_partial_step_split(m, d, f, cv);
        assert(folded_constants(c)[j1 as int] == vadd(cv, f)[0]);
    }
}

/// What the permutation needs to run its partial rounds through the sparse
/// decomposition: the decomposition, one folded constant per partial round,
/// and the vector to add after the last partial round.
#[derive(Clone, Debug, PartialEq, Eq)]
pub struct CompressedPartialRounds {
    pub mixing: MixingDecomposition,
    pub folded_constants: Vec<Scalar>,
    pub carry: Vec<Scalar>,
}

impl CompressedPartialRounds {
    /// Built from the constants model `c`: an exact decomposition of its
    /// dense matrix over its partial rounds, and its folded constants and
    /// final carry.
    pub open spec fn matches(&self, c: PoseidonConstants) -> bool {
        let r = c.partial_rounds as nat;
        &&& self.mixing.wf(c.width(), r)
        &&& forall|cs: Seq<nat>, x: Seq<nat>|
            x.len() == c.width() ==> #[trigger] sparse_phase(
                mat_vals(self.mixing.pre_sparse_matrix@),
                rows_of(self.mixing.sparse_matrices@),
                cols_of(self.mixing.sparse_matrices@),
                cs,
                x,
                r,
            ) == dense_phase(mat_vals(c.mds_matrix@), cs, x, r)
        &&& all_wf(self.folded_constants@)
        &&& vals(self.folded_constants@) == folded_constants(c)
        &&& all_wf(self.carry@)
        &&& vals(self.carry@) == carry(c, r)
    }
}

/// The folded constants and the final carry of `c`.
fn fold_constants(c: &PoseidonConstants) -> (r: (Vec<Scalar>, Vec<Scalar>))
    requires
        c.wf(),
    ensures
        all_wf(r.0@),
        vals(r.0@) == folded_constants(*c),
        all_wf(r.1@),
        vals(r.1@) == carry(*c, c.partial_rounds as nat),
{
    let w = c.arity + 1;
    let h = c.half_full_rounds;
    let r = c.partial_rounds;
    let mut f: Vec<Scalar> = Vec::new();
    let mut i: usize = 0;
    while i < w
        invariant
            i <= w,
            w == c.width(),
            f@.len() == i,
            all_wf(f@),
            forall|k: int| 0 <= k < i ==> (#[trigger] f@[k]).val() == 0,
        decreases w - i,
    {
        f.push(Scalar::zero());
        i = i + 1;
    }
    assert(vals(f@) =~= carry(*c, 0));
    let mut folded: Vec<Scalar> = Vec::new();
    let mut j: usize = 0;
    while j < r
        invariant
            c.wf(),
            w == c.width(),
            h == c.half_full_rounds,
            r == c.partial_rounds,
            j <= r,
            f@.len() == w,
            all_wf(f@),
            vals(f@) == carry(*c, j as nat),
            all_wf(folded@),
            folded@.len() == j,
            vals(folded@) == folded_constants(*c).take(j as int),
        decreases r - j,
    {
        let ghost pv = partial_vec(*c, j as nat);
        assert((h + j + 1) * w <= c.round_constants@.len()) by (nonlinear_arith)
            requires
                j < r,
                c.round_constants@.len() == (2 * h + r) * w,
        ;
        assert(c.partial_rounds <= 75);
        assert((h + j) * w <= (h + j + 1) * w <= 80 * 37) by (nonlinear_arith)
            requires
                h == 4,
                j < r,
                r <= 75,
                w <= 37,
        ;
        let base = (h + j) * w;
        assert(base + w == (h + j + 1) * w) by (nonlinear_arith)
            requires
                base == (h + j) * w,
        ;
        let mut e: Vec<Scalar> = Vec::new();
        let mut i: usize = 0;
        while i < w
            invariant
                c.wf(),
                w == c.width(),
                h == c.half_full_rounds,
                j < r,
                (h + j + 1) * w <= c.round_constants@.len(),
                base + w <= c.round_constants@.len(),
                base + w <= 80 * 37,
                base == (h + j) * w,
                f@.len() == w,
                all_wf(f@),
                pv == partial_vec(*c, j as nat),
                i <= w,
                e@.len() == i,
                all_wf(e@),
                vals(e@) =~= vadd(pv, vals(f@)).take(i as int),
            decreases w - i,
        {
            let x = c.round_constants[base + i].add(&f[i]);
            e.push(x);
            i = i + 1;
            assert(vals(e@) =~= vadd(pv, vals(f@)).take(i as int));
        }
        assert(vals(e@) =~= vadd(pv, vals(f@)));
        assert(e@[0].val() == folded_constants(*c)[j as int]);
        let ghost before = folded@;
        folded.push(e[0]);
        assert(folded@ == before.push(e@[0]));
        assert(vals(before) == folded_constants(*c).take(j as int));
        assert forall|i: int| 0 <= i < j + 1 implies #[trigger] vals(folded@)[i] == folded_constants(
            *c,
        )[i] by {
            if i < j {
                assert(vals(before)[i] == folded_constants(*c).take(j as int)[i]);
                assert(folded@[i] == before[i]);
            }
        }
        assert(vals(folded@) =~= folded_constants(*c).take(j as int + 1));
        e.set(0, Scalar::zero());
        assert(vals(e@) =~= vadd(pv, vals(f@)).update(0, 0));
        f = apply_matrix(&c.mds_matrix, &e);
        j = j + 1;
    }
    assert(vals(folded@) =~= folded_constants(*c));
    (folded, f)
}

impl PoseidonConstants {
    /// Everything the permutation needs to run its partial rounds through the
    /// sparse decomposition. Fails with `SingularMatrix` where the dense
    /// matrix has no such decomposition.
    pub fn compress(&self) -> (r: Result<CompressedPartialRounds, Error>)
        requires
            self.wf(),
        ensures
            r.is_err() ==> r == Err::<CompressedPartialRounds, Error>(Error::SingularMatrix),
            r.is_ok() ==> r.unwrap().matches(*self),
    {
        let mixing = match self.optimize() {
            Ok(m) => m,
            Err(e) => {
                return Err(e);
            },
        };
        let (folded, carry_vec) = fold_constants(self);
        Ok(CompressedPartialRounds { mixing, folded_constants: folded, carry: carry_vec })
    }
}

} // verus!
