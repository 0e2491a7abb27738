//! The constants model: everything a permutation needs for one
//! (arity, strength, hash-domain policy) configuration.

use crate::field::Scalar;
use crate::algebra::{identity, invertible, mat_mul};
use crate::matrix::{all_wf, is_square, lemma_square_vals, mat_vals, Matrix};
use crate::sparse::left_inverse;
use crate::params::{
    domain_tag, is_supported_arity, round_numbers, spec_domain_tag, spec_partial_rounds, Error,
    HashType, Strength, FULL_ROUNDS, MAX_ARITY,
};
use vstd::prelude::*;

verus! {

/// The configuration of one permutation: round schedule, round constants,
/// dense mixing matrix and domain tag. Immutable once built.
#[derive(Clone, Debug, PartialEq, Eq)]
pub struct PoseidonConstants {
    pub arity: usize,
    pub strength: Strength,
    pub hash_type: HashType,
    /// The dense mixing matrix, `width` by `width`.
    pub mds_matrix: Matrix,
    /// The inverse of the dense matrix: `mds_inverse * mds_matrix == I`.
    pub mds_inverse: Matrix,
    /// `width` constants for each round, in the order they are consumed.
    pub round_constants: Vec<Scalar>,
    pub domain_tag: Scalar,
    pub full_rounds: usize,
    pub half_full_rounds: usize,
    pub partial_rounds: usize,
}

/// The round constants consumed by a permutation of this schedule.
pub open spec fn round_constant_count(full_rounds: nat, partial_rounds: nat, width: nat) -> nat {
    (full_rounds + partial_rounds) * width
}

impl PoseidonConstants {
    /// The state width, one more than the arity.
    pub open spec fn width(&self) -> nat {
        self.arity as nat + 1
    }

    /// The rounds of one permutation.
    pub open spec fn total_rounds(&self) -> nat {
        self.full_rounds as nat + self.partial_rounds as nat
    }

    /// The invariant of a built model.
    pub open spec fn wf(&self) -> bool {
        &&& is_supported_arity(self.arity as nat)
        &&& self.arity <= MAX_ARITY
        &&& self.full_rounds == FULL_ROUNDS
        &&& self.half_full_rounds * 2 == self.full_rounds
        &&& self.partial_rounds as nat == spec_partial_rounds(self.arity as nat, self.strength)
        &&& is_square(self.mds_matrix@, self.width())
        &&& is_square(self.mds_inverse@, self.width())
        &&& mat_mul(mat_vals(self.mds_inverse@), mat_vals(self.mds_matrix@)) == identity(
            self.width(),
        )
        &&& invertible(mat_vals(self.mds_matrix@), self.width())
        &&& self.round_constants@.len() == round_constant_count(
            self.full_rounds as nat,
            self.partial_rounds as nat,
            self.width(),
        )
        &&& all_wf(self.round_constants@)
        &&& self.domain_tag.wf()
        &&& self.domain_tag.val() == spec_domain_tag(self.hash_type, self.arity as nat)
    }

    /// Assembles a model from the constants generator's output: `round_constants`
    /// and the dense `mds_matrix`, whose inverse it computes. Fails with
    /// `ParameterError` where the arity is not in the round table, or the
    /// supplied constants do not have the sizes the schedule asks for, or are
    /// not canonical, or the dense matrix is singular.
    pub fn from_parts(
        arity: usize,
        strength: Strength,
        hash_type: HashType,
        round_constants: Vec<Scalar>,
        mds_matrix: Matrix,
    ) -> (r: Result<PoseidonConstants, Error>)
        ensures
            r.is_ok() ==> {
                &&& is_supported_arity(arity as nat)
                &&& is_square(mds_matrix@, arity as nat + 1)
                &&& invertible(mat_vals(mds_matrix@), arity as nat + 1)
                &&& round_constants@.len() == round_constant_count(
                    FULL_ROUNDS as nat,
                    spec_partial_rounds(arity as nat, strength),
                    arity as nat + 1,
                )
                &&& all_wf(round_constants@)
            },
            !({
                &&& is_supported_arity(arity as nat)
                &&& is_square(mds_matrix@, arity as nat + 1)
                &&& invertible(mat_vals(mds_matrix@), arity as nat + 1)
                &&& round_constants@.len() == round_constant_count(
                    FULL_ROUNDS as nat,
                    spec_partial_rounds(arity as nat, strength),
                    arity as nat + 1,
                )
                &&& all_wf(round_constants@)
            }) ==> r.is_err(),
            r.is_err() ==> r == Err::<PoseidonConstants, Error>(Error::ParameterError),
            r.is_ok() ==> {
                let c = r.unwrap();
                &&& c.wf()
                &&& c.arity == arity
                &&& c.strength == strength
                &&& c.hash_type == hash_type
                &&& c.round_constants@ == round_constants@
                &&& c.mds_matrix@ == mds_matrix@
            },
    {
        if arity > MAX_ARITY || !check_square(&mds_matrix, arity + 1) {
            return Err(Error::ParameterError);
        }
        let inverse = match left_inverse(&mds_matrix, arity + 1) {
            Some(inv) => inv,
            None => {
                return Err(Error::ParameterError);
            },
        };
        PoseidonConstants::assemble(arity, strength, hash_type, round_constants, mds_matrix, inverse)
    }

    /// Assembles a model whose dense matrix comes with its inverse. Fails
    /// with `ParameterError` exactly where the parts do not form a model.
    pub fn assemble(
        arity: usize,
        strength: Strength,
        hash_type: HashType,
        round_constants: Vec<Scalar>,
        mds_matrix: Matrix,
        mds_inverse: Matrix,
    ) -> (r: Result<PoseidonConstants, Error>)
        ensures
            r.is_ok() <==> {
                &&& is_supported_arity(arity as nat)
                &&& is_square(mds_matrix@, arity as nat + 1)
                &&& is_square(mds_inverse@, arity as nat + 1)
                &&& mat_mul(mat_vals(mds_inverse@), mat_vals(mds_matrix@)) == identity(
                    arity as nat + 1,
                )
                &&& round_constants@.len() == round_constant_count(
                    FULL_ROUNDS as nat,
                    spec_partial_rounds(arity as nat, strength),
                    arity as nat + 1,
                )
                &&& all_wf(round_constants@)
            },
            r.is_err() ==> r == Err::<PoseidonConstants, Error>(Error::ParameterError),
            r.is_ok() ==> {
                let c = r.unwrap();
                &&& c.wf()
                &&& c.arity == arity
                &&& c.strength == strength
                &&& c.hash_type == hash_type
                &&& c.round_constants@ == round_constants@
                &&& c.mds_matrix@ == mds_matrix@
                &&& c.mds_inverse@ == mds_inverse@
            },
    {
        let (full, partial) = match round_numbers(arity, strength) {
            Ok(p) => p,
            Err(e) => {
                return Err(e);
            },
        };
        let width = arity + 1;
        assert(partial <= 75);
        assert((full + partial) * width <= 83 * 37) by (nonlinear_arith)
            requires
                full == 8,
                partial <= 75,
                width <= 37,
        ;
        if !check_square(&mds_matrix, width) || !check_square(&mds_inverse, width) {
            return Err(Error::ParameterError);
        }
        let prod = crate::matrix::multiply(&mds_inverse, &mds_matrix, width);
        let id = crate::matrix::identity_matrix(width);
        if !crate::matrix::same_matrix(&prod, &id, width) {
            return Err(Error::ParameterError);
        }
        if round_constants.len() != (full + partial) * width {
            return Err(Error::ParameterError);
        }
        if !check_all_wf(&round_constants) {
            return Err(Error::ParameterError);
        }
        proof {
            lemma_square_vals(mds_inverse@, width as nat);
            assert(crate::algebra::is_square_vals(mat_vals(mds_inverse@), width as nat));
        }
        let tag = domain_tag(hash_type, arity);
        Ok(PoseidonConstants {
            arity,
            strength,
            hash_type,
            mds_matrix,
            mds_inverse,
            round_constants,
            domain_tag: tag,
            full_rounds: full,
            half_full_rounds: full / 2,
            partial_rounds: partial,
        })
    }
}

/// Whether an element is canonical.
pub fn is_canonical(s: &Scalar) -> (r: bool)
    ensures
        r == s.wf(),
{
    Scalar::from_bytes(s.to_bytes()).is_some()
}

/// Whether every element is canonical.
pub fn check_all_wf(v: &Vec<Scalar>) -> (r: bool)
    ensures
        r == all_wf(v@),
{
    let mut i: usize = 0;
    while i < v.len()
        invariant
            i <= v@.len(),
            all_wf(v@.take(i as int)),
        decreases v@.len() - i,
    {
        if !is_canonical(&v[i]) {
            return false;
        }
        assert(v@.take(i as int + 1) =~= v@.take(i as int).push(v@[i as int]));
        i = i + 1;
    }
    assert(v@.take(i as int) =~= v@);
    true
}

/// Whether `m` is an `n` by `n` matrix of canonical elements.
pub fn check_square(m: &Matrix, n: usize) -> (r: bool)
    ensures
        r == is_square(m@, n as nat),
{
    if m.len() != n {
        return false;
    }
    let mut i: usize = 0;
    while i < n
        invariant
            i <= n,
            m@.len() == n,
            forall|k: int| 0 <= k < i ==> (#[trigger] m@[k])@.len() == n && all_wf(m@[k]@),
        decreases n - i,
    {
        if m[i].len() != n || !check_all_wf(&m[i]) {
            return false;
        }
        i = i + 1;
    }
    true
}

} // verus!
