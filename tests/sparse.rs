use ff::{Field, PrimeField};
use pasta_curves::Fq;
use poseidon_perm::constants::PoseidonConstants;
use poseidon_perm::field::Scalar;
use poseidon_perm::params::{round_numbers, Error, HashType, Strength};
use poseidon_perm::poseidon::Poseidon;
use poseidon_perm::sparse::{dense_partial_phase, factor_to_sparse_matrices};

fn to_scalar(f: Fq) -> Scalar {
    Scalar { repr: f.to_repr() }
}

fn cauchy(width: usize) -> Vec<Vec<Scalar>> {
    (0..width)
        .map(|i| {
            (0..width)
                .map(|j| to_scalar((Fq::from(i as u64) + Fq::from((width + j) as u64)).invert().unwrap()))
                .collect()
        })
        .collect()
}

fn constants(arity: usize) -> PoseidonConstants {
    let (full, partial) = round_numbers(arity, Strength::Standard).unwrap();
    let rc = (0..(full + partial) * (arity + 1)).map(|i| Scalar::from_u64(i as u64 * 31 + 7)).collect();
    PoseidonConstants::from_parts(arity, Strength::Standard, HashType::MerkleTree, rc, cauchy(arity + 1)).unwrap()
}

struct XorShift(u64);

impl XorShift {
    fn next(&mut self) -> u64 {
        self.0 ^= self.0 << 13;
        self.0 ^= self.0 >> 7;
        self.0 ^= self.0 << 17;
        self.0
    }

    fn scalar(&mut self) -> Scalar {
        let words = [self.next(), self.next(), self.next(), self.next()];
        let mut f = Fq::ZERO;
        for w in words {
            f = f * Fq::from(1u64 << 32) * Fq::from(1u64 << 32) + Fq::from(w);
        }
        to_scalar(f)
    }
}

fn check_equivalence(arity: usize, states: usize, seed: u64) {
    let c = constants(arity);
    let d = c.optimize().unwrap();
    assert_eq!(d.sparse_matrices.len(), c.partial_rounds);
    for s in &d.sparse_matrices {
        assert_eq!(s.row.len(), arity + 1);
        assert_eq!(s.column.len(), arity + 1);
    }
    let mut rng = XorShift(seed);
    for _ in 0..states {
        let x: Vec<Scalar> = (0..arity + 1).map(|_| rng.scalar()).collect();
        let cs: Vec<Scalar> = (0..c.partial_rounds).map(|_| rng.scalar()).collect();
        let dense = dense_partial_phase(&c.mds_matrix, &cs, &x);
        let sparse = d.partial_phase(&cs, &x);
        assert_eq!(dense, sparse);
    }
}

#[test]
fn optimizer_equivalence_arity_1() {
    check_equivalence(1, 1000, 0x9e37_79b9_7f4a_7c15);
}

#[test]
fn optimizer_equivalence_arity_2() {
    check_equivalence(2, 1000, 0x1234_5678_9abc_def1);
}

#[test]
fn optimizer_equivalence_arity_4() {
    check_equivalence(4, 300, 0x0bad_cafe_f00d_beef);
}

#[test]
fn optimizer_equivalence_arity_8() {
    check_equivalence(8, 60, 0x5555_aaaa_3333_cccc);
}

#[test]
fn sparse_matrix_differs_from_identity_only_in_first_row_and_column() {
    let c = constants(2);
    let d = c.optimize().unwrap();
    let x = vec![Scalar::from_u64(0), Scalar::from_u64(5), Scalar::from_u64(9)];
    let y = d.sparse_matrices[0].apply(&x);
    assert_eq!(y[1], Scalar::from_u64(5));
    assert_eq!(y[2], Scalar::from_u64(9));
}

/// Invertible, but its lower-right block is singular.
fn swap_first_two() -> Vec<Vec<Scalar>> {
    let (o, z) = (Scalar::one(), Scalar::zero());
    vec![vec![z, o, z], vec![o, z, z], vec![z, z, o]]
}

#[test]
fn singular_block_is_reported() {
    let ones = vec![vec![Scalar::one(); 3]; 3];
    assert_eq!(factor_to_sparse_matrices(&ones, 3, 4), Err(Error::SingularMatrix));
    let rc = (0..63 * 3).map(|i| Scalar::from_u64(i as u64)).collect();
    let c = PoseidonConstants::from_parts(2, Strength::Standard, HashType::MerkleTree, rc, swap_first_two()).unwrap();
    assert_eq!(c.optimize(), Err(Error::SingularMatrix));
}

#[test]
fn zero_rounds_leave_only_the_dense_matrix() {
    let m = cauchy(3);
    let d = factor_to_sparse_matrices(&m, 3, 0).unwrap();
    assert_eq!(d.pre_sparse_matrix, m);
    assert!(d.sparse_matrices.is_empty());
}

#[test]
fn optimized_permutation_matches_dense_permutation() {
    for arity in [1usize, 2, 4, 8] {
        for strength in [Strength::Standard, Strength::Strengthened] {
            let (full, partial) = round_numbers(arity, strength).unwrap();
            let rc = (0..(full + partial) * (arity + 1))
                .map(|i| to_scalar(Fq::from(i as u64 + 1).square() + Fq::from(17u64)))
                .collect();
            let c = PoseidonConstants::from_parts(arity, strength, HashType::ConstantLength(arity as u64), rc, cauchy(arity + 1))
                .unwrap();
            let plan = c.compress().unwrap();
            assert_eq!(plan.folded_constants.len(), partial);
            assert_eq!(plan.carry.len(), arity + 1);
            let preimage: Vec<Scalar> = (0..arity).map(|i| Scalar::from_u64(i as u64 * 3 + 1)).collect();
            let mut dense = Poseidon::new(&c, &preimage).unwrap();
            let mut optimized = dense.clone();
            assert_eq!(dense.hash(), optimized.hash_optimized(&plan));
            assert_eq!(dense, optimized);
        }
    }
}

#[test]
fn compress_reports_singular_matrix() {
    let rc = (0..63 * 3).map(|i| Scalar::from_u64(i as u64)).collect();
    let c = PoseidonConstants::from_parts(2, Strength::Standard, HashType::MerkleTree, rc, swap_first_two()).unwrap();
    assert!(matches!(c.compress(), Err(Error::SingularMatrix)));
}
