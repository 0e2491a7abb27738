use ff::{Field, PrimeField};
use pasta_curves::Fq;
use poseidon_perm::constants::PoseidonConstants;
use poseidon_perm::field::Scalar;
use poseidon_perm::params::{round_numbers, Error, HashType, Strength};
use poseidon_perm::poseidon::Poseidon;

fn to_scalar(f: Fq) -> Scalar {
    Scalar { repr: f.to_repr() }
}

fn to_fq(s: &Scalar) -> Fq {
    Fq::from_repr(s.repr).unwrap()
}

/// A Cauchy matrix 1 / (x_i + y_j) with x_i = i, y_j = width + j: invertible.
fn test_mds(width: usize) -> Vec<Vec<Scalar>> {
    (0..width)
        .map(|i| {
            (0..width)
                .map(|j| {
                    let d = Fq::from(i as u64) + Fq::from((width + j) as u64);
                    to_scalar(d.invert().unwrap())
                })
                .collect()
        })
        .collect()
}

fn test_round_constants(arity: usize, strength: Strength) -> Vec<Scalar> {
    let (full, partial) = round_numbers(arity, strength).unwrap();
    let n = (full + partial) * (arity + 1);
    (0..n)
        .map(|i| {
            let x = Fq::from(i as u64 + 3);
            to_scalar(x.square() * x + Fq::from(0x1234_5678_9abc_def0u64))
        })
        .collect()
}

fn test_constants(arity: usize, strength: Strength, hash_type: HashType) -> PoseidonConstants {
    PoseidonConstants::from_parts(
        arity,
        strength,
        hash_type,
        test_round_constants(arity, strength),
        test_mds(arity + 1),
    )
    .unwrap()
}

/// The permutation written directly against `Fq`, as an independent oracle.
fn oracle_digest(c: &PoseidonConstants, preimage: &[Fq]) -> Fq {
    let width = c.arity + 1;
    let mds: Vec<Vec<Fq>> = c.mds_matrix.iter().map(|r| r.iter().map(to_fq).collect()).collect();
    let rc: Vec<Fq> = c.round_constants.iter().map(to_fq).collect();
    let mut s: Vec<Fq> = vec![to_fq(&c.domain_tag)];
    s.extend_from_slice(preimage);
    let total = c.full_rounds + c.partial_rounds;
    for k in 0..total {
        for i in 0..width {
            s[i] += rc[k * width + i];
        }
        let full = k < c.half_full_rounds || k >= c.half_full_rounds + c.partial_rounds;
        for i in 0..width {
            if full || i == 0 {
                s[i] = s[i].pow_vartime([5u64]);
            }
        }
        s = (0..width)
            .map(|j| (0..width).fold(Fq::ZERO, |acc, m| acc + mds[j][m] * s[m]))
            .collect();
    }
    s[1]
}

#[test]
fn reset() {
    let c = test_constants(2, Strength::Standard, HashType::MerkleTree);
    let preimage = vec![Scalar::one(); 2];
    let mut h = Poseidon::new(&c, &preimage).unwrap();
    h.hash();
    h.reset();
    assert_eq!(Poseidon::new_empty(&c), h);
}

#[test]
fn hash_det() {
    let c = test_constants(2, Strength::Standard, HashType::MerkleTree);
    let mut preimage = vec![Scalar::zero(); 2];
    preimage[0] = Scalar::one();
    let mut h = Poseidon::new(&c, &preimage).unwrap();
    let mut h2 = h.clone();
    let result = h.hash();
    assert_eq!(result, h2.hash());
}

#[test]
fn serde_roundtrip() {
    let c = test_constants(2, Strength::Standard, HashType::MerkleTree);
    let bytes = c.encode();
    assert_eq!(c, PoseidonConstants::decode(&bytes).unwrap());
    let c4 = test_constants(4, Strength::Strengthened, HashType::Custom(7));
    assert_eq!(c4, PoseidonConstants::decode(&c4.encode()).unwrap());
}

#[test]
fn serde_hash_pallas() {
    let constants = test_constants(2, Strength::Standard, HashType::MerkleTree);
    let constants2 = PoseidonConstants::decode(&constants.encode()).unwrap();
    let preimage = vec![Scalar::one(); 2];
    let mut h1 = Poseidon::new(&constants, &preimage).unwrap();
    let mut h2 = Poseidon::new(&constants2, &preimage).unwrap();
    assert_eq!(h1.hash(), h2.hash());
    h1.set_preimage(&preimage).unwrap();
    let mut h3 = Poseidon::new(&constants2, &preimage).unwrap();
    assert_eq!(h1.hash(), h3.hash());
}

#[test]
fn digest_matches_direct_computation() {
    for arity in [1usize, 2, 4, 8] {
        for strength in [Strength::Standard, Strength::Strengthened] {
            let c = test_constants(arity, strength, HashType::MerkleTree);
            let pre: Vec<Fq> = (0..arity).map(|i| Fq::from(i as u64 * 11 + 5)).collect();
            let preimage: Vec<Scalar> = pre.iter().map(|f| to_scalar(*f)).collect();
            let mut h = Poseidon::new(&c, &preimage).unwrap();
            assert_eq!(to_fq(&h.hash()), oracle_digest(&c, &pre));
        }
    }
}

#[test]
fn reset_then_absorb_equals_fresh() {
    let c = test_constants(4, Strength::Standard, HashType::ConstantLength(4));
    let mut used = Poseidon::new(&c, &vec![Scalar::from_u64(9); 4]).unwrap();
    used.hash();
    used.reset();
    let mut fresh = Poseidon::new_empty(&c);
    for i in 0..4u64 {
        assert_eq!(used.input(Scalar::from_u64(i)), fresh.input(Scalar::from_u64(i)));
    }
    assert_eq!(used.hash(), fresh.hash());
}

#[test]
fn absorb_stops_at_arity() {
    let c = test_constants(4, Strength::Standard, HashType::MerkleTree);
    let mut p = Poseidon::new_empty(&c);
    for i in 0..4usize {
        assert_eq!(p.input(Scalar::from_u64(i as u64)), Ok(i + 1));
    }
    assert_eq!(p.input(Scalar::one()), Err(Error::BufferFull));
    assert_eq!(p.elements[4], Scalar::from_u64(3));
}

#[test]
fn absorbed_inputs_equal_preimage() {
    let c = test_constants(2, Strength::Standard, HashType::MerkleTree);
    let mut p = Poseidon::new_empty(&c);
    p.input(Scalar::from_u64(0)).unwrap();
    p.input(Scalar::from_u64(1)).unwrap();
    let mut q = Poseidon::new(&c, &vec![Scalar::from_u64(0), Scalar::from_u64(1)]).unwrap();
    assert_eq!(p.hash(), q.hash());
}

#[test]
fn preimage_of_wrong_length_is_refused() {
    let c = test_constants(2, Strength::Standard, HashType::MerkleTree);
    assert!(matches!(Poseidon::new(&c, &vec![Scalar::one(); 3]), Err(Error::ParameterMismatch)));
    let mut p = Poseidon::new_empty(&c);
    assert_eq!(p.set_preimage(&vec![Scalar::one(); 1]), Err(Error::ParameterMismatch));
    assert_eq!(p, Poseidon::new_empty(&c));
}

#[test]
fn domain_separation() {
    let pre2 = vec![Scalar::one(), Scalar::zero()];
    let configs = [
        (Strength::Standard, HashType::MerkleTree),
        (Strength::Strengthened, HashType::MerkleTree),
        (Strength::Standard, HashType::ConstantLength(2)),
        (Strength::Standard, HashType::VariableLength),
        (Strength::Standard, HashType::Encryption),
        (Strength::Standard, HashType::Custom(1)),
    ];
    let mut digests = Vec::new();
    for (strength, ht) in configs {
        let c = test_constants(2, strength, ht);
        digests.push(Poseidon::new(&c, &pre2).unwrap().hash());
    }
    let c1 = test_constants(1, Strength::Standard, HashType::MerkleTree);
    digests.push(Poseidon::new(&c1, &vec![Scalar::one()]).unwrap().hash());
    for i in 0..digests.len() {
        for j in i + 1..digests.len() {
            assert_ne!(digests[i], digests[j]);
        }
    }
}

#[test]
fn domain_tags() {
    let tag = |ht, arity| test_constants(arity, Strength::Standard, ht).domain_tag;
    assert_eq!(tag(HashType::MerkleTree, 2), Scalar::from_u64(3));
    assert_eq!(tag(HashType::MerkleTree, 8), Scalar::from_u64(255));
    assert_eq!(tag(HashType::Encryption, 2), Scalar::from_u64(1 << 32));
    assert_eq!(tag(HashType::VariableLength, 2), Scalar::from_u128(1u128 << 64));
    assert_eq!(tag(HashType::ConstantLength(3), 2), Scalar::from_u128(3u128 << 64));
    assert_eq!(tag(HashType::Custom(5), 2), Scalar::from_u128(5u128 << 40));
}

#[test]
fn round_schedule() {
    assert_eq!(round_numbers(2, Strength::Standard), Ok((8, 55)));
    assert_eq!(round_numbers(4, Strength::Standard), Ok((8, 56)));
    assert_eq!(round_numbers(8, Strength::Standard), Ok((8, 57)));
    assert_eq!(round_numbers(2, Strength::Strengthened), Ok((8, 69)));
    assert_eq!(round_numbers(8, Strength::Strengthened), Ok((8, 72)));
    assert_eq!(round_numbers(36, Strength::Strengthened), Ok((8, 75)));
    assert_eq!(round_numbers(3, Strength::Standard), Err(Error::ParameterError));
    assert_eq!(round_numbers(0, Strength::Standard), Err(Error::ParameterError));
}

#[test]
fn from_parts_rejects_bad_sizes() {
    let rc = test_round_constants(2, Strength::Standard);
    let r = PoseidonConstants::from_parts(3, Strength::Standard, HashType::MerkleTree, rc.clone(), test_mds(4));
    assert_eq!(r, Err(Error::ParameterError));
    let r = PoseidonConstants::from_parts(2, Strength::Standard, HashType::MerkleTree, rc.clone(), test_mds(4));
    assert_eq!(r, Err(Error::ParameterError));
    let mut short = rc.clone();
    short.pop();
    let r = PoseidonConstants::from_parts(2, Strength::Standard, HashType::MerkleTree, short, test_mds(3));
    assert_eq!(r, Err(Error::ParameterError));
    let mut bad = rc;
    bad[0] = Scalar { repr: [0xff; 32] };
    let r = PoseidonConstants::from_parts(2, Strength::Standard, HashType::MerkleTree, bad, test_mds(3));
    assert_eq!(r, Err(Error::ParameterError));
}

#[test]
fn decode_rejects_malformed_bytes() {
    let c = test_constants(2, Strength::Standard, HashType::Custom(9));
    let bytes = c.encode();
    assert_eq!(bytes.len(), 18 + 32 * (2 * 9 + 63 * 3));
    let mut truncated = bytes.clone();
    truncated.pop();
    assert_eq!(PoseidonConstants::decode(&truncated), Err(Error::SerializationError));
    let mut bad_strength = bytes.clone();
    bad_strength[8] = 2;
    assert_eq!(PoseidonConstants::decode(&bad_strength), Err(Error::SerializationError));
    let mut bad_policy = bytes.clone();
    bad_policy[9] = 5;
    assert_eq!(PoseidonConstants::decode(&bad_policy), Err(Error::SerializationError));
    let mut bad_arity = bytes.clone();
    bad_arity[0] = 3;
    assert_eq!(PoseidonConstants::decode(&bad_arity), Err(Error::SerializationError));
    let mut out_of_range = bytes;
    for b in &mut out_of_range[18..50] {
        *b = 0xff;
    }
    assert_eq!(PoseidonConstants::decode(&out_of_range), Err(Error::SerializationError));
    assert_eq!(PoseidonConstants::decode(&vec![]), Err(Error::SerializationError));
}

#[test]
fn decode_rejects_a_wrong_inverse() {
    let c = test_constants(2, Strength::Standard, HashType::MerkleTree);
    let mut bytes = c.encode();
    // The first element of the stored inverse follows the nine of the dense matrix.
    let at = 18 + 32 * 9;
    bytes[at] ^= 1;
    assert_eq!(PoseidonConstants::decode(&bytes), Err(Error::SerializationError));
}

#[test]
fn from_parts_rejects_a_singular_matrix() {
    let rc = test_round_constants(2, Strength::Standard);
    let zero = vec![vec![Scalar::zero(); 3]; 3];
    let r = PoseidonConstants::from_parts(2, Strength::Standard, HashType::MerkleTree, rc.clone(), zero);
    assert_eq!(r, Err(Error::ParameterError));
    let mut rank_two = test_mds(3);
    rank_two[2] = rank_two[1].clone();
    let r = PoseidonConstants::from_parts(2, Strength::Standard, HashType::MerkleTree, rc, rank_two);
    assert_eq!(r, Err(Error::ParameterError));
}

#[test]
fn stored_inverse_inverts_the_dense_matrix() {
    let c = test_constants(4, Strength::Standard, HashType::MerkleTree);
    for i in 0..5 {
        for j in 0..5 {
            let mut acc = Fq::ZERO;
            for k in 0..5 {
                acc += to_fq(&c.mds_inverse[i][k]) * to_fq(&c.mds_matrix[k][j]);
            }
            assert_eq!(acc, if i == j { Fq::ONE } else { Fq::ZERO });
        }
    }
}
