use ff::{Field, PrimeField};
use pasta_curves::Fq;
use poseidon_perm::codec::{ArchivedCType, Raw};
use poseidon_perm::field::Scalar;
use poseidon_perm::params::{arity_tag, domain_tag, Error, HashType};

#[test]
fn addition_wraps_at_the_modulus() {
    let minus_one = Scalar { repr: (-Fq::ONE).to_repr() };
    assert_eq!(minus_one.add(&Scalar::from_u64(2)), Scalar::one());
    assert_eq!(Scalar::from_u64(2).add(&Scalar::from_u64(3)), Scalar::from_u64(5));
}

#[test]
fn multiplication() {
    assert_eq!(Scalar::from_u64(6).mul(&Scalar::from_u64(7)), Scalar::from_u64(42));
    let minus_one = Scalar { repr: (-Fq::ONE).to_repr() };
    assert_eq!(minus_one.mul(&minus_one), Scalar::one());
    let big = Scalar::from_u64(u64::MAX);
    assert_eq!(big.mul(&big), Scalar::from_u128((u64::MAX as u128) * (u64::MAX as u128)));
}

#[test]
fn canonical_bytes_round_trip() {
    let s = Scalar::from_u128(0x0102_0304_0506_0708_090a_0b0c_0d0e_0f10);
    let b = s.to_bytes();
    assert_eq!(b[0], 0x10);
    assert_eq!(b[15], 0x01);
    assert_eq!(Scalar::from_bytes(b), Some(s));
    assert_eq!(Scalar::from_bytes([0xff; 32]), None);
    assert!(s.equals(&Scalar::from_bytes(b).unwrap()));
    assert!(!s.equals(&Scalar::one()));
}

#[test]
fn raw_conversion() {
    let s = Scalar::from_u64(77);
    assert_eq!(Raw::deserialize_with(Raw::serialize_with(&s)), Ok(s));
    assert_eq!(Raw::deserialize_with([0xff; 32]), Err(Error::SerializationError));
    let mut modulus = (-Fq::ONE).to_repr();
    modulus[0] += 1;
    assert_eq!(Raw::deserialize_with(modulus), Err(Error::SerializationError));
}

#[test]
fn hash_type_conversion() {
    for h in [
        HashType::MerkleTree,
        HashType::ConstantLength(12),
        HashType::VariableLength,
        HashType::Encryption,
        HashType::Custom(u64::MAX),
    ] {
        let b = ArchivedCType::serialize_with(h);
        assert_eq!(b.len(), 9);
        assert_eq!(ArchivedCType::deserialize_with(&b), Ok(h));
    }
    assert_eq!(ArchivedCType::serialize_with(HashType::Custom(258)), vec![4, 2, 1, 0, 0, 0, 0, 0, 0]);
    assert_eq!(ArchivedCType::deserialize_with(&[0, 1, 0, 0, 0, 0, 0, 0, 0]), Err(Error::SerializationError));
    assert_eq!(ArchivedCType::deserialize_with(&[4, 1, 0, 0, 0, 0, 0, 0]), Err(Error::SerializationError));
}

#[test]
fn arity_tags() {
    assert_eq!(arity_tag(1), Scalar::from_u64(1));
    assert_eq!(arity_tag(2), Scalar::from_u64(3));
    assert_eq!(arity_tag(36), Scalar::from_u64((1u64 << 36) - 1));
    assert_eq!(arity_tag(63), Scalar::from_u64((1u64 << 63) - 1));
    assert_eq!(domain_tag(HashType::MerkleTree, 4), Scalar::from_u64(15));
    assert_eq!(domain_tag(HashType::Custom(u64::MAX), 2), Scalar::from_u128((u64::MAX as u128) << 40));
}

#[test]
fn subtraction_and_inverse() {
    assert_eq!(Scalar::from_u64(10).sub(&Scalar::from_u64(3)), Scalar::from_u64(7));
    let minus_one = Scalar { repr: (-Fq::ONE).to_repr() };
    assert_eq!(Scalar::zero().sub(&Scalar::one()), minus_one);
    let inv = Scalar::from_u64(7).invert().unwrap();
    assert_ne!(inv, Scalar::from_u64(7));
    assert_eq!(inv.mul(&Scalar::from_u64(7)), Scalar::one());
    assert_eq!(Scalar::zero().invert(), None);
}
