//! Arities, strengths and hash-domain policies, with the round schedule and
//! the domain tag that each configuration fixes.

use crate::field::Scalar;
use vstd::prelude::*;

verus! {

/// Full rounds of every supported configuration.
pub const FULL_ROUNDS: usize = 8;

/// The largest supported arity.
pub const MAX_ARITY: usize = 36;

/// Failures of the library's operations.
#[derive(Clone, Copy, Debug, PartialEq, Eq)]
pub enum Error {
    /// The (arity, strength) pair is not in the supported table, or the
    /// supplied constants do not fit it.
    ParameterError,
    /// The dense mixing matrix has no inverse.
    SingularMatrix,
    /// More inputs than the arity were absorbed.
    BufferFull,
    /// A state was paired with constants of another configuration.
    ParameterMismatch,
    /// An encoded constants model is malformed or truncated.
    SerializationError,
}

/// Security-level selector.
#[derive(Clone, Copy, Debug, PartialEq, Eq)]
pub enum Strength {
    Standard,
    /// More partial rounds, for extra margin at the same arity.
    Strengthened,
}

/// How the permutation is used; decides the domain tag.
#[derive(Clone, Copy, Debug, PartialEq, Eq)]
pub enum HashType {
    /// Merkle-tree compression of `arity` children.
    MerkleTree,
    /// Hashing of a fixed number of elements.
    ConstantLength(u64),
    /// Hashing of a variable number of elements.
    VariableLength,
    /// Mixing inside an encryption scheme.
    Encryption,
    /// A caller-chosen numeric tag.
    Custom(u64),
}

/// The partial rounds of the standard strength for `arity`, if it is supported.
pub open spec fn spec_base_partial_rounds(arity: nat) -> Option<nat> {
    if arity == 1 || arity == 2 {
        Some(55nat)
    } else if arity == 4 {
        Some(56nat)
    } else if arity == 8 || arity == 11 {
        Some(57nat)
    } else if arity == 16 || arity == 24 {
        Some(59nat)
    } else if arity == 36 {
        Some(60nat)
    } else {
        None
    }
}

/// Whether `arity` has a row in the round table.
pub open spec fn is_supported_arity(arity: nat) -> bool {
    spec_base_partial_rounds(arity).is_some()
}

/// A quarter more, rounded up.
pub open spec fn strengthen(p: nat) -> nat {
    (5 * p + 3) / 4
}

/// The partial rounds of a supported configuration.
pub open spec fn spec_partial_rounds(arity: nat, strength: Strength) -> nat {
    let p = spec_base_partial_rounds(arity).unwrap();
    match strength {
        Strength::Standard => p,
        Strength::Strengthened => strengthen(p),
    }
}

/// The arity tag `2^arity - 1`.
pub open spec fn spec_arity_tag(arity: nat) -> nat {
    (vstd::arithmetic::power2::pow2(arity) - 1) as nat
}

/// The domain tag of a policy at an arity.
pub open spec fn spec_domain_tag(hash_type: HashType, arity: nat) -> nat {
    match hash_type {
        HashType::MerkleTree => spec_arity_tag(arity),
        HashType::ConstantLength(len) => len as nat * 0x1_0000_0000_0000_0000nat,
        HashType::VariableLength => 0x1_0000_0000_0000_0000nat,
        HashType::Encryption => 0x1_0000_0000nat,
        HashType::Custom(id) => id as nat * 0x100_0000_0000nat,
    }
}

/// The partial rounds of the standard strength for `arity`, or `None` where
/// the table has no row for it.
pub fn base_partial_rounds(arity: usize) -> (r: Option<usize>)
    ensures
        r.is_some() == spec_base_partial_rounds(arity as nat).is_some(),
        r.is_some() ==> r.unwrap() as nat == spec_base_partial_rounds(arity as nat).unwrap(),
{
    if arity == 1 || arity == 2 {
        Some(55)
    } else if arity == 4 {
        Some(56)
    } else if arity == 8 || arity == 11 {
        Some(57)
    } else if arity == 16 || arity == 24 {
        Some(59)
    } else if arity == 36 {
        Some(60)
    } else {
        None
    }
}

/// The round schedule `(full_rounds, partial_rounds)` of a configuration.
pub fn round_numbers(arity: usize, strength: Strength) -> (r: Result<(usize, usize), Error>)
    ensures
        r.is_ok() <==> is_supported_arity(arity as nat),
        r.is_err() ==> r == Err::<(usize, usize), Error>(Error::ParameterError),
        r.is_ok() ==> r.unwrap().0 == FULL_ROUNDS && r.unwrap().1 as nat == spec_partial_rounds(
            arity as nat,
            strength,
        ),
{
    match base_partial_rounds(arity) {
        None => Err(Error::ParameterError),
        Some(p) => {
            let partial = match strength {
                Strength::Standard => p,
                Strength::Strengthened => (5 * p + 3) / 4,
            };
            Ok((FULL_ROUNDS, partial))
        },
    }
}

/// The arity tag `2^arity - 1`, the first state element of Merkle-tree hashing.
pub fn arity_tag(arity: usize) -> (r: Scalar)
    requires
        arity < 64,
    ensures
        r.wf(),
        r.val() == spec_arity_tag(arity as nat),
{
    proof {
        vstd::arithmetic::power2::lemma_pow2_pos(arity as nat);
        vstd::arithmetic::power2::lemma_pow2_strictly_increases(arity as nat, 64);
        vstd::arithmetic::power2::lemma2_to64_rest();
        assert(vstd::arithmetic::power2::pow2(64) == 0x1_0000_0000_0000_0000nat);
    }
    let p: u64 = 1u64 << (arity as u64);
    proof {
        vstd::bits::lemma_u64_shl_is_mul(1, arity as u64);
        vstd::arithmetic::power2::lemma_pow2(arity as nat);
    }
    Scalar::from_u64(p - 1)
}

/// The domain tag that `hash_type` mixes into the initial state at `arity`.
pub fn domain_tag(hash_type: HashType, arity: usize) -> (r: Scalar)
    requires
        arity < 64,
    ensures
        r.wf(),
        r.val() == spec_domain_tag(hash_type, arity as nat),
{
    match hash_type {
        HashType::MerkleTree => arity_tag(arity),
        HashType::ConstantLength(len) => {
            assert(len as nat * 0x1_0000_0000_0000_0000nat < 0x1_0000_0000_0000_0000_0000_0000_0000_0000nat)
                by (nonlinear_arith)
                requires
                    len < 0x1_0000_0000_0000_0000nat,
            ;
            Scalar::from_u128((len as u128) * 0x1_0000_0000_0000_0000u128)
        },
        HashType::VariableLength => Scalar::from_u128(0x1_0000_0000_0000_0000u128),
        HashType::Encryption => Scalar::from_u128(0x1_0000_0000u128),
        HashType::Custom(id) => {
            assert(id as nat * 0x100_0000_0000nat < 0x1_0000_0000_0000_0000_0000_0000_0000_0000nat)
                by (nonlinear_arith)
                requires
                    id < 0x1_0000_0000_0000_0000nat,
            ;
            Scalar::from_u128((id as u128) * 0x100_0000_0000u128)
        },
    }
}

} // verus!
