//! Laws relating the operations of the permutation engine.

use crate::constants::PoseidonConstants;
use crate::field::{le_value, Scalar};
use crate::codec::{encode_spec, lemma_encode_injective, lemma_encode_valid, valid_encoding};
use crate::matrix::{mat_vals, vals};
use crate::params::{spec_domain_tag, HashType, MAX_ARITY};
use vstd::arithmetic::power2::{lemma_pow2_strictly_increases, pow2};
use crate::poseidon::{
    absorb_spec, digest, full_round_spec, initial_elements, loaded_elements, partial_round_spec,
    permutation, rounds, Poseidon,
};
use vstd::prelude::*;

verus! {

/// The state view `(elements, pos)` after absorbing `es` in order, or `None`
/// if some absorb found the buffer full.
pub open spec fn absorb_all(s: Seq<nat>, pos: nat, es: Seq<nat>) -> Option<(Seq<nat>, nat)>
    decreases es.len(),
{
    if es.len() == 0 {
        Some((s, pos))
    } else {
        match absorb_all(s, pos, es.drop_last()) {
            None => None,
            Some((s2, p2)) => absorb_spec(s2, p2, es.last()),
        }
    }
}

/// The initial elements of `c` with the first `k` entries of `es` absorbed.
pub open spec fn partly_loaded(c: PoseidonConstants, es: Seq<nat>, k: nat) -> Seq<nat> {
    Seq::new(
        c.width(),
        |i: int|
            if i == 0 {
                c.domain_tag.val()
            } else if i <= k {
                es[i - 1]
            } else {
                0
            },
    )
}

/// Two byte strings of one length that denote the same number are equal.
pub proof fn lemma_le_value_injective(a: Seq<u8>, b: Seq<u8>)
    requires
        a.len() == b.len(),
        le_value(a) == le_value(b),
    ensures
        a == b,
    decreases a.len(),
{
    if a.len() > 0 {
        let ra = le_value(a.drop_first());
        let rb = le_value(b.drop_first());
        let x = a[0] as int;
        let y = b[0] as int;
        assert(x + 256 * ra == y + 256 * rb);
        assert(x == y && ra == rb) by (nonlinear_arith)
            requires
                x + 256 * ra == y + 256 * rb,
                0 <= x < 256,
                0 <= y < 256,
                ra >= 0,
                rb >= 0,
        ;
        lemma_le_value_injective(a.drop_first(), b.drop_first());
        assert(a =~= seq![a[0]] + a.drop_first());
        assert(b =~= seq![b[0]] + b.drop_first());
    }
}

/// Elements with the same value are the same element.
pub proof fn lemma_scalar_val_injective(a: Scalar, b: Scalar)
    requires
        a.val() == b.val(),
    ensures
        a == b,
{
    lemma_le_value_injective(a.repr@, b.repr@);
    assert(a.repr@ == b.repr@);
    assert(a.repr =~= b.repr);
}

/// Determinism: two states over the same constants that hold the same
/// elements hash to the same digest, and two digests of equal value are the
/// same field element.
pub proof fn lemma_determinism(p: Poseidon, q: Poseidon, dp: Scalar, dq: Scalar)
    requires
        p.constants() == q.constants(),
        p.state() == q.state(),
        dp.val() == digest(p.constants(), p.state()),
        dq.val() == digest(q.constants(), q.state()),
    ensures
        dp == dq,
{
    lemma_scalar_val_injective(dp, dq);
}

/// Reset equivalence: a reset state and a fresh state over the same constants
/// absorb any input sequence to the same view, and so hash it alike.
pub proof fn lemma_reset_equivalence(reset: Poseidon, fresh: Poseidon, es: Seq<nat>)
    requires
        reset.constants() == fresh.constants(),
        reset.state() == initial_elements(reset.constants()),
        reset.pos() == 1,
        reset.offset() == 0,
        fresh.state() == initial_elements(fresh.constants()),
        fresh.pos() == 1,
        fresh.offset() == 0,
    ensures
        absorb_all(reset.state(), reset.pos(), es) == absorb_all(fresh.state(), fresh.pos(), es),
        absorb_all(reset.state(), reset.pos(), es).is_some() ==> digest(
            reset.constants(),
            absorb_all(reset.state(), reset.pos(), es).unwrap().0,
        ) == digest(fresh.constants(), absorb_all(fresh.state(), fresh.pos(), es).unwrap().0),
{
}

/// From the initial state, the first `k <= arity` absorbs all succeed.
proof fn lemma_absorb_prefix(c: PoseidonConstants, es: Seq<nat>, k: nat)
    requires
        k <= es.len(),
        es.len() == c.arity,
    ensures
        absorb_all(initial_elements(c), 1, es.take(k as int)) == Some(
            (partly_loaded(c, es, k), k + 1),
        ),
    decreases k,
{
    if k == 0 {
        assert(es.take(0) =~= Seq::<nat>::empty());
        assert(initial_elements(c) =~= partly_loaded(c, es, 0));
    } else {
        lemma_absorb_prefix(c, es, (k - 1) as nat);
        assert(es.take(k as int).drop_last() =~= es.take(k - 1));
        assert(partly_loaded(c, es, (k - 1) as nat).update(k as int, es[k - 1]) =~= partly_loaded(
            c,
            es,
            k,
        ));
    }
}

/// Arity boundary: from a fresh state, `arity` absorbs succeed, leaving the
/// domain tag followed by the inputs, and the next absorb finds the buffer full.
pub proof fn lemma_arity_boundary(c: PoseidonConstants, es: Seq<nat>, extra: nat)
    requires
        es.len() == c.arity,
    ensures
        absorb_all(initial_elements(c), 1, es) == Some((loaded_elements(c, es), c.width())),
        absorb_spec(loaded_elements(c, es), c.width(), extra) is None,
{
    lemma_absorb_prefix(c, es, es.len());
    assert(es.take(es.len() as int) =~= es);
    assert(partly_loaded(c, es, es.len()) =~= loaded_elements(c, es));
}

/// Two built models that agree on arity, strength, policy, dense matrix and
/// round constants run every round alike.
pub proof fn lemma_rounds_congruent(
    c: PoseidonConstants,
    d: PoseidonConstants,
    s: Seq<nat>,
    k: nat,
)
    requires
        c.wf(),
        d.wf(),
        c.arity == d.arity,
        c.strength == d.strength,
        c.hash_type == d.hash_type,
        c.round_constants@ == d.round_constants@,
        forall|i: int| 0 <= i < c.mds_matrix@.len() ==> (#[trigger] c.mds_matrix@[i])@ == d.mds_matrix@[i]@,
    ensures
        rounds(c, s, k) == rounds(d, s, k),
        initial_elements(c) == initial_elements(d),
    decreases k,
{
    assert(mat_vals(c.mds_matrix@) =~= mat_vals(d.mds_matrix@));
    assert(vals(c.round_constants@) == vals(d.round_constants@));
    assert(initial_elements(c) =~= initial_elements(d));
    if k > 0 {
        lemma_rounds_congruent(c, d, s, (k - 1) as nat);
        let prev = rounds(c, s, (k - 1) as nat);
        let offset = ((k - 1) * c.width()) as nat;
        assert(full_round_spec(c, prev, offset) == full_round_spec(d, prev, offset));
        assert(partial_round_spec(c, prev, offset) == partial_round_spec(d, prev, offset));
    }
}

/// Encoding round trip: the encoding of a built model is accepted by
/// `decode`, and a model decoded from it (which encodes to the same bytes)
/// starts from the same state and permutes every state to the same result,
/// so it hashes every preimage to the same digest.
pub proof fn lemma_codec_round_trip(c: PoseidonConstants, d: PoseidonConstants, s: Seq<nat>)
    requires
        c.wf(),
        d.wf(),
        encode_spec(d) == encode_spec(c),
    ensures
        valid_encoding(encode_spec(c)),
        initial_elements(d) == initial_elements(c),
        permutation(d, s) == permutation(c, s),
        digest(d, s) == digest(c, s),
{
    lemma_encode_valid(c);
    lemma_encode_injective(c, d);
    lemma_rounds_congruent(c, d, s, c.total_rounds());
}

/// `2^a` is even for `a >= 1`.
proof fn lemma_pow2_even(a: nat)
    requires
        a >= 1,
    ensures
        pow2(a) % 2 == 0,
        pow2(a) >= 2,
{
    vstd::arithmetic::power2::lemma_pow2_unfold(a);
    vstd::arithmetic::power2::lemma_pow2_pos((a - 1) as nat);
}

/// Domain separation of the tags: Merkle-tree tags of distinct arities
/// differ, and a Merkle-tree tag (odd) differs from the tag of every other
/// policy (even) at any arity. Distinct tags give distinct initial states.
pub proof fn lemma_merkle_tags_separate(a1: nat, a2: nat, other: HashType)
    requires
        1 <= a1 <= MAX_ARITY,
        1 <= a2 <= MAX_ARITY,
        other != HashType::MerkleTree,
    ensures
        a1 != a2 ==> spec_domain_tag(HashType::MerkleTree, a1) != spec_domain_tag(HashType::MerkleTree, a2),
        spec_domain_tag(HashType::MerkleTree, a1) != spec_domain_tag(other, a2),
{
    if a1 < a2 {
        lemma_pow2_strictly_increases(a1, a2);
    } else if a2 < a1 {
        lemma_pow2_strictly_increases(a2, a1);
    }
    lemma_pow2_even(a1);
    lemma_pow2_even(a2);
    let t = spec_domain_tag(HashType::MerkleTree, a1) as int;
    assert(t % 2 == 1) by (nonlinear_arith)
        requires
            t == pow2(a1) - 1,
            pow2(a1) % 2 == 0,
            pow2(a1) >= 2,
    ;
    let u = spec_domain_tag(other, a2) as int;
    match other {
        HashType::ConstantLength(len) => {
            assert(u % 2 == 0) by (nonlinear_arith)
                requires
                    u == len as int * 0x1_0000_0000_0000_0000,
            ;
        },
        HashType::Custom(id) => {
            assert(u % 2 == 0) by (nonlinear_arith)
                requires
                    u == id as int * 0x100_0000_0000,
            ;
        },
        _ => {},
    }
}

} // verus!
