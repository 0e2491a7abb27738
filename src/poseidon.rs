//! The permutation engine: a state of `width` elements run through full and
//! partial rounds against one constants model.

use crate::compress::{lemma_partial_rounds_folded, vadd, CompressedPartialRounds};
use crate::constants::PoseidonConstants;
use crate::field::{fadd, fmul, Scalar};
use crate::matrix::{all_wf, apply_matrix, mat_vals, mat_vec, vals};
use crate::params::Error;
use vstd::prelude::*;

verus! {

/// The S-box `x^5`, as four multiplications by `x` in turn.
pub open spec fn sbox(x: nat) -> nat {
    fmul(fmul(fmul(fmul(x, x), x), x), x)
}

/// Adds the `s.len()` round constants that start at `offset`, one to each element.
pub open spec fn add_round_constants_spec(s: Seq<nat>, rc: Seq<nat>, offset: nat) -> Seq<nat> {
    Seq::new(s.len(), |i: int| fadd(s[i], rc[offset + i]))
}

/// A full round: constants, the S-box on every element, then the dense matrix.
pub open spec fn full_round_spec(c: PoseidonConstants, s: Seq<nat>, offset: nat) -> Seq<nat> {
    let t = add_round_constants_spec(s, vals(c.round_constants@), offset);
    mat_vec(mat_vals(c.mds_matrix@), Seq::new(t.len(), |i: int| sbox(t[i])))
}

/// A partial round: constants, the S-box on the first element, then the dense matrix.
pub open spec fn partial_round_spec(c: PoseidonConstants, s: Seq<nat>, offset: nat) -> Seq<nat> {
    let t = add_round_constants_spec(s, vals(c.round_constants@), offset);
    mat_vec(mat_vals(c.mds_matrix@), t.update(0, sbox(t[0])))
}

/// Round `k` is a full round: it lies in the first or the last half of the full rounds.
pub open spec fn is_full_round(c: PoseidonConstants, k: nat) -> bool {
    k < c.half_full_rounds || k >= c.half_full_rounds + c.partial_rounds
}

/// The state after the first `k` rounds from `s`; round `i` reads the
/// constants from `i * width` on.
pub open spec fn rounds(c: PoseidonConstants, s: Seq<nat>, k: nat) -> Seq<nat>
    decreases k,
{
    if k == 0 {
        s
    } else {
        let prev = rounds(c, s, (k - 1) as nat);
        let offset = ((k - 1) * c.width()) as nat;
        if is_full_round(c, (k - 1) as nat) {
            full_round_spec(c, prev, offset)
        } else {
            partial_round_spec(c, prev, offset)
        }
    }
}

/// The whole permutation of `s`.
pub open spec fn permutation(c: PoseidonConstants, s: Seq<nat>) -> Seq<nat> {
    rounds(c, s, c.total_rounds())
}

/// The digest of a state: the element at index 1 after the permutation.
pub open spec fn digest(c: PoseidonConstants, s: Seq<nat>) -> nat {
    permutation(c, s)[1]
}

/// The initial state: the domain tag, then `arity` zeros.
pub open spec fn initial_elements(c: PoseidonConstants) -> Seq<nat> {
    Seq::new(c.width(), |i: int| if i == 0 { c.domain_tag.val() } else { 0 })
}

/// A state with the preimage in place: the domain tag, then the preimage.
pub open spec fn loaded_elements(c: PoseidonConstants, preimage: Seq<nat>) -> Seq<nat> {
    seq![c.domain_tag.val()] + preimage
}

/// What `input` does to a state view `(elements, pos)`: `None` when the
/// buffer is full, else the new elements and position.
pub open spec fn absorb_spec(s: Seq<nat>, pos: nat, e: nat) -> Option<(Seq<nat>, nat)> {
    if pos >= s.len() {
        None
    } else {
        Some((s.update(pos as int, e), pos + 1))
    }
}

/// A permutation state over one constants model.
#[derive(Clone, Debug, PartialEq)]
pub struct Poseidon<'a> {
    constants_offset: usize,
    /// The elements to permute; index 0 holds the domain tag.
    pub elements: Vec<Scalar>,
    pos: usize,
    constants: &'a PoseidonConstants,
}

impl<'a> Poseidon<'a> {
    /// The constants model this state runs against.
    pub closed spec fn constants(&self) -> PoseidonConstants {
        *self.constants
    }

    /// The index of the next round constant.
    pub closed spec fn offset(&self) -> nat {
        self.constants_offset as nat
    }

    /// The index where the next input goes.
    pub closed spec fn pos(&self) -> nat {
        self.pos as nat
    }

    /// The values of the elements.
    pub closed spec fn state(&self) -> Seq<nat> {
        vals(self.elements@)
    }

    /// The state invariant.
    pub closed spec fn wf(&self) -> bool {
        &&& self.constants.wf()
        &&& self.elements@.len() == self.constants.width()
        &&& all_wf(self.elements@)
        &&& 1 <= self.pos <= self.constants.width()
        &&& self.constants_offset <= self.constants.round_constants@.len()
    }

    /// What a well-formed state guarantees to its users: a built constants
    /// model, `width` canonical elements, and both cursors in range.
    pub proof fn lemma_wf(&self)
        requires
            self.wf(),
        ensures
            self.constants().wf(),
            self.state().len() == self.constants().width(),
            forall|i: int| 0 <= i < self.state().len() ==> #[trigger] self.state()[i] < crate::field::modulus(),
            1 <= self.pos() <= self.constants().width(),
            self.offset() <= self.constants().round_constants@.len(),
    {
    }

    /// The constants model of this state.
    pub fn constants_ref(&self) -> (r: &'a PoseidonConstants)
        ensures
            *r == self.constants(),
    {
        self.constants
    }

    /// A fresh state: the domain tag, then zeros, with both cursors at their start.
    pub fn new_empty(constants: &'a PoseidonConstants) -> (r: Poseidon<'a>)
        requires
            constants.wf(),
        ensures
            r.wf(),
            r.constants() == *constants,
            r.state() == initial_elements(*constants),
            r.offset() == 0,
            r.pos() == 1,
    {
        let width = constants.arity + 1;
        let mut elements: Vec<Scalar> = Vec::new();
        elements.push(constants.domain_tag);
        let mut i: usize = 1;
        while i < width
            invariant
                1 <= i <= width,
                width == constants.width(),
                constants.wf(),
                elements@.len() == i,
                all_wf(elements@),
                vals(elements@) =~= initial_elements(*constants).take(i as int),
            decreases width - i,
        {
            elements.push(Scalar::zero());
            i = i + 1;
            assert(vals(elements@) =~= initial_elements(*constants).take(i as int));
        }
        assert(initial_elements(*constants).take(i as int) =~= initial_elements(*constants));
        Poseidon { constants_offset: 0, elements, pos: 1, constants }
    }

    /// A state holding `preimage` after the domain tag, ready to permute.
    /// Fails with `ParameterMismatch` unless the preimage has `arity` elements.
    pub fn new(constants: &'a PoseidonConstants, preimage: &Vec<Scalar>) -> (r: Result<
        Poseidon<'a>,
        Error,
    >)
        requires
            constants.wf(),
            all_wf(preimage@),
        ensures
            r.is_ok() <==> preimage@.len() == constants.arity,
            r.is_err() ==> r == Err::<Poseidon<'a>, Error>(Error::ParameterMismatch),
            r.is_ok() ==> {
                let p = r.unwrap();
                &&& p.wf()
                &&& p.constants() == *constants
                &&& p.state() == loaded_elements(*constants, vals(preimage@))
                &&& p.offset() == 0
                &&& p.pos() == constants.width()
            },
    {
        let mut p = Poseidon::new_empty(constants);
        match p.set_preimage(preimage) {
            Ok(()) => Ok(p),
            Err(e) => Err(e),
        }
    }

    /// Restores the initial state and puts `preimage` after the domain tag.
    /// Fails with `ParameterMismatch`, leaving the state as it was, unless the
    /// preimage has `arity` elements.
    pub fn set_preimage(&mut self, preimage: &Vec<Scalar>) -> (r: Result<(), Error>)
        requires
            old(self).wf(),
            all_wf(preimage@),
        ensures
            final(self).wf(),
            final(self).constants() == old(self).constants(),
            r.is_ok() <==> preimage@.len() == old(self).constants().arity,
            r.is_err() ==> r == Err::<(), Error>(Error::ParameterMismatch) && *final(self) == *old(
                self,
            ),
            r.is_ok() ==> {
                &&& final(self).state() == loaded_elements(old(self).constants(), vals(preimage@))
                &&& final(self).offset() == 0
                &&& final(self).pos() == old(self).constants().width()
            },
    {
        if preimage.len() != self.constants.arity {
            return Err(Error::ParameterMismatch);
        }
        self.reset();
        let n = preimage.len();
        let mut i: usize = 0;
        while i < n
            invariant
                self.wf(),
                self.constants() == old(self).constants(),
                n == preimage@.len(),
                n + 1 == self.elements@.len(),
                all_wf(preimage@),
                self.constants_offset == 0,
                i <= n,
                self.pos == i + 1,
                self.state().take(i as int + 1) =~= loaded_elements(self.constants(), vals(preimage@)).take(i as int + 1),
            decreases n - i,
        {
            self.elements.set(i + 1, preimage[i]);
            self.pos = i + 2;
            i = i + 1;
            assert(self.state().take(i as int + 1) =~= loaded_elements(self.constants(), vals(preimage@)).take(i as int + 1));
        }
        assert(self.state() =~= self.state().take(i as int + 1));
        assert(loaded_elements(self.constants(), vals(preimage@)) =~= loaded_elements(self.constants(), vals(preimage@)).take(i as int + 1));
        Ok(())
    }

    /// Restores the initial state: the domain tag, then zeros, both cursors at
    /// their start.
    pub fn reset(&mut self)
        requires
            old(self).wf(),
        ensures
            final(self).wf(),
            final(self).constants() == old(self).constants(),
            final(self).state() == initial_elements(old(self).constants()),
            final(self).offset() == 0,
            final(self).pos() == 1,
    {
        self.constants_offset = 0;
        let width = self.elements.len();
        let mut i: usize = 1;
        while i < width
            invariant
                1 <= i <= width,
                width == self.elements@.len(),
                self.constants() == old(self).constants(),
                self.constants.wf(),
                width == self.constants.width(),
                all_wf(self.elements@),
                self.constants_offset == 0,
                forall|k: int| 1 <= k < i ==> (#[trigger] self.elements@[k]).val() == 0,
            decreases width - i,
        {
            self.elements.set(i, Scalar::zero());
            i = i + 1;
        }
        self.elements.set(0, self.constants.domain_tag);
        self.pos = 1;
        assert(self.state() =~= initial_elements(old(self).constants()));
    }

    /// Writes `element` at the input position and advances it; returns the
    /// position written. Fails with `BufferFull`, changing nothing, once
    /// `arity` elements are in.
    pub fn input(&mut self, element: Scalar) -> (r: Result<usize, Error>)
        requires
            old(self).wf(),
            element.wf(),
        ensures
            final(self).wf(),
            final(self).constants() == old(self).constants(),
            final(self).offset() == old(self).offset(),
            r.is_ok() <==> absorb_spec(old(self).state(), old(self).pos(), element.val()).is_some(),
            r.is_err() ==> r == Err::<usize, Error>(Error::BufferFull) && *final(self) == *old(self),
            r.is_ok() ==> {
                let (s, p) = absorb_spec(old(self).state(), old(self).pos(), element.val()).unwrap();
                &&& r.unwrap() as nat == old(self).pos()
                &&& final(self).state() == s
                &&& final(self).pos() == p
            },
    {
        if self.pos >= self.elements.len() {
            return Err(Error::BufferFull);
        }
        let p = self.pos;
        self.elements.set(p, element);
        self.pos = p + 1;
        assert(self.state() =~= old(self).state().update(p as int, element.val()));
        Ok(p)
    }

    /// Runs the whole permutation from a state whose round constants are all
    /// still unread, and returns the digest: the element at index 1.
    pub fn hash(&mut self) -> (r: Scalar)
        requires
            old(self).wf(),
            old(self).offset() == 0,
        ensures
            final(self).wf(),
            final(self).constants() == old(self).constants(),
            final(self).pos() == old(self).pos(),
            final(self).state() == permutation(old(self).constants(), old(self).state()),
            final(self).offset() == old(self).constants().round_constants@.len(),
            r.wf(),
            r.val() == digest(old(self).constants(), old(self).state()),
    {
        let ghost c = self.constants();
        let ghost s0 = self.state();
        let half = self.constants.half_full_rounds;
        let partial = self.constants.partial_rounds;
        let width = self.elements.len();
        proof {
            assert(rounds(c, s0, 0) == s0);
        }
        let mut k: usize = 0;
        while k < half
            invariant
                self.wf(),
                self.constants() == c,
                self.pos == old(self).pos,
                half == c.half_full_rounds,
                partial == c.partial_rounds,
                width == c.width(),
                k <= half,
                self.constants_offset as nat == k * width,
                self.state() == rounds(c, s0, k as nat),
            decreases half - k,
        {
            proof { self.lemma_offset_room(k as nat); }
            self.full_round();
            k = k + 1;
        }
        while k < half + partial
            invariant
                self.wf(),
                self.constants() == c,
                self.pos == old(self).pos,
                half == c.half_full_rounds,
                partial == c.partial_rounds,
                width == c.width(),
                half <= k <= half + partial,
                self.constants_offset as nat == k * width,
                self.state() == rounds(c, s0, k as nat),
            decreases half + partial - k,
        {
            proof { self.lemma_offset_room(k as nat); }
            self.partial_round();
            k = k + 1;
        }
        while k < 2 * half + partial
            invariant
                self.wf(),
                self.constants() == c,
                self.pos == old(self).pos,
                half == c.half_full_rounds,
                partial == c.partial_rounds,
                width == c.width(),
                half + partial <= k <= 2 * half + partial,
                self.constants_offset as nat == k * width,
                self.state() == rounds(c, s0, k as nat),
            decreases 2 * half + partial - k,
        {
            proof { self.lemma_offset_room(k as nat); }
            self.full_round();
            k = k + 1;
        }
        proof {
            lemma_all_constants_read(c, k as nat);
        }
        self.elements[1]
    }

    /// The permutation with the partial rounds run through the sparse
    /// decomposition in `plan`: the last full round of the first half mixes
    /// with the pre-sparse matrix, each partial round adds its folded
    /// constant to the first element and mixes with its sparse matrix, and
    /// the carry is added after the last. Same result as `hash`.
    pub fn hash_optimized(&mut self, plan: &CompressedPartialRounds) -> (r: Scalar)
        requires
            old(self).wf(),
            old(self).offset() == 0,
            plan.matches(old(self).constants()),
        ensures
            final(self).wf(),
            final(self).constants() == old(self).constants(),
            final(self).pos() == old(self).pos(),
            final(self).state() == permutation(old(self).constants(), old(self).state()),
            final(self).offset() == old(self).constants().round_constants@.len(),
            r.wf(),
            r.val() == digest(old(self).constants(), old(self).state()),
    {
        let ghost c = self.constants();
        let ghost s0 = self.state();
        let half = self.constants.half_full_rounds;
        let partial = self.constants.partial_rounds;
        let width = self.elements.len();
        let total_len = self.constants.round_constants.len();
        proof {
            assert(rounds(c, s0, 0) == s0);
        }
        let mut k: usize = 0;
        while k + 1 < half
            invariant
                self.wf(),
                self.constants() == c,
                self.pos == old(self).pos,
                half == c.half_full_rounds,
                partial == c.partial_rounds,
                width == c.width(),
                k < half,
                self.constants_offset as nat == k * width,
                self.state() == rounds(c, s0, k as nat),
            decreases half - k,
        {
            proof { self.lemma_offset_room(k as nat); }
            self.full_round();
            k = k + 1;
        }
        proof { self.lemma_offset_room(k as nat); }
        self.add_round_constants();
        self.sbox_all();
        let ghost u = self.state();
        assert(rounds(c, s0, half as nat) == mat_vec(mat_vals(c.mds_matrix@), u));
        proof {
            lemma_partial_rounds_folded(c, s0, u, partial as nat);
            crate::compress::lemma_carry_bounded(c, partial as nat);
            assert(plan.folded_constants@.len() == vals(plan.folded_constants@).len());
            assert(plan.carry@.len() == vals(plan.carry@).len());
        }
        let v = plan.mixing.partial_phase(&plan.folded_constants, &self.elements);
        proof {
            let r = partial as nat;
            assert(crate::sparse::sparse_phase(
                mat_vals(plan.mixing.pre_sparse_matrix@),
                crate::sparse::rows_of(plan.mixing.sparse_matrices@),
                crate::sparse::cols_of(plan.mixing.sparse_matrices@),
                vals(plan.folded_constants@),
                u,
                r,
            ) == crate::sparse::dense_phase(mat_vals(c.mds_matrix@), vals(plan.folded_constants@), u, r));
        }
        let mut out: Vec<Scalar> = Vec::new();
        let mut i: usize = 0;
        while i < width
            invariant
                i <= width,
                width == c.width(),
                v@.len() == width,
                all_wf(v@),
                plan.matches(c),
                plan.carry@.len() == width,
                out@.len() == i,
                all_wf(out@),
                vals(out@) =~= vadd(vals(v@), vals(plan.carry@)).take(i as int),
            decreases width - i,
        {
            out.push(v[i].add(&plan.carry[i]));
            i = i + 1;
            assert(vals(out@) =~= vadd(vals(v@), vals(plan.carry@)).take(i as int));
        }
        assert(vals(out@) =~= vadd(vals(v@), vals(plan.carry@)));
        self.elements = out;
        k = half + partial;
        proof {
            assert((half + partial) * width <= total_len) by (nonlinear_arith)
                requires
                    total_len == (2 * half + partial) * width,
            ;
        }
        self.constants_offset = k * width;
        while k < 2 * half + partial
            invariant
                self.wf(),
                self.constants() == c,
                self.pos == old(self).pos,
                half == c.half_full_rounds,
                partial == c.partial_rounds,
                width == c.width(),
                half + partial <= k <= 2 * half + partial,
                self.constants_offset as nat == k * width,
                self.state() == rounds(c, s0, k as nat),
            decreases 2 * half + partial - k,
        {
            proof { self.lemma_offset_room(k as nat); }
            self.full_round();
            k = k + 1;
        }
        proof {
            lemma_all_constants_read(c, k as nat);
        }
        self.elements[1]
    }

    /// Round `k` of a permutation reads its constants within bounds.
    proof fn lemma_offset_room(&self, k: nat)
        requires
            self.wf(),
            k < self.constants().total_rounds(),
        ensures
            (k + 1) * self.constants().width() <= self.constants().round_constants@.len(),
            k * self.constants().width() + self.constants().width() == (k + 1) * self.constants().width(),
    {
        let c = self.constants();
        assert((k + 1) * c.width() <= c.total_rounds() * c.width()) by (nonlinear_arith)
            requires
                k < c.total_rounds(),
        ;
        assert(k * c.width() + c.width() == (k + 1) * c.width()) by (nonlinear_arith);
    }

    /// One full round; reads the next `width` round constants.
    pub fn full_round(&mut self)
        requires
            old(self).wf(),
            old(self).offset() + old(self).constants().width() <= old(self).constants().round_constants@.len(),
        ensures
            final(self).wf(),
            final(self).constants() == old(self).constants(),
            final(self).pos() == old(self).pos(),
            final(self).offset() == old(self).offset() + old(self).constants().width(),
            final(self).state() == full_round_spec(old(self).constants(), old(self).state(), old(self).offset()),
    {
        self.add_round_constants();
        self.sbox_all();
        self.product_mds();
    }

    /// Applies the S-box to every element.
    fn sbox_all(&mut self)
        requires
            old(self).wf(),
        ensures
            final(self).wf(),
            final(self).constants() == old(self).constants(),
            final(self).pos == old(self).pos,
            final(self).constants_offset == old(self).constants_offset,
            final(self).state() == Seq::new(old(self).state().len(), |i: int| sbox(old(self).state()[i])),
    {
        let ghost t = self.state();
        let width = self.elements.len();
        let mut i: usize = 0;
        while i < width
            invariant
                self.wf(),
                self.constants() == old(self).constants(),
                self.pos == old(self).pos,
                self.constants_offset == old(self).constants_offset,
                width == self.elements@.len(),
                t.len() == width,
                t == old(self).state(),
                i <= width,
                forall|k: int| 0 <= k < i ==> (#[trigger] self.elements@[k]).val() == sbox(t[k]),
                forall|k: int| i <= k < width ==> (#[trigger] self.elements@[k]).val() == t[k],
            decreases width - i,
        {
            let mut l = self.elements[i];
            quintic_s_box(&mut l);
            self.elements.set(i, l);
            i = i + 1;
        }
        assert(self.state() =~= Seq::new(t.len(), |i: int| sbox(t[i])));
    }

    /// One partial round; reads the next `width` round constants, though only
    /// the first element goes through the S-box.
    pub fn partial_round(&mut self)
        requires
            old(self).wf(),
            old(self).offset() + old(self).constants().width() <= old(self).constants().round_constants@.len(),
        ensures
            final(self).wf(),
            final(self).constants() == old(self).constants(),
            final(self).pos() == old(self).pos(),
            final(self).offset() == old(self).offset() + old(self).constants().width(),
            final(self).state() == partial_round_spec(old(self).constants(), old(self).state(), old(self).offset()),
    {
        self.add_round_constants();
        let ghost t = self.state();
        let mut l = self.elements[0];
        quintic_s_box(&mut l);
        self.elements.set(0, l);
        assert(self.state() =~= t.update(0, sbox(t[0])));
        self.product_mds();
    }

    /// Adds the next `width` round constants, one to each element.
    fn add_round_constants(&mut self)
        requires
            old(self).wf(),
            old(self).offset() + old(self).constants().width() <= old(self).constants().round_constants@.len(),
        ensures
            final(self).wf(),
            final(self).constants() == old(self).constants(),
            final(self).pos == old(self).pos,
            final(self).constants_offset == old(self).constants_offset + old(self).elements@.len(),
            final(self).state() == add_round_constants_spec(
                old(self).state(),
                vals(old(self).constants().round_constants@),
                old(self).offset(),
            ),
    {
        let width = self.elements.len();
        let base = self.constants_offset;
        let n = self.constants.round_constants.len();
        let mut i: usize = 0;
        while i < width
            invariant
                self.wf(),
                self.constants() == old(self).constants(),
                self.pos == old(self).pos,
                self.constants_offset == base,
                base == old(self).constants_offset,
                width == self.elements@.len(),
                base + width <= n,
                n == self.constants.round_constants@.len(),
                i <= width,
                forall|k: int| 0 <= k < i ==> (#[trigger] self.elements@[k]).val() == fadd(
                    old(self).elements@[k].val(),
                    self.constants.round_constants@[base + k].val(),
                ),
                forall|k: int| i <= k < width ==> (#[trigger] self.elements@[k]) == old(self).elements@[k],
            decreases width - i,
        {
            let v = self.elements[i].add(&self.constants.round_constants[base + i]);
            self.elements.set(i, v);
            i = i + 1;
        }
        self.constants_offset = base + width;
        assert(self.state() =~= add_round_constants_spec(
            old(self).state(),
            vals(old(self).constants().round_constants@),
            old(self).offset(),
        ));
    }

    /// Replaces the elements by their product with the dense matrix.
    fn product_mds(&mut self)
        requires
            old(self).wf(),
        ensures
            final(self).wf(),
            final(self).constants() == old(self).constants(),
            final(self).pos == old(self).pos,
            final(self).constants_offset == old(self).constants_offset,
            final(self).state() == mat_vec(mat_vals(old(self).constants().mds_matrix@), old(self).state()),
    {
        let r = apply_matrix(&self.constants.mds_matrix, &self.elements);
        self.elements = r;
    }
}

/// After every round, the cursor has read all round constants.
proof fn lemma_all_constants_read(c: PoseidonConstants, k: nat)
    requires
        c.wf(),
        k == 2 * c.half_full_rounds + c.partial_rounds,
    ensures
        k * c.width() == c.round_constants@.len(),
{
    let w = c.width() as int;
    let len = c.round_constants@.len() as int;
    assert(len == (c.full_rounds as int + c.partial_rounds as int) * w);
    assert(k * w == len) by (nonlinear_arith)
        requires
            k == 2 * (c.half_full_rounds as int) + c.partial_rounds as int,
            len == (c.full_rounds as int + c.partial_rounds as int) * w,
            c.full_rounds as int == 2 * (c.half_full_rounds as int),
    ;
}

/// Applies the S-box `x^5` in place, by four multiplications by the input value.
pub(crate) fn quintic_s_box(l: &mut Scalar)
    requires
        old(l).wf(),
    ensures
        final(l).wf(),
        final(l).val() == sbox(old(l).val()),
{
    let c = *l;
    let mut i: usize = 0;
    while i < 4
        invariant
            i <= 4,
            c == *old(l),
            l.wf(),
            c.wf(),
            i == 0 ==> l.val() == c.val(),
            i == 1 ==> l.val() == fmul(c.val(), c.val()),
            i == 2 ==> l.val() == fmul(fmul(c.val(), c.val()), c.val()),
            i == 3 ==> l.val() == fmul(fmul(fmul(c.val(), c.val()), c.val()), c.val()),
            i == 4 ==> l.val() == sbox(c.val()),
        decreases 4 - i,
    {
        *l = l.mul(&c);
        i = i + 1;
    }
}

} // verus!
