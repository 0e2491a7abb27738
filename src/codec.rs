//! A byte encoding of the constants model.
//!
//! Layout: the arity as a little-endian `u64`, one strength byte, the
//! hash-domain policy (a tag byte and a little-endian `u64` payload), then
//! every element of the dense matrix, row by row, and every round constant,
//! each as its 32-byte canonical encoding. The domain tag and the round
//! schedule are not stored: they follow from the rest.

use crate::constants::PoseidonConstants;
use crate::field::{le_value, modulus, Scalar};
use crate::algebra::{identity, mat_mul};
use crate::matrix::{all_wf, is_square, mat_vals, vals, Matrix};
use crate::params::{is_supported_arity, spec_partial_rounds, round_numbers, Error, HashType, Strength, FULL_ROUNDS, MAX_ARITY};
use vstd::bytes::{
    lemma_auto_spec_u64_to_from_le_bytes, spec_u64_from_le_bytes, spec_u64_to_le_bytes,
    u64_from_le_bytes, u64_to_le_bytes,
};
use vstd::prelude::*;
use vstd::slice::slice_subrange;

verus! {

/// Bytes before the first field element.
pub const HEADER_LEN: usize = 18;

/// Bytes of one encoded field element.
pub const SCALAR_LEN: usize = 32;

/// The encodings of `v`, one after the other.
pub open spec fn encode_scalars(v: Seq<Scalar>) -> Seq<u8>
    decreases v.len(),
{
    if v.len() == 0 {
        Seq::empty()
    } else {
        encode_scalars(v.drop_last()) + v.last().repr@
    }
}

/// The rows of a matrix, one after the other.
pub open spec fn flat(m: Seq<Vec<Scalar>>) -> Seq<Scalar>
    decreases m.len(),
{
    if m.len() == 0 {
        Seq::empty()
    } else {
        flat(m.drop_last()) + m.last()@
    }
}

/// The byte that stands for a strength.
pub open spec fn strength_byte(s: Strength) -> u8 {
    match s {
        Strength::Standard => 0,
        Strength::Strengthened => 1,
    }
}

/// The strength that a valid strength byte stands for.
pub open spec fn strength_of(b: u8) -> Strength {
    if b == 0 {
        Strength::Standard
    } else {
        Strength::Strengthened
    }
}

/// The tag byte of a hash-domain policy.
pub open spec fn hash_type_tag(h: HashType) -> u8 {
    match h {
        HashType::MerkleTree => 0,
        HashType::ConstantLength(_) => 1,
        HashType::VariableLength => 2,
        HashType::Encryption => 3,
        HashType::Custom(_) => 4,
    }
}

/// The payload of a hash-domain policy; zero where it has none.
pub open spec fn hash_type_payload(h: HashType) -> u64 {
    match h {
        HashType::ConstantLength(len) => len,
        HashType::Custom(id) => id,
        _ => 0,
    }
}

/// The nine bytes of a hash-domain policy.
pub open spec fn hash_type_bytes(h: HashType) -> Seq<u8> {
    seq![hash_type_tag(h)] + spec_u64_to_le_bytes(hash_type_payload(h))
}

/// Nine bytes that some policy encodes to.
pub open spec fn valid_hash_type_bytes(b: Seq<u8>) -> bool {
    &&& b.len() == 9
    &&& b[0] <= 4
    &&& (b[0] == 0 || b[0] == 2 || b[0] == 3) ==> spec_u64_from_le_bytes(b.subrange(1, 9)) == 0
}

/// The encoding of a constants model.
pub open spec fn encode_spec(c: PoseidonConstants) -> Seq<u8> {
    spec_u64_to_le_bytes(c.arity as u64) + seq![strength_byte(c.strength)] + hash_type_bytes(
        c.hash_type,
    ) + encode_scalars(flat(c.mds_matrix@) + flat(c.mds_inverse@) + c.round_constants@)
}

/// The arity that an encoding names.
pub open spec fn encoded_arity(b: Seq<u8>) -> nat {
    spec_u64_from_le_bytes(b.subrange(0, 8)) as nat
}

/// The number of field elements that an encoding of `arity` and `strength` holds.
pub open spec fn encoded_scalar_count(arity: nat, strength: Strength) -> nat {
    2 * ((arity + 1) * (arity + 1)) + (FULL_ROUNDS as nat + spec_partial_rounds(arity, strength)) * (
    arity + 1)
}

/// The 32 bytes of the `i`-th encoded field element.
pub open spec fn chunk(b: Seq<u8>, i: int) -> Seq<u8> {
    b.subrange(HEADER_LEN + 32 * i, HEADER_LEN + 32 * i + 32)
}

/// The `n` by `n` matrix of the values encoded from element `start` on, row by row.
pub open spec fn enc_matrix(b: Seq<u8>, start: nat, n: nat) -> Seq<Seq<nat>> {
    Seq::new(n, |i: int| Seq::new(n, |j: int| le_value(chunk(b, start + i * n + j))))
}

/// The byte strings that `decode` accepts. The second matrix is the
/// inverse of the first, the dense matrix.
pub open spec fn valid_encoding(b: Seq<u8>) -> bool {
    &&& b.len() >= HEADER_LEN
    &&& is_supported_arity(encoded_arity(b))
    &&& (b[8] == 0 || b[8] == 1)
    &&& valid_hash_type_bytes(b.subrange(9, 18))
    &&& b.len() == HEADER_LEN + 32 * encoded_scalar_count(encoded_arity(b), strength_of(b[8]))
    &&& forall|i: int|
        0 <= i < encoded_scalar_count(encoded_arity(b), strength_of(b[8])) ==> le_value(
            #[trigger] chunk(b, i),
        ) < modulus()
    &&& mat_mul(
        enc_matrix(b, (encoded_arity(b) + 1) * (encoded_arity(b) + 1), encoded_arity(b) + 1),
        enc_matrix(b, 0, encoded_arity(b) + 1),
    ) == identity(encoded_arity(b) + 1)
}

/// Conversion of a field element to and from its canonical 32 bytes.
pub struct Raw;

impl Raw {
    /// The canonical bytes of `s`.
    pub fn serialize_with(s: &Scalar) -> (r: [u8; 32])
        ensures
            r@ == s.repr@,
    {
        s.to_bytes()
    }

    /// The element that `b` encodes; `SerializationError` unless `b` denotes a
    /// value below the modulus.
    pub fn deserialize_with(b: [u8; 32]) -> (r: Result<Scalar, Error>)
        ensures
            r.is_ok() <==> le_value(b@) < modulus(),
            r.is_err() ==> r == Err::<Scalar, Error>(Error::SerializationError),
            r.is_ok() ==> r.unwrap().repr@ == b@ && r.unwrap().wf(),
    {
        match Scalar::from_bytes(b) {
            Some(s) => Ok(s),
            None => Err(Error::SerializationError),
        }
    }
}

/// Conversion of a hash-domain policy to and from its nine bytes.
pub struct ArchivedCType;

impl ArchivedCType {
    /// The nine bytes of `h`.
    pub fn serialize_with(h: HashType) -> (r: Vec<u8>)
        ensures
            r@ == hash_type_bytes(h),
    {
        let (tag, payload): (u8, u64) = match h {
            HashType::MerkleTree => (0, 0),
            HashType::ConstantLength(len) => (1, len),
            HashType::VariableLength => (2, 0),
            HashType::Encryption => (3, 0),
            HashType::Custom(id) => (4, id),
        };
        let mut r: Vec<u8> = Vec::new();
        r.push(tag);
        let mut p = u64_to_le_bytes(payload);
        r.append(&mut p);
        r
    }

    /// The policy that nine bytes encode; `SerializationError` where none
    /// does, bytes of another length included.
    pub fn deserialize_with(b: &[u8]) -> (r: Result<HashType, Error>)
        ensures
            r.is_ok() <==> valid_hash_type_bytes(b@),
            r.is_err() ==> r == Err::<HashType, Error>(Error::SerializationError),
            r.is_ok() ==> hash_type_bytes(r.unwrap()) == b@,
    {
        proof {
            lemma_auto_spec_u64_to_from_le_bytes();
        }
        if b.len() != 9 {
            return Err(Error::SerializationError);
        }
        let payload = u64_from_le_bytes(slice_subrange(b, 1, 9));
        let tag = b[0];
        let r = if tag == 0 && payload == 0 {
            Ok(HashType::MerkleTree)
        } else if tag == 1 {
            Ok(HashType::ConstantLength(payload))
        } else if tag == 2 && payload == 0 {
            Ok(HashType::VariableLength)
        } else if tag == 3 && payload == 0 {
            Ok(HashType::Encryption)
        } else if tag == 4 {
            Ok(HashType::Custom(payload))
        } else {
            Err(Error::SerializationError)
        };
        proof {
            if r.is_ok() {
                let s = b@.subrange(1, 9);
                assert(spec_u64_to_le_bytes(spec_u64_from_le_bytes(s)) == s);
                assert(hash_type_bytes(r.unwrap()) =~= b@);
            }
        }
        r
    }
}

/// Each encoded element takes 32 bytes.
pub proof fn lemma_encode_scalars_len(v: Seq<Scalar>)
    ensures
        encode_scalars(v).len() == 32 * v.len(),
    decreases v.len(),
{
    if v.len() > 0 {
        lemma_encode_scalars_len(v.drop_last());
    }
}

/// Appending an element appends its encoding.
pub proof fn lemma_encode_scalars_push(v: Seq<Scalar>, s: Scalar)
    ensures
        encode_scalars(v.push(s)) == encode_scalars(v) + s.repr@,
{
    assert(v.push(s).drop_last() =~= v);
}

/// The `i`-th 32 bytes of the encoding are the `i`-th element's.
pub proof fn lemma_encode_scalars_chunk(v: Seq<Scalar>, i: int)
    requires
        0 <= i < v.len(),
    ensures
        encode_scalars(v).subrange(32 * i, 32 * i + 32) == v[i].repr@,
    decreases v.len(),
{
    lemma_encode_scalars_len(v.drop_last());
    if i == v.len() - 1 {
        assert(encode_scalars(v).subrange(32 * i, 32 * i + 32) =~= v[i].repr@);
    } else {
        lemma_encode_scalars_chunk(v.drop_last(), i);
        assert(encode_scalars(v).subrange(32 * i, 32 * i + 32) =~= encode_scalars(
            v.drop_last(),
        ).subrange(32 * i, 32 * i + 32));
    }
}

/// Sequences of one length with the same encoding are equal.
pub proof fn lemma_encode_scalars_injective(u: Seq<Scalar>, v: Seq<Scalar>)
    requires
        u.len() == v.len(),
        encode_scalars(u) == encode_scalars(v),
    ensures
        u == v,
{
    assert forall|i: int| 0 <= i < u.len() implies u[i] == v[i] by {
        lemma_encode_scalars_chunk(u, i);
        lemma_encode_scalars_chunk(v, i);
        assert(u[i].repr =~= v[i].repr);
    }
    assert(u =~= v);
}

/// Appending a row appends its elements.
pub proof fn lemma_flat_push(m: Seq<Vec<Scalar>>, row: Vec<Scalar>)
    ensures
        flat(m.push(row)) == flat(m) + row@,
{
    assert(m.push(row).drop_last() =~= m);
}

/// In a matrix of rows of width `w`, element `k` of row `i` stands at `i * w + k`.
pub proof fn lemma_flat_index(m: Seq<Vec<Scalar>>, w: nat)
    requires
        forall|i: int| 0 <= i < m.len() ==> (#[trigger] m[i])@.len() == w,
    ensures
        flat(m).len() == m.len() * w,
        forall|i: int, k: int|
            0 <= i < m.len() && 0 <= k < w ==> flat(m)[i * w + k] == #[trigger] m[i]@[k],
    decreases m.len(),
{
    if m.len() > 0 {
        let n = (m.len() - 1) as int;
        lemma_flat_index(m.drop_last(), w);
        assert(flat(m).len() == m.len() * w) by (nonlinear_arith)
            requires
                flat(m).len() == flat(m.drop_last()).len() + w,
                flat(m.drop_last()).len() == n * w,
                m.len() == n + 1,
        ;
        assert forall|i: int, k: int| 0 <= i < m.len() && 0 <= k < w implies flat(m)[i * w + k]
            == #[trigger] m[i]@[k] by {
            if i < n {
                assert(i * w + k < n * w) by (nonlinear_arith)
                    requires
                        i < n,
                        k < w,
                        0 <= k,
                ;
                assert(m.drop_last()[i] == m[i]);
            } else {
                assert(i * w == n * w);
            }
        }
    }
}

/// Matrices of one shape with the same elements have the same rows.
pub proof fn lemma_flat_injective(a: Seq<Vec<Scalar>>, b: Seq<Vec<Scalar>>, w: nat)
    requires
        a.len() == b.len(),
        forall|i: int| 0 <= i < a.len() ==> (#[trigger] a[i])@.len() == w,
        forall|i: int| 0 <= i < b.len() ==> (#[trigger] b[i])@.len() == w,
        flat(a) == flat(b),
    ensures
        forall|i: int| 0 <= i < a.len() ==> (#[trigger] a[i])@ == b[i]@,
{
    lemma_flat_index(a, w);
    lemma_flat_index(b, w);
    assert forall|i: int| 0 <= i < a.len() implies (#[trigger] a[i])@ == b[i]@ by {
        assert forall|k: int| 0 <= k < w implies a[i]@[k] == b[i]@[k] by {
            assert(flat(a)[i * w + k] == a[i]@[k]);
            assert(flat(b)[i * w + k] == b[i]@[k]);
        }
        assert(a[i]@ =~= b[i]@);
    }
}

/// Appends the 32 bytes of `s`.
fn push_scalar(out: &mut Vec<u8>, s: &Scalar)
    ensures
        final(out)@ == old(out)@ + s.repr@,
{
    let bytes = Raw::serialize_with(s);
    let mut i: usize = 0;
    while i < 32
        invariant
            i <= 32,
            bytes@ == s.repr@,
            out@ == old(out)@ + bytes@.take(i as int),
        decreases 32 - i,
    {
        out.push(bytes[i]);
        i = i + 1;
        assert(out@ =~= old(out)@ + bytes@.take(i as int));
    }
    assert(bytes@.take(32) =~= bytes@);
}

/// Copies out the 32 bytes from `at` on.
fn read_chunk(b: &Vec<u8>, at: usize) -> (r: [u8; 32])
    requires
        at + 32 <= b@.len(),
    ensures
        r@ == b@.subrange(at as int, at + 32),
{
    let mut a = [0u8; 32];
    let n = b.len();
    let mut i: usize = 0;
    while i < 32
        invariant
            i <= 32,
            n == b@.len(),
            at + 32 <= n,
            forall|k: int| 0 <= k < i ==> a@[k] == b@[at + k],
        decreases 32 - i,
    {
        a[i] = b[at + i];
        i = i + 1;
    }
    assert(a@ =~= b@.subrange(at as int, at + 32));
    a
}

/// Appends the encodings of the elements of `m`, row by row.
fn push_matrix(out: &mut Vec<u8>, m: &Matrix, Ghost(prev): Ghost<Seq<Scalar>>, Ghost(head): Ghost<Seq<u8>>)
    requires
        old(out)@ == head + encode_scalars(prev),
    ensures
        final(out)@ == head + encode_scalars(prev + flat(m@)),
{
    let ghost mv = m@;
    assert(prev + flat(mv.take(0)) =~= prev);
    let mut i: usize = 0;
    while i < m.len()
        invariant
            i <= mv.len(),
            mv == m@,
            out@ == head + encode_scalars(prev + flat(mv.take(i as int))),
        decreases mv.len() - i,
    {
        let row = &m[i];
        let ghost base = prev + flat(mv.take(i as int));
        assert(base + row@.take(0) =~= base);
        let mut j: usize = 0;
        while j < row.len()
            invariant
                j <= row@.len(),
                i < mv.len(),
                *row == mv[i as int],
                base == prev + flat(mv.take(i as int)),
                out@ == head + encode_scalars(base + row@.take(j as int)),
            decreases row@.len() - j,
        {
            push_scalar(out, &row[j]);
            proof {
                lemma_encode_scalars_push(base + row@.take(j as int), row@[j as int]);
                assert(base + row@.take(j as int + 1) =~= (base + row@.take(j as int)).push(row@[j as int]));
            }
            j = j + 1;
        }
        proof {
            lemma_flat_push(mv.take(i as int), *row);
            assert(mv.take(i as int + 1) =~= mv.take(i as int).push(*row));
            assert(row@.take(j as int) =~= row@);
            assert(prev + flat(mv.take(i as int + 1)) =~= base + row@);
        }
        i = i + 1;
    }
    assert(mv.take(i as int) =~= mv);
}

impl PoseidonConstants {
    /// The byte encoding of this model.
    pub fn encode(&self) -> (r: Vec<u8>)
        ensures
            r@ == encode_spec(*self),
    {
        let mut out = u64_to_le_bytes(self.arity as u64);
        let sb: u8 = match self.strength {
            Strength::Standard => 0,
            Strength::Strengthened => 1,
        };
        out.push(sb);
        let mut h = ArchivedCType::serialize_with(self.hash_type);
        out.append(&mut h);
        let ghost head = out@;
        assert(out@ == head + encode_scalars(Seq::<Scalar>::empty()));
        push_matrix(&mut out, &self.mds_matrix, Ghost(Seq::<Scalar>::empty()), Ghost(head));
        assert(Seq::<Scalar>::empty() + flat(self.mds_matrix@) =~= flat(self.mds_matrix@));
        push_matrix(&mut out, &self.mds_inverse, Ghost(flat(self.mds_matrix@)), Ghost(head));
        let ghost fm = flat(self.mds_matrix@) + flat(self.mds_inverse@);
        let rc = &self.round_constants;
        assert(fm + rc@.take(0) =~= fm);
        let mut k: usize = 0;
        while k < rc.len()
            invariant
                k <= rc@.len(),
                *rc == self.round_constants,
                fm == flat(self.mds_matrix@) + flat(self.mds_inverse@),
                out@ == head + encode_scalars(fm + rc@.take(k as int)),
            decreases rc@.len() - k,
        {
            push_scalar(&mut out, &rc[k]);
            proof {
                lemma_encode_scalars_push(fm + rc@.take(k as int), rc@[k as int]);
                assert(fm + rc@.take(k as int + 1) =~= (fm + rc@.take(k as int)).push(rc@[k as int]));
            }
            k = k + 1;
        }
        assert(rc@.take(k as int) =~= rc@);
        assert(rc@.take(0) =~= Seq::<Scalar>::empty());
        assert(fm + rc@.take(0) =~= fm);
        assert(out@ =~= encode_spec(*self));
        out
    }

    /// Decodes a model. Fails with `SerializationError` on bytes that are not
    /// the encoding of a model: a wrong length, an unsupported arity, an
    /// unknown strength or policy, or a field element out of range.
    #[verifier::rlimit(40)]
    pub fn decode(b: &Vec<u8>) -> (r: Result<PoseidonConstants, Error>)
        ensures
            r.is_ok() <==> valid_encoding(b@),
            r.is_err() ==> r == Err::<PoseidonConstants, Error>(Error::SerializationError),
            r.is_ok() ==> r.unwrap().wf() && encode_spec(r.unwrap()) == b@,
    {
        proof {
            lemma_auto_spec_u64_to_from_le_bytes();
        }
        if b.len() < HEADER_LEN {
            return Err(Error::SerializationError);
        }
        let a64 = u64_from_le_bytes(slice_subrange(b.as_slice(), 0, 8));
        if a64 > MAX_ARITY as u64 {
            return Err(Error::SerializationError);
        }
        let arity = a64 as usize;
        let sb = b[8];
        let strength = if sb == 0 {
            Strength::Standard
        } else if sb == 1 {
            Strength::Strengthened
        } else {
            return Err(Error::SerializationError);
        };
        let hash_type = match ArchivedCType::deserialize_with(slice_subrange(b.as_slice(), 9, 18)) {
            Ok(h) => h,
            Err(e) => {
                return Err(e);
            },
        };
        let (full, partial) = match round_numbers(arity, strength) {
            Ok(p) => p,
            Err(_) => {
                return Err(Error::SerializationError);
            },
        };
        let width = arity + 1;
        assert(partial <= 75);
        assert(2 * (width * width) + (full + partial) * width <= 2 * 37 * 37 + 83 * 37) by (nonlinear_arith)
            requires
                full == 8,
                partial <= 75,
                width <= 37,
        ;
        let count = 2 * (width * width) + (full + partial) * width;
        assert(count == encoded_scalar_count(arity as nat, strength));
        if b.len() != HEADER_LEN + 32 * count {
            return Err(Error::SerializationError);
        }
        let mut v: Vec<Scalar> = Vec::new();
        let mut i: usize = 0;
        while i < count
            invariant
                i <= count,
                count <= 5809,
                b@.len() == HEADER_LEN + 32 * count,
                v@.len() == i,
                all_wf(v@),
                encode_scalars(v@) == b@.subrange(HEADER_LEN as int, HEADER_LEN + 32 * i),
                forall|j: int| 0 <= j < i ==> le_value(#[trigger] chunk(b@, j)) < modulus(),
                forall|j: int| 0 <= j < i ==> (#[trigger] v@[j]).repr@ == chunk(b@, j),
            decreases count - i,
        {
            let bytes = read_chunk(b, HEADER_LEN + 32 * i);
            let s = match Raw::deserialize_with(bytes) {
                Ok(s) => s,
                Err(e) => {
                    assert(bytes@ == chunk(b@, i as int));
                    return Err(e);
                },
            };
            proof {
                assert(bytes@ == chunk(b@, i as int));
                lemma_encode_scalars_push(v@, s);
                assert(b@.subrange(HEADER_LEN as int, HEADER_LEN + 32 * (i + 1)) =~= b@.subrange(
                    HEADER_LEN as int,
                    HEADER_LEN + 32 * i,
                ) + bytes@);
            }
            v.push(s);
            i = i + 1;
        }
        assert(b@ =~= b@.subrange(0, 8) + seq![b@[8]] + b@.subrange(9, 18) + b@.subrange(
            HEADER_LEN as int,
            HEADER_LEN + 32 * count,
        ));
        let ww = width * width;
        assert(count == 2 * ww + (full + partial) * width);
        assert(ww <= 37 * 37) by (nonlinear_arith)
            requires
                ww == width * width,
                width <= 37,
        ;
        let rows = rows_from(&v, 0, width);
        let inv = rows_from(&v, ww, width);
        let mut rc: Vec<Scalar> = Vec::new();
        let mut k: usize = 2 * ww;
        while k < count
            invariant
                2 * ww <= k <= count,
                v@.len() == count,
                all_wf(v@),
                rc@ == v@.subrange(2 * ww, k as int),
            decreases count - k,
        {
            rc.push(v[k]);
            k = k + 1;
            assert(rc@ =~= v@.subrange(2 * ww, k as int));
        }
        assert(flat(rows@) + flat(inv@) + rc@ =~= v@);
        assert(all_wf(rc@));
        proof {
            assert(encoded_arity(b@) + 1 == width as nat);
            lemma_decoded_matrices(b@, v@, rows@, inv@, width as nat);
        }
        match PoseidonConstants::assemble(arity, strength, hash_type, rc, rows, inv) {
            Ok(c) => {
                assert(spec_u64_to_le_bytes(c.arity as u64) == b@.subrange(0, 8));
                assert(encode_spec(c) =~= b@);
                Ok(c)
            },
            Err(_) => Err(Error::SerializationError),
        }
    }
}

/// The matrices cut from the decoded elements hold the values that the
/// encoding names.
proof fn lemma_decoded_matrices(
    b: Seq<u8>,
    v: Seq<Scalar>,
    rows: Seq<Vec<Scalar>>,
    inv: Seq<Vec<Scalar>>,
    n: nat,
)
    requires
        2 * (n * n) <= v.len(),
        forall|j: int| 0 <= j < v.len() ==> (#[trigger] v[j]).repr@ == chunk(b, j),
        is_square(rows, n),
        is_square(inv, n),
        forall|i: int, j: int| 0 <= i < n && 0 <= j < n ==> #[trigger] rows[i]@[j] == v[i * n + j],
        forall|i: int, j: int| 0 <= i < n && 0 <= j < n ==> #[trigger] inv[i]@[j] == v[n * n + i * n + j],
    ensures
        mat_vals(rows) == enc_matrix(b, 0, n),
        mat_vals(inv) == enc_matrix(b, n * n, n),
{
    assert forall|i: int| 0 <= i < n implies #[trigger] mat_vals(rows)[i] =~= enc_matrix(b, 0, n)[i] by {
        assert forall|j: int| 0 <= j < n implies mat_vals(rows)[i][j] == enc_matrix(b, 0, n)[i][j] by {
            assert(0 <= i * n + j < n * n) by (nonlinear_arith)
                requires
                    0 <= i < n,
                    0 <= j < n,
            ;
            assert(rows[i]@[j] == v[i * n + j]);
        }
    }
    assert forall|i: int| 0 <= i < n implies #[trigger] mat_vals(inv)[i] =~= enc_matrix(b, n * n, n)[i] by {
        assert forall|j: int| 0 <= j < n implies mat_vals(inv)[i][j] == enc_matrix(b, n * n, n)[i][j] by {
            assert(0 <= i * n + j < n * n) by (nonlinear_arith)
                requires
                    0 <= i < n,
                    0 <= j < n,
            ;
            assert(inv[i]@[j] == v[n * n + i * n + j]);
        }
    }
    assert(mat_vals(rows) =~= enc_matrix(b, 0, n));
    assert(mat_vals(inv) =~= enc_matrix(b, n * n, n));
}

/// The `n` by `n` matrix of the elements of `v` from `start` on, row by row.
fn rows_from(v: &Vec<Scalar>, start: usize, n: usize) -> (r: Matrix)
    requires
        n <= 37,
        start + n * n <= v@.len(),
        start + n * n <= 6000,
        all_wf(v@),
    ensures
        is_square(r@, n as nat),
        flat(r@) == v@.subrange(start as int, start + n * n),
        forall|i: int, j: int| 0 <= i < n && 0 <= j < n ==> #[trigger] r@[i]@[j] == v@[start + i * n + j],
{
    let mut rows: Matrix = Vec::new();
    let mut r: usize = 0;
    assert(v@.subrange(start as int, start as int) =~= flat(rows@));
    while r < n
        invariant
            r <= n,
            n <= 37,
            start + n * n <= v@.len(),
            start + n * n <= 6000,
            all_wf(v@),
            rows@.len() == r,
            forall|j: int| 0 <= j < r ==> (#[trigger] rows@[j])@.len() == n && all_wf(rows@[j]@),
            flat(rows@) == v@.subrange(start as int, start + r * n),
        decreases n - r,
    {
        assert((r + 1) * n <= n * n) by (nonlinear_arith)
            requires
                r < n,
        ;
        assert(r * n + n == (r + 1) * n) by (nonlinear_arith);
        let mut row: Vec<Scalar> = Vec::new();
        let mut k: usize = 0;
        while k < n
            invariant
                k <= n,
                r < n,
                (r + 1) * n <= n * n,
                r * n + n == (r + 1) * n,
                start + n * n <= v@.len(),
                start + n * n <= 6000,
                all_wf(v@),
                row@ == v@.subrange(start + r * n, start + r * n + k),
            decreases n - k,
        {
            row.push(v[start + r * n + k]);
            k = k + 1;
            assert(row@ =~= v@.subrange(start + r * n, start + r * n + k));
        }
        proof {
            lemma_flat_push(rows@, row);
            assert(v@.subrange(start as int, start + (r + 1) * n) =~= v@.subrange(start as int, start + r * n) + row@);
        }
        rows.push(row);
        r = r + 1;
    }
    proof {
        lemma_flat_index(rows@, n as nat);
        assert forall|i: int, j: int| 0 <= i < n && 0 <= j < n implies #[trigger] rows@[i]@[j] == v@[start + i * n + j] by {
            assert(0 <= i * n + j < n * n) by (nonlinear_arith)
                requires
                    0 <= i < n,
                    0 <= j < n,
            ;
            assert(flat(rows@)[i * n + j] == rows@[i]@[j]);
        }
    }
    rows
}

/// The rows of a matrix of canonical rows are canonical, one after the other.
pub proof fn lemma_flat_all_wf(m: Seq<Vec<Scalar>>)
    requires
        forall|i: int| 0 <= i < m.len() ==> all_wf((#[trigger] m[i])@),
    ensures
        all_wf(flat(m)),
    decreases m.len(),
{
    if m.len() > 0 {
        lemma_flat_all_wf(m.drop_last());
        let a = flat(m.drop_last());
        let l = m.last()@;
        assert(all_wf(l));
        assert forall|i: int| 0 <= i < flat(m).len() implies (#[trigger] flat(m)[i]).wf() by {
            if i < a.len() {
                assert(flat(m)[i] == a[i]);
            } else {
                assert(flat(m)[i] == l[i - a.len()]);
            }
        }
    }
}

/// The encoding of a built model is accepted by `decode`.
pub proof fn lemma_encode_valid(c: PoseidonConstants)
    requires
        c.wf(),
    ensures
        valid_encoding(encode_spec(c)),
{
    lemma_auto_spec_u64_to_from_le_bytes();
    let b = encode_spec(c);
    let w = c.width();
    let fm = flat(c.mds_matrix@);
    let fi = flat(c.mds_inverse@);
    let v = fm + fi + c.round_constants@;
    lemma_flat_index(c.mds_matrix@, w);
    lemma_flat_index(c.mds_inverse@, w);
    lemma_flat_all_wf(c.mds_matrix@);
    lemma_flat_all_wf(c.mds_inverse@);
    lemma_encode_scalars_len(v);
    let head = spec_u64_to_le_bytes(c.arity as u64) + seq![strength_byte(c.strength)]
        + hash_type_bytes(c.hash_type);
    assert(head.len() == 18);
    assert(b == head + encode_scalars(v));
    assert(b.subrange(0, 8) =~= spec_u64_to_le_bytes(c.arity as u64));
    assert(b.subrange(9, 18) =~= hash_type_bytes(c.hash_type));
    assert(hash_type_bytes(c.hash_type).subrange(1, 9) =~= spec_u64_to_le_bytes(
        hash_type_payload(c.hash_type),
    ));
    assert(valid_hash_type_bytes(b.subrange(9, 18)));
    assert(b[8] == strength_byte(c.strength));
    assert(strength_of(b[8]) == c.strength);
    assert(encoded_arity(b) == c.arity);
    assert(v.len() == encoded_scalar_count(c.arity as nat, c.strength));
    assert(all_wf(v)) by {
        assert forall|i: int| 0 <= i < v.len() implies (#[trigger] v[i]).wf() by {
            if i < w * w {
                assert(v[i] == fm[i]);
            } else if i < 2 * (w * w) {
                assert(v[i] == fi[i - w * w]);
            } else {
                assert(v[i] == c.round_constants@[i - 2 * (w * w)]);
            }
        }
    }
    assert forall|i: int| 0 <= i < v.len() implies #[trigger] chunk(b, i) == v[i].repr@ by {
        lemma_encode_scalars_chunk(v, i);
        assert(chunk(b, i) =~= encode_scalars(v).subrange(32 * i, 32 * i + 32));
    }
    assert forall|i: int| 0 <= i < v.len() implies le_value(#[trigger] chunk(b, i)) < modulus() by {
        assert(chunk(b, i) == v[i].repr@);
        assert(v[i].wf());
    }
    assert forall|i: int, j: int| 0 <= i < w && 0 <= j < w implies #[trigger] enc_matrix(b, 0, w)[i][j]
        == mat_vals(c.mds_matrix@)[i][j] && enc_matrix(b, w * w, w)[i][j] == mat_vals(c.mds_inverse@)[i][j] by {
        assert(0 <= i * w + j < w * w) by (nonlinear_arith)
            requires
                0 <= i < w,
                0 <= j < w,
        ;
        assert(chunk(b, i * w + j) == v[i * w + j].repr@);
        assert(chunk(b, w * w + i * w + j) == v[w * w + i * w + j].repr@);
        assert(v[i * w + j] == fm[i * w + j]);
        assert(v[w * w + i * w + j] == fi[i * w + j]);
    }
    assert forall|i: int| 0 <= i < w implies #[trigger] enc_matrix(b, 0, w)[i] =~= mat_vals(c.mds_matrix@)[i] by {}
    assert forall|i: int| 0 <= i < w implies #[trigger] enc_matrix(b, w * w, w)[i] =~= mat_vals(c.mds_inverse@)[i] by {
        assert forall|j: int| 0 <= j < w implies enc_matrix(b, w * w, w)[i][j] == mat_vals(c.mds_inverse@)[i][j] by {
            assert(enc_matrix(b, 0, w)[i][j] == mat_vals(c.mds_matrix@)[i][j]);
        }
    }
    assert(enc_matrix(b, 0, w) =~= mat_vals(c.mds_matrix@));
    assert(enc_matrix(b, w * w, w) =~= mat_vals(c.mds_inverse@));
}

/// Two built models with one encoding agree in every part that a
/// permutation reads.
#[verifier::rlimit(50)]
pub proof fn lemma_encode_injective(c: PoseidonConstants, d: PoseidonConstants)
    requires
        c.wf(),
        d.wf(),
        encode_spec(c) == encode_spec(d),
    ensures
        c.arity == d.arity,
        c.strength == d.strength,
        c.hash_type == d.hash_type,
        c.round_constants@ == d.round_constants@,
        forall|i: int| 0 <= i < c.mds_matrix@.len() ==> (#[trigger] c.mds_matrix@[i])@ == d.mds_matrix@[i]@,
{
    lemma_auto_spec_u64_to_from_le_bytes();
    let b = encode_spec(c);
    assert(b.subrange(0, 8) =~= spec_u64_to_le_bytes(c.arity as u64));
    assert(encode_spec(d).subrange(0, 8) =~= spec_u64_to_le_bytes(d.arity as u64));
    assert(c.arity as u64 == d.arity as u64);
    assert(b[8] == strength_byte(c.strength));
    assert(encode_spec(d)[8] == strength_byte(d.strength));
    let hc = hash_type_bytes(c.hash_type);
    let hd = hash_type_bytes(d.hash_type);
    assert(b.subrange(9, 18) =~= hc);
    assert(encode_spec(d).subrange(9, 18) =~= hd);
    assert(hc.subrange(1, 9) =~= spec_u64_to_le_bytes(hash_type_payload(c.hash_type)));
    assert(hd.subrange(1, 9) =~= spec_u64_to_le_bytes(hash_type_payload(d.hash_type)));
    assert(hash_type_payload(c.hash_type) == hash_type_payload(d.hash_type));
    assert(hc[0] == hd[0]);
    let w = c.width();
    let vc = flat(c.mds_matrix@) + flat(c.mds_inverse@) + c.round_constants@;
    let vd = flat(d.mds_matrix@) + flat(d.mds_inverse@) + d.round_constants@;
    lemma_flat_index(c.mds_matrix@, w);
    lemma_flat_index(d.mds_matrix@, w);
    lemma_flat_index(c.mds_inverse@, w);
    lemma_flat_index(d.mds_inverse@, w);
    lemma_encode_scalars_len(vc);
    lemma_encode_scalars_len(vd);
    let head_c = spec_u64_to_le_bytes(c.arity as u64) + seq![strength_byte(c.strength)] + hc;
    let head_d = spec_u64_to_le_bytes(d.arity as u64) + seq![strength_byte(d.strength)] + hd;
    assert(encode_scalars(vc) =~= b.subrange(18, b.len() as int));
    assert(encode_scalars(vd) =~= encode_spec(d).subrange(18, b.len() as int));
    lemma_encode_scalars_injective(vc, vd);
    assert(flat(c.mds_matrix@) =~= vc.take((w * w) as int));
    assert(flat(d.mds_matrix@) =~= vd.take((w * w) as int));
    assert(c.round_constants@ =~= vc.skip(2 * (w * w) as int));
    assert(d.round_constants@ =~= vd.skip(2 * (w * w) as int));
    lemma_flat_injective(c.mds_matrix@, d.mds_matrix@, w);
}

} // verus!
