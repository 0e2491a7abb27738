//! Elements of the scalar field of the Pallas curve, held in their canonical
//! little-endian byte form. Arithmetic is done by `pasta_curves`.

use ff::{Field, PrimeField};
use pasta_curves::Fq;
use vstd::prelude::*;

verus! {

/// The field modulus q = 0x40000000000000000000000000000000224698fc0994a8dd8c46eb2100000001.
pub open spec fn modulus() -> nat {
    0x40000000000000000000000000000000224698fc0994a8dd8c46eb2100000001nat
}

/// The number that a little-endian byte string denotes.
pub open spec fn le_value(b: Seq<u8>) -> nat
    decreases b.len(),
{
    if b.len() == 0 {
        0
    } else {
        b[0] as nat + 256 * le_value(b.drop_first())
    }
}

/// Field addition on canonical values.
pub open spec fn fadd(a: nat, b: nat) -> nat {
    (a + b) % modulus()
}

/// Field multiplication on canonical values.
pub open spec fn fmul(a: nat, b: nat) -> nat {
    (a * b) % modulus()
}

/// A field element, stored as its 32-byte little-endian encoding; the
/// operations require and keep the encoding canonical (see `wf`).
#[derive(Clone, Copy, Debug, PartialEq, Eq)]
pub struct Scalar {
    pub repr: [u8; 32],
}

impl Scalar {
    /// The integer in `[0, q)` this element stands for.
    pub open spec fn val(&self) -> nat {
        le_value(self.repr@)
    }

    /// The encoding is canonical: it denotes a value below the modulus.
    pub open spec fn wf(&self) -> bool {
        self.val() < modulus()
    }

    /// The canonical little-endian encoding.
    pub open spec fn bytes(&self) -> Seq<u8> {
        self.repr@
    }

    /// The canonical little-endian encoding of this element.
    pub fn to_bytes(&self) -> (r: [u8; 32])
        ensures
            r@ == self.bytes(),
    {
        self.repr
    }

    /// Decodes a canonical encoding; fails on a value not below the modulus.
    pub fn from_bytes(bytes: [u8; 32]) -> (r: Option<Scalar>)
        ensures
            r.is_some() <==> le_value(bytes@) < modulus(),
            r.is_some() ==> r.unwrap().bytes() == bytes@ && r.unwrap().wf(),
    {
        decode_repr(bytes)
    }

    /// The element with the given integer value.
    pub fn from_u128(v: u128) -> (r: Scalar)
        ensures
            r.wf(),
            r.val() == v as nat,
    {
        scalar_from_u128(v)
    }

    /// The element with the given integer value.
    pub fn from_u64(v: u64) -> (r: Scalar)
        ensures
            r.wf(),
            r.val() == v as nat,
    {
        scalar_from_u128(v as u128)
    }

    /// The additive identity.
    pub fn zero() -> (r: Scalar)
        ensures
            r.wf(),
            r.val() == 0,
    {
        scalar_from_u128(0)
    }

    /// The multiplicative identity.
    pub fn one() -> (r: Scalar)
        ensures
            r.wf(),
            r.val() == 1,
    {
        scalar_from_u128(1)
    }

    /// Field addition.
    pub fn add(&self, other: &Scalar) -> (r: Scalar)
        requires
            self.wf(),
            other.wf(),
        ensures
            r.wf(),
            r.val() == fadd(self.val(), other.val()),
    {
        field_add(self, other)
    }

    /// Field multiplication.
    pub fn mul(&self, other: &Scalar) -> (r: Scalar)
        requires
            self.wf(),
            other.wf(),
        ensures
            r.wf(),
            r.val() == fmul(self.val(), other.val()),
    {
        field_mul(self, other)
    }

    /// Field subtraction.
    pub fn sub(&self, other: &Scalar) -> (r: Scalar)
        requires
            self.wf(),
            other.wf(),
        ensures
            r.wf(),
            fadd(r.val(), other.val()) == self.val(),
    {
        field_sub(self, other)
    }

    /// The multiplicative inverse; `None` for zero.
    pub fn invert(&self) -> (r: Option<Scalar>)
        requires
            self.wf(),
        ensures
            r.is_some() <==> self.val() != 0,
            r.is_some() ==> r.unwrap().wf() && fmul(r.unwrap().val(), self.val()) == 1,
    {
        field_invert(self)
    }

    /// Whether two canonical elements are equal.
    pub fn equals(&self, other: &Scalar) -> (r: bool)
        ensures
            r <==> self.bytes() == other.bytes(),
    {
        let mut i: usize = 0;
        while i < 32
            invariant
                i <= 32,
                forall|j: int| 0 <= j < i ==> self.repr@[j] == other.repr@[j],
            decreases 32 - i,
        {
            if self.repr[i] != other.repr[i] {
                return false;
            }
            i = i + 1;
        }
        assert(self.repr@ =~= other.repr@);
        true
    }
}

/// Relies on `Fq::from_u128` and `PrimeField::to_repr`: the element of value `v`
/// (below the modulus, as every `u128` is), in canonical little-endian bytes.
#[verifier::external_body]
fn scalar_from_u128(v: u128) -> (r: Scalar)
    ensures
        r.wf(),
        r.val() == v as nat,
{
    Scalar { repr: Fq::from_u128(v).to_repr() }
}

/// Relies on `PrimeField::from_repr` for `Fq`: accepts exactly the little-endian
/// encodings of values below the modulus, and `to_repr` gives them back.
#[verifier::external_body]
fn decode_repr(bytes: [u8; 32]) -> (r: Option<Scalar>)
    ensures
        r.is_some() <==> le_value(bytes@) < modulus(),
        r.is_some() ==> r.unwrap().bytes() == bytes@,
{
    match Option::<Fq>::from(Fq::from_repr(bytes)) {
        Some(f) => Some(Scalar { repr: f.to_repr() }),
        None => None,
    }
}

/// Relies on `Fq`'s `+`: addition modulo q, on canonical encodings.
#[verifier::external_body]
fn field_add(a: &Scalar, b: &Scalar) -> (r: Scalar)
    requires
        a.wf(),
        b.wf(),
    ensures
        r.wf(),
        r.val() == fadd(a.val(), b.val()),
{
    let x = Fq::from_repr(a.repr).unwrap();
    let y = Fq::from_repr(b.repr).unwrap();
    Scalar { repr: (x + y).to_repr() }
}

/// Relies on `Fq`'s `*`: multiplication modulo q, on canonical encodings.
#[verifier::external_body]
fn field_mul(a: &Scalar, b: &Scalar) -> (r: Scalar)
    requires
        a.wf(),
        b.wf(),
    ensures
        r.wf(),
        r.val() == fmul(a.val(), b.val()),
{
    let x = Fq::from_repr(a.repr).unwrap();
    let y = Fq::from_repr(b.repr).unwrap();
    Scalar { repr: (x * y).to_repr() }
}

/// Relies on `Fq`'s `-`: subtraction modulo q, on canonical encodings.
#[verifier::external_body]
fn field_sub(a: &Scalar, b: &Scalar) -> (r: Scalar)
    requires
        a.wf(),
        b.wf(),
    ensures
        r.wf(),
        fadd(r.val(), b.val()) == a.val(),
{
    let x = Fq::from_repr(a.repr).unwrap();
    let y = Fq::from_repr(b.repr).unwrap();
    Scalar { repr: (x - y).to_repr() }
}

/// Relies on `Field::invert` for `Fq`: the inverse modulo q, absent exactly for zero.
#[verifier::external_body]
fn field_invert(a: &Scalar) -> (r: Option<Scalar>)
    requires
        a.wf(),
    ensures
        r.is_some() <==> a.val() != 0,
        r.is_some() ==> r.unwrap().wf() && fmul(r.unwrap().val(), a.val()) == 1,
{
    let x = Fq::from_repr(a.repr).unwrap();
    match Option::<Fq>::from(x.invert()) {
        Some(y) => Some(Scalar { repr: y.to_repr() }),
        None => None,
    }
}

} // verus!
