//! The secp256k1 group on which the loan's payments are signed: scalars and
//! points held as their canonical encodings, arithmetic by `secp256kfun`.

use vstd::prelude::*;
use crate::bytes::{be_nat, all_zero, bytes_eq, is_all_zero, lemma_be_nat_zero, lemma_be_nat_injective};
use secp256kfun::marker::{Secret, Public, Zero, Normal};

verus! {

/// The order of the secp256k1 group.
pub open spec fn secp_order() -> nat {
    0xFFFFFFFFFFFFFFFFFFFFFFFFFFFFFFFEBAAEDCE6AF48A03BBFD25E8CD0364141nat
}

/// A scalar of secp256k1, held as its 32-byte big-endian encoding.
#[derive(Clone, Copy)]
pub struct ChainScalar {
    pub bytes: [u8; 32],
}

/// A point of secp256k1 (the point at infinity included), held as its
/// 33-byte compressed encoding; the point at infinity is 33 zero bytes.
#[derive(Clone, Copy)]
pub struct ChainPoint {
    pub bytes: [u8; 33],
}

/// The compressed encoding of `k` times the generator of secp256k1.
pub uninterp spec fn chain_point_enc(k: nat) -> Seq<u8>;

/// `p` is the encoding of `v` times the generator, and of no other
/// multiple below the group order.
pub open spec fn encodes_only(p: Seq<u8>, v: nat) -> bool {
    &&& p == chain_point_enc(v)
    &&& forall|j: nat| j < secp_order() && #[trigger] chain_point_enc(j) == p ==> j == v
}

/// The encoding of `v` times the generator, of no other multiple, and all
/// zero exactly for the point at infinity.
pub open spec fn is_multiple(p: Seq<u8>, v: nat) -> bool {
    &&& v < secp_order()
    &&& encodes_only(p, v)
    &&& (crate::bytes::all_zero(p) <==> v == 0)
}

/// `p` encodes a point of the group.
pub open spec fn is_chain_point(p: Seq<u8>) -> bool {
    exists|v: nat| is_multiple(p, v)
}

/// The discrete logarithm of an encoded point.
pub open spec fn chain_log(p: Seq<u8>) -> nat {
    choose|v: nat| is_multiple(p, v)
}

/// The discrete logarithm is the unique exponent; two encodings are equal
/// exactly when their exponents are.
pub proof fn lemma_chain_only(a: Seq<u8>, u: nat, b: Seq<u8>, v: nat)
    requires
        is_multiple(a, u),
        is_multiple(b, v),
    ensures
        chain_log(a) == u,
        chain_log(b) == v,
        (a == b) <==> (u == v),
{
    assert(is_multiple(a, chain_log(a)));
    assert(chain_point_enc(chain_log(a)) == a);
    assert(is_multiple(b, chain_log(b)));
    assert(chain_point_enc(chain_log(b)) == b);
    if a == b {
        assert(chain_point_enc(v) == a);
    }
}

/// Subtracting the second summand of a sum modulo the group order leaves
/// the first, reduced.
pub proof fn lemma_sub_summand(a: int, b: int)
    requires
        0 <= a,
        0 <= b < secp_order(),
    ensures
        (((a + b) % (secp_order() as int)) - b) % (secp_order() as int) == a % (secp_order() as int),
{
    let n = secp_order() as int;
    vstd::arithmetic::div_mod::lemma_small_mod(b as nat, n as nat);
    vstd::arithmetic::div_mod::lemma_sub_mod_noop(a + b, b, n);
}

/// Reducing a partial sum modulo the group order does not change the sum.
pub proof fn lemma_add_assoc_mod(a: int, b: int, c: int)
    requires
        0 <= a,
        0 <= b,
        0 <= c < secp_order(),
    ensures
        ((a + b) % (secp_order() as int) + c) % (secp_order() as int) == (a + (b + c)) % (secp_order() as int),
{
    let n = secp_order() as int;
    vstd::arithmetic::div_mod::lemma_small_mod(c as nat, n as nat);
    vstd::arithmetic::div_mod::lemma_add_mod_noop(a + b, c, n);
}

impl ChainScalar {
    /// The number that the scalar stands for.
    pub open spec fn value(&self) -> nat {
        be_nat(self.bytes@)
    }

    /// The encoding is canonical: the number is below the group order.
    pub open spec fn wf(&self) -> bool {
        self.value() < secp_order()
    }

    /// Whether the scalar is zero.
    pub fn is_zero(&self) -> (r: bool)
        ensures
            r == (self.value() == 0),
    {
        proof {
            lemma_be_nat_zero(self.bytes@);
        }
        is_all_zero(self.bytes.as_slice())
    }

    /// Whether two scalars are equal.
    pub fn equals(&self, other: &ChainScalar) -> (r: bool)
        ensures
            r == (self.value() == other.value()),
    {
        proof {
            if self.value() == other.value() {
                lemma_be_nat_injective(self.bytes@, other.bytes@);
            }
        }
        bytes_eq(self.bytes.as_slice(), other.bytes.as_slice())
    }

    /// The 32-byte big-endian encoding.
    pub fn to_bytes(&self) -> (r: [u8; 32])
        ensures
            r@ == self.bytes@,
    {
        self.bytes
    }
}

impl ChainPoint {
    /// The encoding is that of a point of the group.
    pub open spec fn wf(&self) -> bool {
        is_chain_point(self.bytes@)
    }

    /// Whether this is the point at infinity.
    pub fn is_zero(&self) -> (r: bool)
        ensures
            r == all_zero(self.bytes@),
    {
        is_all_zero(self.bytes.as_slice())
    }

    /// Whether two points are equal.
    pub fn equals(&self, other: &ChainPoint) -> (r: bool)
        ensures
            r == (self.bytes@ == other.bytes@),
    {
        bytes_eq(self.bytes.as_slice(), other.bytes.as_slice())
    }

    /// The 33-byte compressed encoding.
    pub fn to_bytes(&self) -> (r: [u8; 33])
        ensures
            r@ == self.bytes@,
    {
        self.bytes
    }
}

/// `secp256kfun::Scalar::from_bytes_mod_order`: the number the bytes
/// denote, reduced modulo the group order.
#[verifier::external_body]
pub(crate) fn chain_scalar_from_bytes_mod_order(bytes: [u8; 32]) -> (r: ChainScalar)
    ensures
        r.wf(),
        r.value() == be_nat(bytes@) % secp_order(),
{
    let s = secp256kfun::Scalar::<Secret, Zero>::from_bytes_mod_order(bytes);
    ChainScalar { bytes: s.to_bytes() }
}

/// `secp256kfun::op::scalar_add`: addition modulo the group order.
#[verifier::external_body]
pub(crate) fn chain_scalar_add(a: &ChainScalar, b: &ChainScalar) -> (r: ChainScalar)
    requires
        a.wf(),
        b.wf(),
    ensures
        r.wf(),
        r.value() == (a.value() + b.value()) % secp_order(),
{
    let x = secp256kfun::Scalar::<Secret, Zero>::from_bytes(a.bytes).unwrap();
    let y = secp256kfun::Scalar::<Secret, Zero>::from_bytes(b.bytes).unwrap();
    ChainScalar { bytes: secp256kfun::op::scalar_add(x, y).to_bytes() }
}

/// `secp256kfun::op::scalar_sub`: subtraction modulo the group order.
#[verifier::external_body]
pub(crate) fn chain_scalar_sub(a: &ChainScalar, b: &ChainScalar) -> (r: ChainScalar)
    requires
        a.wf(),
        b.wf(),
    ensures
        r.wf(),
        r.value() == (a.value() - b.value()) % (secp_order() as int),
{
    let x = secp256kfun::Scalar::<Secret, Zero>::from_bytes(a.bytes).unwrap();
    let y = secp256kfun::Scalar::<Secret, Zero>::from_bytes(b.bytes).unwrap();
    ChainScalar { bytes: secp256kfun::op::scalar_sub(x, y).to_bytes() }
}

/// `secp256kfun::op::scalar_mul`: multiplication modulo the group order.
#[verifier::external_body]
pub(crate) fn chain_scalar_mul(a: &ChainScalar, b: &ChainScalar) -> (r: ChainScalar)
    requires
        a.wf(),
        b.wf(),
    ensures
        r.wf(),
        r.value() == (a.value() * b.value()) % secp_order(),
{
    let x = secp256kfun::Scalar::<Secret, Zero>::from_bytes(a.bytes).unwrap();
    let y = secp256kfun::Scalar::<Secret, Zero>::from_bytes(b.bytes).unwrap();
    ChainScalar { bytes: secp256kfun::op::scalar_mul(x, y).to_bytes() }
}

/// `secp256kfun::op::scalar_mul_point` on the generator `G`, normalised:
/// the encoding of `s` times the generator. The group has prime order, so no
/// other multiple has that encoding, and only zero gives the point at
/// infinity.
#[verifier::external_body]
pub(crate) fn chain_base_mul(s: &ChainScalar) -> (r: ChainPoint)
    requires
        s.wf(),
    ensures
        r.bytes@ == chain_point_enc(s.value()),
        is_multiple(r.bytes@, s.value()),
{
    let x = secp256kfun::Scalar::<Secret, Zero>::from_bytes(s.bytes).unwrap();
    let p = secp256kfun::op::scalar_mul_point(x, secp256kfun::G).normalize();
    ChainPoint { bytes: p.to_bytes() }
}

/// `secp256kfun::op::scalar_mul_point`, normalised: `k` times the generator,
/// times `s`, is `s * k` times the generator.
#[verifier::external_body]
pub(crate) fn chain_point_mul(s: &ChainScalar, p: &ChainPoint) -> (r: ChainPoint)
    requires
        s.wf(),
        p.wf(),
    ensures
        is_multiple(r.bytes@, (s.value() * chain_log(p.bytes@)) % secp_order()),
{
    let x = secp256kfun::Scalar::<Secret, Zero>::from_bytes(s.bytes).unwrap();
    let q = secp256kfun::Point::<Normal, Public, Zero>::from_bytes(p.bytes).unwrap();
    ChainPoint { bytes: secp256kfun::op::scalar_mul_point(x, q).normalize().to_bytes() }
}

/// `secp256kfun::op::point_add`, normalised: `a` and `b` times the generator
/// add up to `a + b` times the generator.
#[verifier::external_body]
pub(crate) fn chain_point_add(p: &ChainPoint, q: &ChainPoint) -> (r: ChainPoint)
    requires
        p.wf(),
        q.wf(),
    ensures
        is_multiple(r.bytes@, (chain_log(p.bytes@) + chain_log(q.bytes@)) % secp_order()),
{
    let x = secp256kfun::Point::<Normal, Public, Zero>::from_bytes(p.bytes).unwrap();
    let y = secp256kfun::Point::<Normal, Public, Zero>::from_bytes(q.bytes).unwrap();
    ChainPoint { bytes: secp256kfun::op::point_add(x, y).normalize().to_bytes() }
}

/// `secp256kfun::op::point_sub`, normalised: `a` times the generator less
/// `b` times the generator is `a - b` times the generator.
#[verifier::external_body]
pub(crate) fn chain_point_sub(p: &ChainPoint, q: &ChainPoint) -> (r: ChainPoint)
    requires
        p.wf(),
        q.wf(),
    ensures
        is_multiple(
            r.bytes@,
            ((chain_log(p.bytes@) - chain_log(q.bytes@)) % (secp_order() as int)) as nat,
        ),
{
    let x = secp256kfun::Point::<Normal, Public, Zero>::from_bytes(p.bytes).unwrap();
    let y = secp256kfun::Point::<Normal, Public, Zero>::from_bytes(q.bytes).unwrap();
    ChainPoint { bytes: secp256kfun::op::point_sub(x, y).normalize().to_bytes() }
}

} // verus!
