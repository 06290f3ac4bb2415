//! The pairing-friendly curve BLS12-381 on which the oracle attests: scalars,
//! points of G1 and G2 held as their compressed encodings, and elements of
//! the target group Gt. The arithmetic is done by the `bls12_381` crate.

use vstd::prelude::*;
use crate::bytes::{le_nat, bytes_eq};

verus! {

/// The order of the groups G1, G2 and Gt of BLS12-381.
pub open spec fn bls_order() -> nat {
    0x73eda753299d7d483339d80809a1d80553bda402fffe5bfeffffffff00000001nat
}

#[verifier::external_type_specification]
#[verifier::external_body]
pub struct ExGt(bls12_381::Gt);

/// A scalar of BLS12-381, held as its 32-byte little-endian encoding.
#[derive(Clone, Copy)]
pub struct BlsScalar {
    pub bytes: [u8; 32],
}

/// A point of G1, held as its 48-byte compressed encoding.
#[derive(Clone, Copy)]
pub struct G1Point {
    pub bytes: [u8; 48],
}

/// A point of G2, held as its 96-byte compressed encoding.
#[derive(Clone, Copy)]
pub struct G2Point {
    pub bytes: [u8; 96],
}

/// An element of the target group Gt, together with its canonical textual
/// encoding (the hexadecimal coordinates that `bls12_381` prints). Only the
/// functions of this module make one.
pub struct GtElem {
    elem: bls12_381::Gt,
    encoding: Vec<u8>,
}

/// The compressed encoding of `k` times the generator of G1.
pub uninterp spec fn g1_enc(k: nat) -> Seq<u8>;

/// The compressed encoding of `k` times the generator of G2.
pub uninterp spec fn g2_enc(k: nat) -> Seq<u8>;

/// The encoding of `k` times the pairing of the two generators.
pub uninterp spec fn gt_enc(k: nat) -> Seq<u8>;

/// `s` encodes `v` times the generator of G1, and no other multiple below
/// the group order.
pub open spec fn g1_only(s: Seq<u8>, v: nat) -> bool {
    &&& v < bls_order()
    &&& s == g1_enc(v)
    &&& forall|j: nat| j < bls_order() && #[trigger] g1_enc(j) == s ==> j == v
}

/// `s` encodes an element of G1.
pub open spec fn is_g1(s: Seq<u8>) -> bool {
    exists|v: nat| g1_only(s, v)
}

/// The discrete logarithm of an encoded element of G1.
pub open spec fn g1_log(s: Seq<u8>) -> nat {
    choose|v: nat| g1_only(s, v)
}

/// `s` encodes `v` times the generator of G2, and no other multiple below
/// the group order.
pub open spec fn g2_only(s: Seq<u8>, v: nat) -> bool {
    &&& v < bls_order()
    &&& s == g2_enc(v)
    &&& forall|j: nat| j < bls_order() && #[trigger] g2_enc(j) == s ==> j == v
}

/// `s` encodes an element of G2.
pub open spec fn is_g2(s: Seq<u8>) -> bool {
    exists|v: nat| g2_only(s, v)
}

/// The discrete logarithm of an encoded element of G2.
pub open spec fn g2_log(s: Seq<u8>) -> nat {
    choose|v: nat| g2_only(s, v)
}

/// `s` encodes `v` times the generator of Gt, and no other multiple below
/// the group order.
pub open spec fn gt_only(s: Seq<u8>, v: nat) -> bool {
    &&& v < bls_order()
    &&& s == gt_enc(v)
    &&& forall|j: nat| j < bls_order() && #[trigger] gt_enc(j) == s ==> j == v
}

/// `s` encodes an element of Gt.
pub open spec fn is_gt(s: Seq<u8>) -> bool {
    exists|v: nat| gt_only(s, v)
}

/// The discrete logarithm of an encoded element of Gt.
pub open spec fn gt_log(s: Seq<u8>) -> nat {
    choose|v: nat| gt_only(s, v)
}

/// The discrete logarithm is the unique exponent; two encodings are equal
/// exactly when their exponents are.
pub proof fn lemma_g1_only(a: Seq<u8>, u: nat, b: Seq<u8>, v: nat)
    requires
        g1_only(a, u),
        g1_only(b, v),
    ensures
        g1_log(a) == u,
        g1_log(b) == v,
        (a == b) <==> (u == v),
{
    assert(g1_only(a, g1_log(a)));
    assert(g1_enc(g1_log(a)) == a);
    assert(g1_only(b, g1_log(b)));
    assert(g1_enc(g1_log(b)) == b);
    if a == b {
        assert(g1_enc(v) == a);
    }
}

/// The discrete logarithm is the unique exponent; two encodings are equal
/// exactly when their exponents are.
pub proof fn lemma_gt_only(a: Seq<u8>, u: nat, b: Seq<u8>, v: nat)
    requires
        gt_only(a, u),
        gt_only(b, v),
    ensures
        gt_log(a) == u,
        gt_log(b) == v,
        (a == b) <==> (u == v),
{
    assert(gt_only(a, gt_log(a)));
    assert(gt_enc(gt_log(a)) == a);
    assert(gt_only(b, gt_log(b)));
    assert(gt_enc(gt_log(b)) == b);
    if a == b {
        assert(gt_enc(v) == a);
    }
}

impl BlsScalar {
    pub open spec fn value(&self) -> nat {
        le_nat(self.bytes@)
    }

    pub open spec fn wf(&self) -> bool {
        self.value() < bls_order()
    }
}

impl G1Point {
    pub open spec fn wf(&self) -> bool {
        is_g1(self.bytes@)
    }

    pub fn equals(&self, other: &G1Point) -> (r: bool)
        ensures
            r == (self.bytes@ == other.bytes@),
    {
        bytes_eq(self.bytes.as_slice(), other.bytes.as_slice())
    }
}

impl G2Point {
    pub open spec fn wf(&self) -> bool {
        is_g2(self.bytes@)
    }
}

impl View for GtElem {
    type V = Seq<u8>;

    closed spec fn view(&self) -> Seq<u8> {
        self.encoding@
    }
}

impl GtElem {
    pub open spec fn wf(&self) -> bool {
        is_gt(self@)
    }

    /// The canonical encoding of the element.
    pub fn encoding(&self) -> (r: &[u8])
        ensures
            r@ == self@,
    {
        self.encoding.as_slice()
    }

    /// Whether two elements are equal.
    pub fn equals(&self, other: &GtElem) -> (r: bool)
        ensures
            r == (self@ == other@),
    {
        bytes_eq(self.encoding.as_slice(), other.encoding.as_slice())
    }

    /// A copy of the element.
    pub fn copy(&self) -> (r: GtElem)
        ensures
            r@ == self@,
    {
        GtElem { elem: self.elem, encoding: self.encoding.clone() }
    }
}

/// `G1Affine::generator() * s`: the encoding of `s` times the generator.
#[verifier::external_body]
pub(crate) fn g1_generator_mul(s: &BlsScalar) -> (r: G1Point)
    requires
        s.wf(),
    ensures
        r.bytes@ == g1_enc(s.value()),
        g1_only(r.bytes@, s.value()),
{
    let x = bls12_381::Scalar::from_bytes(&s.bytes).unwrap();
    G1Point { bytes: bls12_381::G1Affine::from(bls12_381::G1Affine::generator() * x).to_compressed() }
}

/// `G1Affine::generator()`: the encoding of the generator of G1.
#[verifier::external_body]
pub(crate) fn g1_generator() -> (r: G1Point)
    ensures
        g1_only(r.bytes@, 1),
{
    G1Point { bytes: bls12_381::G1Affine::generator().to_compressed() }
}

/// `group::Group::random` for `G1Projective`: a uniformly drawn point of
/// G1. Nothing is stated of which one.
#[verifier::external_body]
pub(crate) fn g1_random() -> (r: G1Point)
    ensures
        r.wf(),
{
    let p = <bls12_381::G1Projective as group::Group>::random(&mut rand::rngs::OsRng);
    G1Point { bytes: bls12_381::G1Affine::from(p).to_compressed() }
}

/// `G2Affine::generator()`: the encoding of the generator of G2.
#[verifier::external_body]
pub(crate) fn g2_generator() -> (r: G2Point)
    ensures
        r.bytes@ == g2_enc(1),
        g2_only(r.bytes@, 1),
{
    G2Point { bytes: bls12_381::G2Affine::generator().to_compressed() }
}

/// `G2Affine::identity()`: the encoding of the identity of G2.
#[verifier::external_body]
pub(crate) fn g2_identity() -> (r: G2Point)
    ensures
        g2_only(r.bytes@, 0),
{
    G2Point { bytes: bls12_381::G2Affine::identity().to_compressed() }
}

/// `G2Affine * Scalar`: `b` times the generator, times `s`, is `b * s`
/// times the generator.
#[verifier::external_body]
pub(crate) fn g2_mul(q: &G2Point, s: &BlsScalar) -> (r: G2Point)
    requires
        q.wf(),
        s.wf(),
    ensures
        g2_only(r.bytes@, (g2_log(q.bytes@) * s.value()) % bls_order()),
{
    let p = bls12_381::G2Affine::from_compressed(&q.bytes).unwrap();
    let x = bls12_381::Scalar::from_bytes(&s.bytes).unwrap();
    G2Point { bytes: bls12_381::G2Affine::from(p * x).to_compressed() }
}

/// `G2Projective + G2Projective`: `a` and `b` times the generator add up to
/// `a + b` times the generator.
#[verifier::external_body]
pub(crate) fn g2_add(p: &G2Point, q: &G2Point) -> (r: G2Point)
    requires
        p.wf(),
        q.wf(),
    ensures
        g2_only(r.bytes@, (g2_log(p.bytes@) + g2_log(q.bytes@)) % bls_order()),
{
    let x = bls12_381::G2Projective::from(bls12_381::G2Affine::from_compressed(&p.bytes).unwrap());
    let y = bls12_381::G2Affine::from_compressed(&q.bytes).unwrap();
    G2Point { bytes: bls12_381::G2Affine::from(x + y).to_compressed() }
}

/// `bls12_381::pairing`: the pairing is bilinear and non-degenerate, so the
/// pairing of `a` times the generator of G1 with `b` times the generator of
/// G2 is `a * b` times the pairing of the generators, which generates Gt.
#[verifier::external_body]
pub(crate) fn pairing(p: &G1Point, q: &G2Point) -> (r: GtElem)
    requires
        p.wf(),
        q.wf(),
    ensures
        r@ == gt_enc((g1_log(p.bytes@) * g2_log(q.bytes@)) % bls_order()),
        gt_only(r@, (g1_log(p.bytes@) * g2_log(q.bytes@)) % bls_order()),
{
    let x = bls12_381::G1Affine::from_compressed(&p.bytes).unwrap();
    let y = bls12_381::G2Affine::from_compressed(&q.bytes).unwrap();
    let t = bls12_381::pairing(&x, &y);
    GtElem { elem: t, encoding: format!("{}", t).into_bytes() }
}

/// `Gt * Scalar`: `k` times the generator of Gt, times `s`, is `k * s` times
/// the generator.
#[verifier::external_body]
pub(crate) fn gt_mul(t: &GtElem, s: &BlsScalar) -> (r: GtElem)
    requires
        t.wf(),
        s.wf(),
    ensures
        gt_only(r@, (gt_log(t@) * s.value()) % bls_order()),
{
    let x = bls12_381::Scalar::from_bytes(&s.bytes).unwrap();
    let u = t.elem * x;
    GtElem { elem: u, encoding: format!("{}", u).into_bytes() }
}

/// `Gt + Gt`: `a` and `b` times the generator add up to `a + b` times it.
#[verifier::external_body]
pub(crate) fn gt_add(t: &GtElem, u: &GtElem) -> (r: GtElem)
    requires
        t.wf(),
        u.wf(),
    ensures
        gt_only(r@, (gt_log(t@) + gt_log(u@)) % bls_order()),
{
    let v = t.elem + u.elem;
    GtElem { elem: v, encoding: format!("{}", v).into_bytes() }
}

/// `Gt - Gt`: `a` times the generator less `b` times it is `a - b` times it.
#[verifier::external_body]
pub(crate) fn gt_sub(t: &GtElem, u: &GtElem) -> (r: GtElem)
    requires
        t.wf(),
        u.wf(),
    ensures
        gt_only(r@, ((gt_log(t@) - gt_log(u@)) % (bls_order() as int)) as nat),
{
    let v = t.elem - u.elem;
    GtElem { elem: v, encoding: format!("{}", v).into_bytes() }
}

} // verus!
