//! Witness encryption based on signatures (WES): a secp256k1 scalar is
//! encrypted so that a BLS signature of the oracle on a message decrypts it.
//!
//! A ciphertext is `c1 = r1 G1`, `c2 = r1 e(pk, H(m)) + r2` and
//! `c3 = SHA-256(r2) xor sec`; the signature `sk H(m)` removes the mask.

use vstd::prelude::*;
use vstd::arithmetic::div_mod::{lemma_small_mod, lemma_mod_bound, lemma_sub_mod_noop};
use crate::bytes::{be_nat, xor_seq, xor32, bytes_eq, lemma_xor_twice};
use crate::hashing::sha256_digest;
use crate::chain::{
    ChainScalar, ChainPoint, secp_order, is_multiple, chain_base_mul,
    chain_scalar_from_bytes_mod_order,
};
use crate::curve::{
    BlsScalar, G1Point, G2Point, GtElem, bls_order, g1_only, g1_log, g2_log, gt_only, gt_log,
    gt_enc, g1_generator_mul, g2_identity, g2_add, pairing, gt_mul, gt_add, gt_sub, lemma_gt_only,
    lemma_g1_only,
};
use crate::common::{gt_to_bytes, hash_to_g2, sample_rand_chain_scalar, sample_rand_scalar, sample_rand_gt};
use crate::signbls::{hash_log, hash_sum, lemma_hash_sum_permutation};

verus! {

/// A WES ciphertext.
pub struct WESCiphertext {
    pub c1: G1Point,
    pub c2: GtElem,
    pub c3: [u8; 32],
}

/// The randomness of a WES ciphertext drawn ahead of the message: the
/// secret `ri` with its point `ri_pub`, the coins `r1` and `r2`, and the
/// parts `c1` and `c3` that do not depend on the message.
pub struct PreComp {
    pub c1: G1Point,
    pub c3: [u8; 32],
    pub r1: BlsScalar,
    pub r2: GtElem,
    pub ri: ChainScalar,
    pub ri_pub: ChainPoint,
}

/// Why a ciphertext does not match the coins it is checked against.
#[derive(Clone, Copy, PartialEq, Eq, Debug)]
pub enum WesError {
    InvalidC1,
    InvalidC2,
    InvalidC3,
}

/// The discrete logarithm of `c2` for a message element of logarithm
/// `mlog` and coins `r1`, `r2log`: `mlog * r1 + r2log`.
pub open spec fn wes_c2_log(mlog: nat, r1: nat, r2log: nat) -> nat {
    ((mlog * r1) % bls_order() + r2log) % bls_order()
}

/// The third part: the key of `r2` masks the secret's bytes.
pub open spec fn wes_c3(r2: Seq<u8>, sec: Seq<u8>) -> Seq<u8> {
    xor_seq(sha256_digest(r2), sec)
}

/// The logarithm of the mask that a signature of logarithm `sig_log` leaves
/// of `c2`: `c2 - e(c1, sig)`.
pub open spec fn wes_mask_log(c1: Seq<u8>, c2: Seq<u8>, sig_log: nat) -> nat {
    ((gt_log(c2) - (g1_log(c1) * sig_log) % bls_order()) % (bls_order() as int)) as nat
}

/// The bytes that a signature of logarithm `sig_log` recovers.
pub open spec fn wes_dec_bytes(c1: Seq<u8>, c2: Seq<u8>, c3: Seq<u8>, sig_log: nat) -> Seq<u8> {
    xor_seq(sha256_digest(gt_enc(wes_mask_log(c1, c2, sig_log))), c3)
}

/// The number that a signature of logarithm `sig_log` recovers.
pub open spec fn wes_dec_spec(c1: Seq<u8>, c2: Seq<u8>, c3: Seq<u8>, sig_log: nat) -> nat {
    be_nat(wes_dec_bytes(c1, c2, c3, sig_log)) % secp_order()
}

impl WESCiphertext {
    pub open spec fn wf(&self) -> bool {
        self.c1.wf() && self.c2.wf()
    }

    /// `self` encrypts the bytes `sec` for a message element of logarithm
    /// `mlog`, with the coins `r1` and `r2`.
    pub open spec fn encrypts(&self, mlog: nat, sec: Seq<u8>, r1: nat, r2: Seq<u8>) -> bool {
        &&& g1_only(self.c1.bytes@, r1)
        &&& gt_only(self.c2@, wes_c2_log(mlog, r1, gt_log(r2)))
        &&& self.c3@ == wes_c3(r2, sec)
    }

    /// A copy of the ciphertext.
    pub fn copy(&self) -> (r: WESCiphertext)
        ensures
            r.c1 == self.c1,
            r.c2@ == self.c2@,
            r.c3 == self.c3,
    {
        WESCiphertext { c1: self.c1, c2: self.c2.copy(), c3: self.c3 }
    }

    /// Whether two ciphertexts are equal.
    pub fn equals(&self, other: &WESCiphertext) -> (r: bool)
        ensures
            r == (self.c1.bytes@ == other.c1.bytes@ && self.c2@ == other.c2@ && self.c3@ == other.c3@),
    {
        self.c1.equals(&other.c1) && self.c2.equals(&other.c2) && bytes_eq(self.c3.as_slice(), other.c3.as_slice())
    }

    /// The precomputation of a ciphertext with the secret `ri` and the
    /// coins `r1` and `r2`.
    pub fn precompute_from(ri: ChainScalar, r1: BlsScalar, r2: GtElem) -> (pre: PreComp)
        requires
            ri.wf(),
            r1.wf(),
            r2.wf(),
        ensures
            pre.wf(),
            pre.ri == ri,
            pre.r1 == r1,
            pre.r2@ == r2@,
            g1_only(pre.c1.bytes@, r1.value()),
            pre.c3@ == wes_c3(r2@, ri.bytes@),
            is_multiple(pre.ri_pub.bytes@, ri.value()),
    {
        let ri_pub = chain_base_mul(&ri);
        let c1 = g1_generator_mul(&r1);
        let key = gt_to_bytes(&r2);
        let c3 = xor32(&key, &ri.bytes);
        PreComp { c1, c3, r1, r2, ri, ri_pub }
    }

    /// Draws the randomness of a ciphertext ahead of its message.
    pub fn precompute() -> (pre: PreComp)
        ensures
            pre.honest(),
    {
        let ri = sample_rand_chain_scalar();
        let r1 = sample_rand_scalar();
        let r2 = sample_rand_gt();
        WESCiphertext::precompute_from(ri, r1, r2)
    }

    /// Encrypts `sec` under `pk` and `m` with fresh coins, which it returns.
    pub fn new(pk: G1Point, m: &str, sec: ChainScalar) -> (res: (WESCiphertext, BlsScalar, GtElem))
        requires
            pk.wf(),
        ensures
            res.1.wf(),
            res.2.wf(),
            res.0.encrypts((g1_log(pk.bytes@) * hash_log(m@)) % bls_order(), sec.bytes@, res.1.value(), res.2@),
    {
        let r1 = sample_rand_scalar();
        let r2 = sample_rand_gt();
        let c = wes_enc(pk, m, sec, r1, r2.copy());
        (c, r1, r2)
    }

    /// Completes a precomputed ciphertext for the message element `m`.
    pub fn new_from_precom(pre: PreComp, m: &GtElem) -> (c: WESCiphertext)
        requires
            pre.wf(),
            m.wf(),
        ensures
            c.c1 == pre.c1,
            c.c3 == pre.c3,
            gt_only(c.c2@, wes_c2_log(gt_log(m@), pre.r1.value(), gt_log(pre.r2@))),
    {
        let t = gt_mul(m, &pre.r1);
        let c2 = gt_add(&t, &pre.r2);
        WESCiphertext { c1: pre.c1, c2, c3: pre.c3 }
    }

    /// Completes a precomputed ciphertext for the element `m` that pairs the
    /// key with the aggregate hash of a list of messages.
    pub fn new_from_precom_vector_m(pre: PreComp, m: &GtElem) -> (c: WESCiphertext)
        requires
            pre.wf(),
            m.wf(),
        ensures
            c.c1 == pre.c1,
            c.c3 == pre.c3,
            gt_only(c.c2@, wes_c2_log(gt_log(m@), pre.r1.value(), gt_log(pre.r2@))),
    {
        WESCiphertext::new_from_precom(pre, m)
    }

    /// Decrypts with the signature `sig`; `None` where the recovered scalar
    /// is zero.
    pub fn decrypt(self, sig: G2Point) -> (sec: Option<ChainScalar>)
        requires
            self.wf(),
            sig.wf(),
        ensures
            match sec {
                Some(s) => s.wf() && s.value() == wes_dec_spec(self.c1.bytes@, self.c2@, self.c3@, g2_log(sig.bytes@))
                    && s.value() != 0,
                None => wes_dec_spec(self.c1.bytes@, self.c2@, self.c3@, g2_log(sig.bytes@)) == 0,
            },
    {
        let sec = wes_dec(sig, self);
        if sec.is_zero() {
            None
        } else {
            Some(sec)
        }
    }

    /// Checks that the ciphertext is the encryption of `sec` for the message
    /// element `m` with the coins `r1` and `r2`, part by part.
    pub fn reconstruct(self, m: &GtElem, sec: ChainScalar, r1: BlsScalar, r2: &GtElem) -> (res: Result<(), WesError>)
        requires
            self.wf(),
            m.wf(),
            r1.wf(),
            r2.wf(),
        ensures
            res is Ok <==> self.encrypts(gt_log(m@), sec.bytes@, r1.value(), r2@),
            res == Err::<(), WesError>(WesError::InvalidC1) <==> !g1_only(self.c1.bytes@, r1.value()),
            res == Err::<(), WesError>(WesError::InvalidC2) <==> g1_only(self.c1.bytes@, r1.value())
                && !gt_only(self.c2@, wes_c2_log(gt_log(m@), r1.value(), gt_log(r2@))),
    {
        let new_c1 = g1_generator_mul(&r1);
        let t = gt_mul(m, &r1);
        let new_c2 = gt_add(&t, r2);
        let key = gt_to_bytes(r2);
        let new_c3 = xor32(&key, &sec.bytes);
        proof {
            lemma_g1_only(self.c1.bytes@, g1_log(self.c1.bytes@), new_c1.bytes@, r1.value());
            lemma_gt_only(self.c2@, gt_log(self.c2@), new_c2@, wes_c2_log(gt_log(m@), r1.value(), gt_log(r2@)));
        }
        if !self.c1.equals(&new_c1) {
            return Err(WesError::InvalidC1);
        }
        if !self.c2.equals(&new_c2) {
            return Err(WesError::InvalidC2);
        }
        if !bytes_eq(self.c3.as_slice(), new_c3.as_slice()) {
            return Err(WesError::InvalidC3);
        }
        Ok(())
    }

    /// `reconstruct` for a ciphertext whose message element pairs the key
    /// with an aggregate of messages.
    pub fn reconstruct_vector_m(self, m: &GtElem, sec: ChainScalar, r1: BlsScalar, r2: &GtElem) -> (res: Result<(), WesError>)
        requires
            self.wf(),
            m.wf(),
            r1.wf(),
            r2.wf(),
        ensures
            res is Ok <==> self.encrypts(gt_log(m@), sec.bytes@, r1.value(), r2@),
    {
        self.reconstruct(m, sec, r1, r2)
    }
}

impl PreComp {
    pub open spec fn wf(&self) -> bool {
        &&& self.c1.wf()
        &&& self.r1.wf()
        &&& self.r2.wf()
        &&& self.ri.wf()
        &&& self.ri_pub.wf()
    }

    /// The precomputation was made as `precompute` makes it, with a
    /// non-zero secret.
    pub open spec fn honest(&self) -> bool {
        &&& self.wf()
        &&& self.ri.value() != 0
        &&& g1_only(self.c1.bytes@, self.r1.value())
        &&& self.c3@ == wes_c3(self.r2@, self.ri.bytes@)
        &&& is_multiple(self.ri_pub.bytes@, self.ri.value())
    }

    /// A copy of the precomputation.
    pub fn copy(&self) -> (r: PreComp)
        ensures
            r.c1 == self.c1,
            r.c3 == self.c3,
            r.r1 == self.r1,
            r.r2@ == self.r2@,
            r.ri == self.ri,
            r.ri_pub == self.ri_pub,
    {
        PreComp {
            c1: self.c1,
            c3: self.c3,
            r1: self.r1,
            r2: self.r2.copy(),
            ri: self.ri,
            ri_pub: self.ri_pub,
        }
    }
}

/// The discrete logarithm of the element that pairs the key `pk` with the
/// hash of `m`.
pub open spec fn message_log(pk: Seq<u8>, m: Seq<char>) -> nat {
    (g1_log(pk) * hash_log(m)) % bls_order()
}

/// The element that pairs the key `pk` with the hash of `m`.
pub fn message_element(pk: &G1Point, m: &str) -> (t: GtElem)
    requires
        pk.wf(),
    ensures
        gt_only(t@, (g1_log(pk.bytes@) * hash_log(m@)) % bls_order()),
{
    let h = hash_to_g2(m);
    pairing(pk, &h)
}

/// The element that pairs the key `pk` with the aggregate hash of the
/// first `n` messages of `m`.
pub fn prefix_message_element(pk: &G1Point, m: &Vec<String>, n: usize) -> (t: GtElem)
    requires
        pk.wf(),
        n <= m@.len(),
    ensures
        gt_only(t@, (g1_log(pk.bytes@) * hash_sum(m@.map_values(|s: String| s@).take(n as int))) % bls_order()),
{
    let ghost ms = m@.map_values(|s: String| s@);
    let mut agg_m_hash = g2_identity();
    let mut i: usize = 0;
    while i < n
        invariant
            i <= n,
            n <= m@.len(),
            ms == m@.map_values(|s: String| s@),
            crate::curve::g2_only(agg_m_hash.bytes@, hash_sum(ms.take(n as int).take(i as int))),
        decreases n - i,
    {
        let affine = hash_to_g2(m[i].as_str());
        agg_m_hash = g2_add(&agg_m_hash, &affine);
        proof {
            assert(ms.take(n as int).take(i + 1).drop_last() =~= ms.take(n as int).take(i as int));
        }
        i = i + 1;
    }
    assert(ms.take(n as int).take(n as int) =~= ms.take(n as int));
    pairing(pk, &agg_m_hash)
}

/// The element that pairs the key `pk` with the aggregate hash of the
/// messages `m`.
pub fn aggregate_message_element(pk: &G1Point, m: &Vec<String>) -> (t: GtElem)
    requires
        pk.wf(),
    ensures
        gt_only(t@, (g1_log(pk.bytes@) * hash_sum(m@.map_values(|s: String| s@))) % bls_order()),
{
    let t = prefix_message_element(pk, m, m.len());
    assert(m@.map_values(|s: String| s@).take(m@.len() as int) =~= m@.map_values(|s: String| s@));
    t
}

/// A WES ciphertext whose coins and whose `c1`, `c3` were drawn ahead: the
/// second part for `pk` and `m`.
pub fn wes_enc_precom(pk: G1Point, m: &str, r1: BlsScalar, r2: GtElem, c1: G1Point, c3: [u8; 32]) -> (c: WESCiphertext)
    requires
        pk.wf(),
        r1.wf(),
        r2.wf(),
    ensures
        c.c1 == c1,
        c.c3 == c3,
        gt_only(c.c2@, wes_c2_log((g1_log(pk.bytes@) * hash_log(m@)) % bls_order(), r1.value(), gt_log(r2@))),
{
    let e = message_element(&pk, m);
    let t = gt_mul(&e, &r1);
    let c2 = gt_add(&t, &r2);
    WESCiphertext { c1, c2, c3 }
}

/// `wes_enc_precom` for a list of messages, through their aggregate hash.
pub fn wes_enc_precom_vector(pk: G1Point, m: &Vec<String>, r1: BlsScalar, r2: GtElem, c1: G1Point, c3: [u8; 32]) -> (c: WESCiphertext)
    requires
        pk.wf(),
        r1.wf(),
        r2.wf(),
    ensures
        c.c1 == c1,
        c.c3 == c3,
        gt_only(c.c2@, wes_c2_log((g1_log(pk.bytes@) * hash_sum(m@.map_values(|s: String| s@))) % bls_order(), r1.value(), gt_log(r2@))),
{
    let e = aggregate_message_element(&pk, m);
    let t = gt_mul(&e, &r1);
    let c2 = gt_add(&t, &r2);
    WESCiphertext { c1, c2, c3 }
}

/// Encrypts `sec` under `pk` and `m` with the coins `r1` and `r2`.
pub fn wes_enc(pk: G1Point, m: &str, sec: ChainScalar, r1: BlsScalar, r2: GtElem) -> (c: WESCiphertext)
    requires
        pk.wf(),
        r1.wf(),
        r2.wf(),
    ensures
        c.wf(),
        c.encrypts((g1_log(pk.bytes@) * hash_log(m@)) % bls_order(), sec.bytes@, r1.value(), r2@),
{
    let c1 = g1_generator_mul(&r1);
    let key = gt_to_bytes(&r2);
    let c3 = xor32(&key, &sec.bytes);
    wes_enc_precom(pk, m, r1, r2, c1, c3)
}

/// Decrypts with the signature `sig`: the scalar that the unmasked bytes
/// denote, reduced modulo the group order.
pub fn wes_dec(sig: G2Point, c: WESCiphertext) -> (sec: ChainScalar)
    requires
        sig.wf(),
        c.wf(),
    ensures
        sec.wf(),
        sec.value() == wes_dec_spec(c.c1.bytes@, c.c2@, c.c3@, g2_log(sig.bytes@)),
{
    let e = pairing(&c.c1, &sig);
    let r = gt_sub(&c.c2, &e);
    let key = gt_to_bytes(&r);
    let sec_bytes = xor32(&key, &c.c3);
    proof {
        crate::curve::lemma_gt_only(r@, gt_log(r@), r@, gt_log(r@));
    }
    chain_scalar_from_bytes_mod_order(sec_bytes)
}

/// A signature whose logarithm is that of the message element recovers the
/// encrypted bytes.
pub proof fn lemma_wes_dec_bytes(c: WESCiphertext, mlog: nat, sec: Seq<u8>, r1: nat, r2: Seq<u8>, sig_log: nat)
    requires
        c.encrypts(mlog, sec, r1, r2),
        is_gt_elem(r2),
        sec.len() == 32,
        mlog < bls_order(),
        sig_log == mlog,
    ensures
        wes_dec_bytes(c.c1.bytes@, c.c2@, c.c3@, sig_log) == sec,
{
    let q = bls_order() as int;
    let r2l = gt_log(r2);
    lemma_gt_only(r2, r2l, r2, r2l);
    lemma_gt_only(c.c2@, wes_c2_log(mlog, r1, r2l), c.c2@, wes_c2_log(mlog, r1, r2l));
    lemma_g1_only(c.c1.bytes@, r1, c.c1.bytes@, r1);
    let a = ((mlog * r1) % bls_order()) as int;
    lemma_mod_bound((mlog * r1) as int, q);
    vstd::arithmetic::mul::lemma_mul_is_commutative(r1 as int, mlog as int);
    // c2 - e(c1, sig) = (a + r2l) - a
    lemma_sub_mod_noop(a + r2l, a, q);
    lemma_small_mod(a as nat, q as nat);
    lemma_small_mod(r2l, q as nat);
    assert(wes_mask_log(c.c1.bytes@, c.c2@, sig_log) == r2l);
    assert(c.c3@.len() == 32);
    assert(sha256_digest(r2).len() == 32);
    lemma_xor_twice(sha256_digest(r2), sec);
}

/// `r2` encodes an element of Gt.
pub open spec fn is_gt_elem(r2: Seq<u8>) -> bool {
    crate::curve::is_gt(r2)
}

/// Decryption correctness: a BLS signature on `m` under the key of
/// logarithm `x` decrypts a ciphertext made for the key and `m` back to the
/// encrypted scalar.
pub proof fn lemma_wes_decrypt(c: WESCiphertext, x: nat, m: Seq<char>, sec: ChainScalar, r1: nat, r2: Seq<u8>, sig: Seq<u8>)
    requires
        x < bls_order(),
        sec.wf(),
        is_gt_elem(r2),
        c.encrypts((x * hash_log(m)) % bls_order(), sec.bytes@, r1, r2),
        crate::signbls::bls_verify_spec(x, m, sig),
    ensures
        wes_dec_spec(c.c1.bytes@, c.c2@, c.c3@, g2_log(sig)) == sec.value(),
{
    lemma_mod_bound((x * hash_log(m)) as int, bls_order() as int);
    lemma_wes_dec_bytes(c, (x * hash_log(m)) % bls_order(), sec.bytes@, r1, r2, g2_log(sig));
    lemma_small_mod(sec.value(), secp_order());
}

/// The aggregate encryption does not depend on the order of the messages:
/// with the same key and coins, two lists that are reorderings of each
/// other give the same second part (as `wes_enc_precom_vector` makes it).
pub proof fn lemma_wes_vector_order(pk: G1Point, a: Seq<Seq<char>>, b: Seq<Seq<char>>, r1: nat, r2: nat, c2: Seq<u8>, d2: Seq<u8>)
    requires
        a.to_multiset() == b.to_multiset(),
        gt_only(c2, wes_c2_log((g1_log(pk.bytes@) * hash_sum(a)) % bls_order(), r1, r2)),
        gt_only(d2, wes_c2_log((g1_log(pk.bytes@) * hash_sum(b)) % bls_order(), r1, r2)),
    ensures
        c2 == d2,
{
    lemma_hash_sum_permutation(a, b);
    lemma_gt_only(c2, wes_c2_log((g1_log(pk.bytes@) * hash_sum(a)) % bls_order(), r1, r2), d2,
        wes_c2_log((g1_log(pk.bytes@) * hash_sum(b)) % bls_order(), r1, r2));
}

} // verus!
