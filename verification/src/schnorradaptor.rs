//! Schnorr signatures and adaptor signatures over secp256k1: a
//! pre-signature for a statement `Y` becomes a signature once adapted with
//! the witness of `Y`.

use vstd::prelude::*;
use vstd::arithmetic::div_mod::{lemma_sub_mod_noop, lemma_add_mod_noop, lemma_small_mod, lemma_mod_bound};

use crate::chain::{
    ChainScalar, ChainPoint, secp_order, chain_point_enc, chain_log, is_multiple, chain_scalar_add,
    chain_scalar_mul, chain_base_mul, chain_point_mul, chain_point_add, chain_point_sub,
};
use crate::common::{sample_rand_chain_scalar, schnorr_hash, schnorr_challenge};

verus! {

/// A Schnorr key pair: the secret key and its public point.
#[derive(Clone, Copy)]
pub struct SchnorrPair {
    sk: ChainScalar,
    pub pk: ChainPoint,
}

/// A Schnorr signature `(s, r)`: `r` is the challenge.
#[derive(Clone, Copy)]
pub struct SchnorrSig {
    s: ChainScalar,
    r: ChainScalar,
}

/// A Schnorr pre-signature `(s, r)`, to be adapted by a witness.
#[derive(Clone, Copy)]
pub struct SchnorrPreSig {
    pub s: ChainScalar,
    pub r: ChainScalar,
}

impl SchnorrPair {
    /// The secret key.
    pub closed spec fn secret(&self) -> nat {
        self.sk.value()
    }

    /// The encoding of the public key.
    pub closed spec fn public(&self) -> Seq<u8> {
        self.pk.bytes@
    }

    /// The secret key is a non-zero scalar and the public key is its
    /// multiple of the generator.
    pub open spec fn wf(&self) -> bool {
        &&& 0 < self.secret() < secp_order()
        &&& is_multiple(self.public(), self.secret())
    }

    /// The public key.
    pub fn public_key(&self) -> (r: ChainPoint)
        ensures
            r.bytes@ == self.public(),
            self.wf() ==> r.wf(),
    {
        self.pk
    }
}

impl SchnorrSig {
    /// The pair `(s, r)` of numbers.
    pub closed spec fn values(&self) -> (nat, nat) {
        (self.s.value(), self.r.value())
    }

    /// Both scalars are canonical.
    pub closed spec fn wf(&self) -> bool {
        self.s.wf() && self.r.wf()
    }

    /// The scalar `s`.
    pub fn s(&self) -> (r: ChainScalar)
        ensures
            r.value() == self.values().0,
            self.wf() ==> r.wf(),
    {
        self.s
    }

    /// The challenge `r`.
    pub fn r(&self) -> (r: ChainScalar)
        ensures
            r.value() == self.values().1,
            self.wf() ==> r.wf(),
    {
        self.r
    }
}

impl SchnorrPreSig {
    pub open spec fn values(&self) -> (nat, nat) {
        (self.s.value(), self.r.value())
    }

    pub open spec fn wf(&self) -> bool {
        self.s.wf() && self.r.wf()
    }
}

/// `(x - y) mod n` as a natural number.
pub open spec fn sub_mod(x: int, y: int) -> nat {
    ((x - y) % (secp_order() as int)) as nat
}

/// The signature that the secret key `sk` (public key `pk`) makes on `m`
/// with the nonce `k`; `None` where the challenge or `s` is zero.
pub open spec fn sign_spec(sk: nat, pk: Seq<u8>, m: Seq<char>, k: nat) -> Option<(nat, nat)> {
    let r = schnorr_challenge(pk, chain_point_enc(k), m);
    let s = (k + (r * sk) % secp_order()) % secp_order();
    if r == 0 || s == 0 {
        None
    } else {
        Some((s, r))
    }
}

/// The nonce point that verification recomputes: `s G - r pk`.
pub open spec fn recovered_nonce(pk: Seq<u8>, s: nat, r: nat) -> nat {
    sub_mod(s as int, ((r * chain_log(pk)) % secp_order()) as int)
}

/// `(s, r)` is a valid signature of `m` under `pk`.
pub open spec fn verify_spec(pk: Seq<u8>, m: Seq<char>, s: nat, r: nat) -> bool {
    let v = recovered_nonce(pk, s, r);
    &&& v != 0
    &&& schnorr_challenge(pk, chain_point_enc(v), m) != 0
    &&& schnorr_challenge(pk, chain_point_enc(v), m) == r
}

/// The pre-signature that `sk` makes on `m` for the statement of
/// discrete logarithm `y`, with the nonce `k`; `None` where the shifted
/// nonce, the challenge or `s` is zero.
pub open spec fn pre_sign_spec(sk: nat, pk: Seq<u8>, m: Seq<char>, y: nat, k: nat) -> Option<(nat, nat)> {
    let big_k = (y + k) % secp_order();
    let r = schnorr_challenge(pk, chain_point_enc(big_k), m);
    let s = (k + (r * sk) % secp_order()) % secp_order();
    if big_k == 0 || r == 0 || s == 0 {
        None
    } else {
        Some((s, r))
    }
}

/// `(s, r)` is a valid pre-signature of `m` under `pk` for the statement
/// of discrete logarithm `y`.
pub open spec fn pre_verify_spec(pk: Seq<u8>, m: Seq<char>, s: nat, r: nat, y: nat) -> bool {
    let v = recovered_nonce(pk, s, r);
    let w = (v + y) % secp_order();
    &&& v != 0
    &&& w != 0
    &&& schnorr_challenge(pk, chain_point_enc(w), m) != 0
    &&& schnorr_challenge(pk, chain_point_enc(w), m) == r
}

/// The key pair of a secret key.
pub fn keypair_from_secret(sk: ChainScalar) -> (kp: SchnorrPair)
    requires
        sk.wf(),
        sk.value() != 0,
    ensures
        kp.wf(),
        kp.secret() == sk.value(),
{
    let pk = chain_base_mul(&sk);
    SchnorrPair { sk, pk }
}

/// A fresh key pair.
pub fn kgen() -> (kp: SchnorrPair)
    ensures
        kp.wf(),
{
    let sk = sample_rand_chain_scalar();
    keypair_from_secret(sk)
}

/// Signs `m` with the nonce `k`.
pub fn sign_with_nonce(kp: &SchnorrPair, m: &str, k: &ChainScalar) -> (sig: Option<SchnorrSig>)
    requires
        kp.wf(),
        k.wf(),
        k.value() != 0,
    ensures
        match sig {
            Some(sig) => sig.wf() && sign_spec(kp.secret(), kp.public(), m@, k.value()) == Some(sig.values()),
            None => sign_spec(kp.secret(), kp.public(), m@, k.value()) is None,
        },
{
    let big_k = chain_base_mul(k);
    let r = match schnorr_hash(&kp.pk, big_k, m) {
        Some(r) => r,
        None => return None,
    };
    let rs = chain_scalar_mul(&r, &kp.sk);
    let s = chain_scalar_add(k, &rs);
    if s.is_zero() {
        return None;
    }
    Some(SchnorrSig { s, r })
}

/// Signs `m` with a fresh nonce; `None` where the nonce drawn gives a zero
/// challenge or a zero `s`.
pub fn sign(kp: &SchnorrPair, m: &str) -> (sig: Option<SchnorrSig>)
    requires
        kp.wf(),
    ensures
        exists|k: nat|
            0 < k < secp_order() && match sig {
                Some(sig) => sig.wf() && sign_spec(kp.secret(), kp.public(), m@, k) == Some(sig.values()),
                None => sign_spec(kp.secret(), kp.public(), m@, k) is None,
            },
{
    let k = sample_rand_chain_scalar();
    sign_with_nonce(kp, m, &k)
}

/// Whether `sig` is a signature of `m` under `pk`. A signature whose
/// recomputed nonce point is the point at infinity is rejected.
pub fn verify(pk: ChainPoint, m: &str, sig: SchnorrSig) -> (ok: bool)
    requires
        pk.wf(),
        sig.wf(),
    ensures
        ok == verify_spec(pk.bytes@, m@, sig.values().0, sig.values().1),
{
    let r_pk = chain_point_mul(&sig.r, &pk);
    let gs = chain_base_mul(&sig.s);
    let rand = chain_point_sub(&gs, &r_pk);
    if rand.is_zero() {
        return false;
    }
    match schnorr_hash(&pk, rand, m) {
        Some(got) => got.equals(&sig.r),
        None => false,
    }
}

/// Pre-signs `m` for the statement `y_pub` with the nonce `k`.
pub fn pre_sign_with_nonce(kp: &SchnorrPair, m: &str, y_pub: &ChainPoint, k: &ChainScalar) -> (sig: Option<SchnorrPreSig>)
    requires
        kp.wf(),
        y_pub.wf(),
        k.wf(),
        k.value() != 0,
    ensures
        match sig {
            Some(sig) => sig.wf() && pre_sign_spec(kp.secret(), kp.public(), m@, chain_log(y_pub.bytes@), k.value()) == Some(sig.values()),
            None => pre_sign_spec(kp.secret(), kp.public(), m@, chain_log(y_pub.bytes@), k.value()) is None,
        },
{
    let big_k = chain_base_mul(k);
    let big_k = chain_point_add(y_pub, &big_k);
    if big_k.is_zero() {
        return None;
    }
    let r = match schnorr_hash(&kp.pk, big_k, m) {
        Some(r) => r,
        None => return None,
    };
    let rs = chain_scalar_mul(&r, &kp.sk);
    let s = chain_scalar_add(k, &rs);
    if s.is_zero() {
        return None;
    }
    Some(SchnorrPreSig { s, r })
}

/// Pre-signs `m` for the statement `y_pub` with a fresh nonce.
pub fn pre_sign(kp: &SchnorrPair, m: &str, y_pub: &ChainPoint) -> (sig: Option<SchnorrPreSig>)
    requires
        kp.wf(),
        y_pub.wf(),
    ensures
        exists|k: nat|
            0 < k < secp_order() && match sig {
                Some(sig) => sig.wf() && pre_sign_spec(kp.secret(), kp.public(), m@, chain_log(y_pub.bytes@), k) == Some(sig.values()),
                None => pre_sign_spec(kp.secret(), kp.public(), m@, chain_log(y_pub.bytes@), k) is None,
            },
{
    let k = sample_rand_chain_scalar();
    pre_sign_with_nonce(kp, m, y_pub, &k)
}

/// Whether `pre_sig` is a pre-signature of `m` under `pk` for the
/// statement `y_pub`. A nonce point at infinity is rejected.
pub fn pre_verify(pk: ChainPoint, m: &str, pre_sig: &SchnorrPreSig, y_pub: &ChainPoint) -> (ok: bool)
    requires
        pk.wf(),
        pre_sig.wf(),
        y_pub.wf(),
    ensures
        ok == pre_verify_spec(pk.bytes@, m@, pre_sig.s.value(), pre_sig.r.value(), chain_log(y_pub.bytes@)),
{
    let r_pk = chain_point_mul(&pre_sig.r, &pk);
    let gs = chain_base_mul(&pre_sig.s);
    let rand = chain_point_sub(&gs, &r_pk);
    if rand.is_zero() {
        return false;
    }
    let rand = chain_point_add(&rand, y_pub);
    if rand.is_zero() {
        return false;
    }
    match schnorr_hash(&pk, rand, m) {
        Some(got) => got.equals(&pre_sig.r),
        None => false,
    }
}

/// Adapts a pre-signature into a signature with the witness `y`: `s + y`
/// and the same challenge; `None` where `s + y` is zero.
pub fn adapt(pre_sig: &SchnorrPreSig, y: &ChainScalar) -> (sig: Option<SchnorrSig>)
    requires
        pre_sig.wf(),
        y.wf(),
    ensures
        match sig {
            Some(sig) => sig.wf() && sig.values() == ((pre_sig.s.value() + y.value()) % secp_order(), pre_sig.r.value())
                && (pre_sig.s.value() + y.value()) % secp_order() != 0,
            None => (pre_sig.s.value() + y.value()) % secp_order() == 0,
        },
{
    let s = chain_scalar_add(&pre_sig.s, y);
    if s.is_zero() {
        return None;
    }
    let r = pre_sig.r;
    Some(SchnorrSig { s, r })
}

/// `(k + t) mod n - t mod n` is `k` again, for `k` below `n`.
proof fn lemma_mod_cancel(k: int, t: int)
    requires
        0 <= k < secp_order(),
        0 <= t,
    ensures
        sub_mod((k + t % (secp_order() as int)) % (secp_order() as int), t % (secp_order() as int)) == k,
{
    let n = secp_order() as int;
    lemma_mod_bound(t, n);
    lemma_sub_mod_noop(k + t % n, t % n, n);
    lemma_small_mod(k as nat, n as nat);
}

/// A signature made with the secret key verifies under its public key.
pub proof fn lemma_sign_then_verify(kp: SchnorrPair, m: Seq<char>, k: nat)
    requires
        kp.wf(),
        0 < k < secp_order(),
    ensures
        sign_spec(kp.secret(), kp.public(), m, k) matches Some((s, r)) ==> verify_spec(kp.public(), m, s, r),
{
    let pk = kp.public();
    let n = secp_order() as int;
    if let Some((s, r)) = sign_spec(kp.secret(), pk, m, k) {
        assert(chain_log(pk) == kp.secret());
        lemma_mod_cancel(k as int, (r * kp.secret()) as int);
        assert(recovered_nonce(pk, s, r) == k);
    }
}

/// A pre-signature made with the secret key pre-verifies under its public
/// key for the same statement.
pub proof fn lemma_pre_sign_then_pre_verify(kp: SchnorrPair, m: Seq<char>, y: nat, k: nat)
    requires
        kp.wf(),
        y < secp_order(),
        0 < k < secp_order(),
    ensures
        pre_sign_spec(kp.secret(), kp.public(), m, y, k) matches Some((s, r)) ==> pre_verify_spec(kp.public(), m, s, r, y),
{
    let pk = kp.public();
    if let Some((s, r)) = pre_sign_spec(kp.secret(), pk, m, y, k) {
        assert(chain_log(pk) == kp.secret());
        lemma_mod_cancel(k as int, (r * kp.secret()) as int);
        assert(recovered_nonce(pk, s, r) == k);
        assert((k + y) % secp_order() == (y + k) % secp_order());
    }
}

/// A pre-signature that pre-verifies for the statement of discrete
/// logarithm `y`, adapted with `y`, verifies as a signature.
pub proof fn lemma_adapt_then_verify(pk: Seq<u8>, m: Seq<char>, s: nat, r: nat, y: nat)
    requires
        is_multiple(pk, chain_log(pk)),
        s < secp_order(),
        r < secp_order(),
        y < secp_order(),
        pre_verify_spec(pk, m, s, r, y),
    ensures
        verify_spec(pk, m, (s + y) % secp_order(), r),
{
    let n = secp_order() as int;
    let x = ((r * chain_log(pk)) % secp_order()) as int;
    lemma_mod_bound((r * chain_log(pk)) as int, n);
    let v = recovered_nonce(pk, s, r);
    // v = (s - x) mod n, and the adapted nonce is ((s + y) mod n - x) mod n
    lemma_sub_mod_noop((s + y) as int, x, n);
    lemma_small_mod(x as nat, n as nat);
    lemma_add_mod_noop(s - x, y as int, n);
    lemma_small_mod(y, n as nat);
    assert(recovered_nonce(pk, ((s + y) % secp_order()) as nat, r) == (v + y) % secp_order());
}

} // verus!
