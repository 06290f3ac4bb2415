//! BLS signatures of the oracle's attestations, and their aggregation.

use vstd::prelude::*;
use vstd::arithmetic::div_mod::{lemma_small_mod, lemma_add_mod_noop, lemma_add_mod_noop_right, lemma_mul_mod_noop_left};
use vstd::arithmetic::mul::lemma_mul_is_distributive_add_other_way;
use crate::curve::{
    BlsScalar, G1Point, G2Point, bls_order, g1_only, g2_only, g2_log, g1_log, g1_generator,
    g1_generator_mul, g2_identity, g2_mul, g2_add, pairing,
};
use crate::common::{hash_to_g2, hash_to_g2_enc, sample_rand_scalar};

verus! {

/// A BLS key pair: a scalar and its multiple of the generator of G1.
#[derive(Clone, Copy)]
pub struct BLSKeyPair {
    sk: BlsScalar,
    pub pk: G1Point,
}

/// The discrete logarithm of the point that a message hashes to.
pub open spec fn hash_log(m: Seq<char>) -> nat {
    g2_log(hash_to_g2_enc(m))
}

/// The sum, modulo the group order, of the discrete logarithms of the
/// points that the messages hash to: the logarithm of their aggregate.
pub open spec fn hash_sum(ms: Seq<Seq<char>>) -> nat
    decreases ms.len(),
{
    if ms.len() == 0 {
        0
    } else {
        (hash_sum(ms.drop_last()) + hash_log(ms.last())) % bls_order()
    }
}

/// The sum of the discrete logarithms of the points that the messages hash
/// to, as an integer.
pub open spec fn hash_total(ms: Seq<Seq<char>>) -> int
    decreases ms.len(),
{
    if ms.len() == 0 {
        0
    } else {
        hash_total(ms.drop_last()) + hash_log(ms.last())
    }
}

/// The aggregate hash is the integer sum reduced once.
pub proof fn lemma_hash_sum_total(ms: Seq<Seq<char>>)
    ensures
        hash_sum(ms) == hash_total(ms) % (bls_order() as int),
        hash_total(ms) >= 0,
    decreases ms.len(),
{
    if ms.len() > 0 {
        lemma_hash_sum_total(ms.drop_last());
        lemma_add_mod_noop_right(hash_log(ms.last()) as int, hash_total(ms.drop_last()), bls_order() as int);
    }
}

/// The integer sum of a concatenation is the sum of those of its parts.
pub proof fn lemma_hash_total_concat(a: Seq<Seq<char>>, b: Seq<Seq<char>>)
    ensures
        hash_total(a + b) == hash_total(a) + hash_total(b),
    decreases b.len(),
{
    if b.len() == 0 {
        assert(a + b =~= a);
    } else {
        assert((a + b).drop_last() =~= a + b.drop_last());
        lemma_hash_total_concat(a, b.drop_last());
    }
}

/// The integer sum of one message is the logarithm of its hash point.
proof fn lemma_hash_total_one(m: Seq<char>)
    ensures
        hash_total(seq![m]) == hash_log(m),
{
    let s = seq![m];
    assert(s.drop_last() =~= Seq::<Seq<char>>::empty());
    assert(s.last() == m);
    assert(hash_total(s) == hash_total(s.drop_last()) + hash_log(s.last()));
}

/// Reordering the messages leaves the integer sum unchanged.
proof fn lemma_hash_total_permutation(a: Seq<Seq<char>>, b: Seq<Seq<char>>)
    requires
        a.to_multiset() == b.to_multiset(),
    ensures
        hash_total(a) == hash_total(b),
    decreases a.len(),
{
    broadcast use vstd::seq_lib::group_to_multiset_ensures;
    if a.len() == 0 {
        assert(b.to_multiset().len() == 0);
        assert(b =~= Seq::<Seq<char>>::empty());
    } else {
        let x = a.last();
        let a1 = a.drop_last();
        assert(a1.push(x) =~= a);
        assert(a.to_multiset() == a1.to_multiset().insert(x));
        assert(b.to_multiset().count(x) > 0);
        assert(b.contains(x));
        let k = choose|k: int| 0 <= k < b.len() && b[k] == x;
        let b1 = b.remove(k);
        assert(b1.to_multiset() == b.to_multiset().remove(x));
        assert(b1.to_multiset() =~= a1.to_multiset());
        lemma_hash_total_permutation(a1, b1);
        let front = b.take(k);
        let back = b.skip(k + 1);
        assert(b =~= front + seq![x] + back);
        assert(b1 =~= front + back);
        lemma_hash_total_concat(front + seq![x], back);
        lemma_hash_total_concat(front, seq![x]);
        lemma_hash_total_concat(front, back);
        lemma_hash_total_one(x);
    }
}

/// Aggregation does not depend on the order of the messages: any
/// reordering of them leaves the aggregate hash unchanged, and with it the
/// aggregate signature (`agg_sign`) and the element of the aggregate
/// encryption (`wes_enc_precom_vector`).
pub proof fn lemma_hash_sum_permutation(a: Seq<Seq<char>>, b: Seq<Seq<char>>)
    requires
        a.to_multiset() == b.to_multiset(),
    ensures
        hash_sum(a) == hash_sum(b),
{
    lemma_hash_total_permutation(a, b);
    lemma_hash_sum_total(a);
    lemma_hash_sum_total(b);
}

/// Aggregate signing does not depend on the order of the messages: under
/// one key pair, the aggregate signatures (as `agg_sign` makes them) of
/// two lists that are reorderings of each other are equal.
pub proof fn lemma_agg_sign_order(kp: BLSKeyPair, a: Seq<Seq<char>>, b: Seq<Seq<char>>, sa: Seq<u8>, sb: Seq<u8>)
    requires
        kp.wf(),
        a.to_multiset() == b.to_multiset(),
        g2_only(sa, (hash_sum(a) * kp.secret()) % bls_order()),
        g2_only(sb, (hash_sum(b) * kp.secret()) % bls_order()),
    ensures
        sa == sb,
{
    lemma_hash_sum_permutation(a, b);
}

/// Aggregate signing distributes over the messages: under a key pair, the
/// aggregate signature of two lists one after the other is the sum of their
/// aggregate signatures, and that of a single message is its signature.
pub proof fn lemma_agg_sign_distributes(kp: BLSKeyPair, a: Seq<Seq<char>>, b: Seq<Seq<char>>, m: Seq<char>)
    requires
        kp.wf(),
    ensures
        (hash_sum(a + b) * kp.secret()) % bls_order()
            == ((hash_sum(a) * kp.secret()) % bls_order() + (hash_sum(b) * kp.secret()) % bls_order()) % bls_order(),
        (hash_sum(seq![m]) * kp.secret()) % bls_order() == (hash_log(m) * kp.secret()) % bls_order(),
{
    let q = bls_order() as int;
    let sk = kp.secret() as int;
    let ta = hash_total(a);
    let tb = hash_total(b);
    lemma_hash_total_concat(a, b);
    lemma_hash_sum_total(a + b);
    lemma_hash_sum_total(a);
    lemma_hash_sum_total(b);
    lemma_mul_mod_noop_left(ta + tb, sk, q);
    lemma_mul_mod_noop_left(ta, sk, q);
    lemma_mul_mod_noop_left(tb, sk, q);
    lemma_mul_is_distributive_add_other_way(sk, ta, tb);
    lemma_add_mod_noop(ta * sk, tb * sk, q);
    lemma_hash_total_one(m);
    lemma_hash_sum_total(seq![m]);
    lemma_mul_mod_noop_left(hash_log(m) as int, sk, q);
}

/// `s` is a signature of `m` under the public key of logarithm `x`: the
/// pairing of the generator with `s` equals that of the key with the hash.
pub open spec fn bls_verify_spec(x: nat, m: Seq<char>, s: Seq<u8>) -> bool {
    g2_log(s) == (x * hash_log(m)) % bls_order()
}

impl BLSKeyPair {
    /// The secret key.
    pub closed spec fn secret(&self) -> nat {
        self.sk.value()
    }

    /// The encoding of the public key.
    pub closed spec fn public(&self) -> Seq<u8> {
        self.pk.bytes@
    }

    /// The secret key is a scalar and the public key its multiple of the
    /// generator of G1.
    pub open spec fn wf(&self) -> bool {
        &&& self.secret() < bls_order()
        &&& g1_only(self.public(), self.secret())
    }

    /// The public key.
    pub fn public_key(&self) -> (r: G1Point)
        ensures
            r.bytes@ == self.public(),
            self.wf() ==> r.wf() && g1_log(r.bytes@) == self.secret(),
    {
        self.pk
    }

    /// The key pair of a secret key.
    pub fn from_secret(sk: BlsScalar) -> (kp: BLSKeyPair)
        requires
            sk.wf(),
        ensures
            kp.wf(),
            kp.secret() == sk.value(),
    {
        let pk = g1_generator_mul(&sk);
        BLSKeyPair { sk, pk }
    }

    /// A fresh key pair.
    pub fn new() -> (kp: BLSKeyPair)
        ensures
            kp.wf(),
    {
        let sk = sample_rand_scalar();
        BLSKeyPair::from_secret(sk)
    }

    /// The signature of `m`: its hash point times the secret key.
    pub fn sign(self, m: &str) -> (s: G2Point)
        requires
            self.wf(),
        ensures
            g2_only(s.bytes@, (hash_log(m@) * self.secret()) % bls_order()),
    {
        let h = hash_to_g2(m);
        g2_mul(&h, &self.sk)
    }

    /// Whether `s` is a signature of `m` under this key pair's public key.
    pub fn verify(self, m: &str, s: G2Point) -> (ok: bool)
        requires
            self.wf(),
            s.wf(),
        ensures
            ok == bls_verify_spec(self.secret(), m@, s.bytes@),
    {
        let g = g1_generator();
        let gt = pairing(&g, &s);
        let h = hash_to_g2(m);
        let expected = pairing(&self.pk, &h);
        proof {
            lemma_small_mod(g2_log(s.bytes@), bls_order());
            crate::curve::lemma_g1_only(g.bytes@, 1, self.pk.bytes@, self.sk.value());
            crate::curve::lemma_gt_only(gt@, (g1_log(g.bytes@) * g2_log(s.bytes@)) % bls_order(), expected@, (g1_log(self.pk.bytes@) * g2_log(h.bytes@)) % bls_order());
        }
        gt.equals(&expected)
    }

    /// The aggregate signature of a list of messages: the sum of their hash
    /// points, times the secret key.
    pub fn agg_sign(self, m: Vec<String>) -> (s: G2Point)
        requires
            self.wf(),
        ensures
            g2_only(s.bytes@, (hash_sum(m@.map_values(|t: String| t@)) * self.secret()) % bls_order()),
    {
        let ghost ms = m@.map_values(|t: String| t@);
        let mut agg_m_hash = g2_identity();
        let mut i: usize = 0;
        while i < m.len()
            invariant
                i <= m@.len(),
                ms == m@.map_values(|t: String| t@),
                g2_only(agg_m_hash.bytes@, hash_sum(ms.take(i as int))),
            decreases m@.len() - i,
        {
            let affine = hash_to_g2(m[i].as_str());
            agg_m_hash = g2_add(&agg_m_hash, &affine);
            proof {
                assert(ms.take(i + 1).drop_last() =~= ms.take(i as int));
            }
            i = i + 1;
        }
        assert(ms.take(m@.len() as int) =~= ms);
        g2_mul(&agg_m_hash, &self.sk)
    }
}

/// A signature made with a key pair verifies under it.
pub proof fn lemma_bls_sign_then_verify(kp: BLSKeyPair, m: Seq<char>, s: Seq<u8>)
    requires
        kp.wf(),
        g2_only(s, (hash_log(m) * kp.secret()) % bls_order()),
    ensures
        bls_verify_spec(kp.secret(), m, s),
{
    vstd::arithmetic::mul::lemma_mul_is_commutative(hash_log(m) as int, kp.secret() as int);
}

} // verus!
