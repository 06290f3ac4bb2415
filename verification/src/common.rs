//! Randomness, hashing into the groups, the Fiat-Shamir challenge bits of the
//! cut-and-choose proofs, and the loan's conditions.

use vstd::prelude::*;
use crate::bytes::{be_nat, bits_of, concat_map, push_all, bytes_to_bits, lemma_concat_map_take, lemma_concat_map_rows};
use crate::hashing::{sha256, sha256_digest};
use crate::chain::{
    ChainScalar, ChainPoint, secp_order, chain_scalar_from_bytes_mod_order, chain_base_mul,
    is_multiple,
};
use crate::curve::{BlsScalar, G2Point, GtElem, g1_random, g2_generator, pairing};
use crate::wes::{WESCiphertext, PreComp};
use crate::cvesfig5::{CVESCiphertextFig5, fig5_encrypts, fig5_fails, fig5_made, fig5_degenerate, fig5_refused};
use crate::curve::G1Point;
use crate::schnorradaptor::SchnorrPair;
use crate::cves::CvesError;
use crate::schnorradaptor::SchnorrPreSig;

verus! {

/// What `hash_to_g2` gives for a message.
pub uninterp spec fn hash_to_g2_enc(m: Seq<char>) -> Seq<u8>;

/// `ff::Field::random` for `bls12_381::Scalar` with the operating system's
/// generator: a uniformly drawn scalar. Nothing is stated of which one.
#[verifier::external_body]
pub fn sample_rand_scalar() -> (r: BlsScalar)
    ensures
        r.wf(),
{
    let s = <bls12_381::Scalar as ff::Field>::random(&mut rand::rngs::OsRng);
    BlsScalar { bytes: s.to_bytes() }
}

/// `secp256kfun::Scalar::random` with the operating system's generator: a
/// uniformly drawn non-zero scalar. Nothing is stated of which one.
#[verifier::external_body]
pub fn sample_rand_chain_scalar() -> (r: ChainScalar)
    ensures
        r.wf(),
        r.value() != 0,
{
    let s = secp256kfun::Scalar::random(&mut rand::rngs::OsRng);
    ChainScalar { bytes: s.to_bytes() }
}

/// `n` uniformly drawn non-zero scalars of secp256k1.
pub fn sample_rand_chain_scalars(n: usize) -> (r: Vec<ChainScalar>)
    ensures
        r@.len() == n,
        forall|t: int| 0 <= t < n ==> (#[trigger] r@[t]).wf() && r@[t].value() != 0,
{
    let mut r: Vec<ChainScalar> = Vec::new();
    let mut i: usize = 0;
    while i < n
        invariant
            i <= n,
            r@.len() == i,
            forall|t: int| 0 <= t < i ==> (#[trigger] r@[t]).wf() && r@[t].value() != 0,
        decreases n - i,
    {
        r.push(sample_rand_chain_scalar());
        i = i + 1;
    }
    r
}

/// A uniformly drawn element of Gt: the pairing of a random point of G1
/// with the generator of G2.
pub fn sample_rand_gt() -> (r: GtElem)
    ensures
        r.wf(),
{
    let g1 = g1_random();
    let g2 = g2_generator();
    pairing(&g1, &g2)
}

/// The 32-byte key that an element of Gt yields: the SHA-256 digest of its
/// encoding.
pub fn gt_to_bytes(r2: &GtElem) -> (r: [u8; 32])
    ensures
        r@ == sha256_digest(r2@),
{
    sha256(r2.encoding())
}

/// `HashToCurve::hash_to_curve` of `G2Projective` with `ExpandMsgXmd<Sha256>`
/// and the domain `bls-sig`, made affine: a point of G2 that depends on the
/// message alone.
#[verifier::external_body]
pub fn hash_to_g2(m: &str) -> (r: G2Point)
    ensures
        r.bytes@ == hash_to_g2_enc(m@),
        r.wf(),
{
    let p = <bls12_381::G2Projective as bls12_381::hash_to_curve::HashToCurve<
        bls12_381::hash_to_curve::ExpandMsgXmd<sha2::Sha256>,
    >>::hash_to_curve(m, b"bls-sig");
    G2Point { bytes: bls12_381::G2Affine::from(p).to_compressed() }
}

/// How a WES ciphertext enters the challenge: the digest of `c1`, the key of
/// `c2`, and `c3`.
pub open spec fn wes_challenge_bytes(c: WESCiphertext) -> Seq<u8> {
    sha256_digest(c.c1.bytes@) + sha256_digest(c.c2@) + c.c3@
}

pub open spec fn point_bytes(p: ChainPoint) -> Seq<u8> {
    p.bytes@
}

pub open spec fn scalar_bytes(s: ChainScalar) -> Seq<u8> {
    s.bytes@
}

pub open spec fn presig_bytes(p: SchnorrPreSig) -> Seq<u8> {
    p.s.bytes@ + p.r.bytes@
}

/// The data that `hash_to_bits` hashes.
pub open spec fn challenge_data(
    cis: Seq<WESCiphertext>,
    ri_pub: Seq<ChainPoint>,
    c_omega: ChainScalar,
    xa: ChainPoint,
    xw: ChainPoint,
    y_pub: ChainPoint,
    sigma_tilde: SchnorrPreSig,
) -> Seq<u8> {
    concat_map(cis, |c: WESCiphertext| wes_challenge_bytes(c)) + concat_map(
        ri_pub,
        |p: ChainPoint| point_bytes(p),
    ) + c_omega.bytes@ + xa.bytes@ + xw.bytes@ + y_pub.bytes@ + presig_bytes(sigma_tilde)
}

/// The data that `hash_to_bits_in` hashes.
pub open spec fn challenge_data_in(
    cis: Seq<Seq<WESCiphertext>>,
    ri_pub: Seq<Seq<ChainPoint>>,
    c_omega: Seq<Seq<ChainScalar>>,
    x: Seq<ChainPoint>,
    y_pub: Seq<Seq<ChainPoint>>,
    sigma_tilde: Seq<Seq<SchnorrPreSig>>,
) -> Seq<u8> {
    concat_map(cis, |row: Seq<WESCiphertext>| concat_map(row, |c: WESCiphertext| wes_challenge_bytes(c)))
        + concat_map(ri_pub, |row: Seq<ChainPoint>| concat_map(row, |p: ChainPoint| point_bytes(p)))
        + concat_map(c_omega, |row: Seq<ChainScalar>| concat_map(row, |s: ChainScalar| scalar_bytes(s)))
        + concat_map(x, |p: ChainPoint| point_bytes(p))
        + concat_map(y_pub, |row: Seq<ChainPoint>| concat_map(row, |p: ChainPoint| point_bytes(p)))
        + concat_map(sigma_tilde, |row: Seq<SchnorrPreSig>| concat_map(row, |p: SchnorrPreSig| presig_bytes(p)))
}

/// The challenge data of a multi-row proof depends on its rows only
/// through their row-by-row flattening: inputs whose rows flatten alike
/// give the same data, and so the same challenge bits (`hash_to_bits_in`).
pub proof fn lemma_challenge_in_flattening(
    cis: Seq<Seq<WESCiphertext>>,
    ri_pub: Seq<Seq<ChainPoint>>,
    c_omega: Seq<Seq<ChainScalar>>,
    x: Seq<ChainPoint>,
    y_pub: Seq<Seq<ChainPoint>>,
    sigma_tilde: Seq<Seq<SchnorrPreSig>>,
    cis2: Seq<Seq<WESCiphertext>>,
    ri_pub2: Seq<Seq<ChainPoint>>,
    c_omega2: Seq<Seq<ChainScalar>>,
    y_pub2: Seq<Seq<ChainPoint>>,
    sigma_tilde2: Seq<Seq<SchnorrPreSig>>,
)
    requires
        cis.flatten() == cis2.flatten(),
        ri_pub.flatten() == ri_pub2.flatten(),
        c_omega.flatten() == c_omega2.flatten(),
        y_pub.flatten() == y_pub2.flatten(),
        sigma_tilde.flatten() == sigma_tilde2.flatten(),
    ensures
        challenge_data_in(cis, ri_pub, c_omega, x, y_pub, sigma_tilde)
            == challenge_data_in(cis2, ri_pub2, c_omega2, x, y_pub2, sigma_tilde2),
        bits_of(sha256_digest(challenge_data_in(cis, ri_pub, c_omega, x, y_pub, sigma_tilde)))
            == bits_of(sha256_digest(challenge_data_in(cis2, ri_pub2, c_omega2, x, y_pub2, sigma_tilde2))),
{
    let fc = |c: WESCiphertext| wes_challenge_bytes(c);
    let fp = |p: ChainPoint| point_bytes(p);
    let fs = |s: ChainScalar| scalar_bytes(s);
    let fg = |p: SchnorrPreSig| presig_bytes(p);
    lemma_concat_map_rows(cis, fc);
    lemma_concat_map_rows(cis2, fc);
    lemma_concat_map_rows(ri_pub, fp);
    lemma_concat_map_rows(ri_pub2, fp);
    lemma_concat_map_rows(c_omega, fs);
    lemma_concat_map_rows(c_omega2, fs);
    lemma_concat_map_rows(y_pub, fp);
    lemma_concat_map_rows(y_pub2, fp);
    lemma_concat_map_rows(sigma_tilde, fg);
    lemma_concat_map_rows(sigma_tilde2, fg);
}

/// Appends the challenge bytes of each ciphertext.
fn push_ciphertexts(data: &mut Vec<u8>, cis: &Vec<WESCiphertext>)
    ensures
        final(data)@ == old(data)@ + concat_map(cis@, |c: WESCiphertext| wes_challenge_bytes(c)),
{
    let ghost f = |c: WESCiphertext| wes_challenge_bytes(c);
    let mut i: usize = 0;
    while i < cis.len()
        invariant
            i <= cis@.len(),
            f == (|c: WESCiphertext| wes_challenge_bytes(c)),
            data@ == old(data)@ + concat_map(cis@.take(i as int), f),
        decreases cis@.len() - i,
    {
        let ci = &cis[i];
        let c1_bytes = sha256(ci.c1.bytes.as_slice());
        push_all(data, c1_bytes.as_slice());
        let c2_bytes = gt_to_bytes(&ci.c2);
        push_all(data, c2_bytes.as_slice());
        push_all(data, ci.c3.as_slice());
        proof {
            lemma_concat_map_take(cis@, f, i as int);
            assert(data@ =~= old(data)@ + concat_map(cis@.take(i + 1), f));
        }
        i = i + 1;
    }
    assert(cis@.take(cis@.len() as int) =~= cis@);
}

/// Appends the encodings of the points.
fn push_points(data: &mut Vec<u8>, points: &Vec<ChainPoint>)
    ensures
        final(data)@ == old(data)@ + concat_map(points@, |p: ChainPoint| point_bytes(p)),
{
    let ghost f = |p: ChainPoint| point_bytes(p);
    let mut i: usize = 0;
    while i < points.len()
        invariant
            i <= points@.len(),
            f == (|p: ChainPoint| point_bytes(p)),
            data@ == old(data)@ + concat_map(points@.take(i as int), f),
        decreases points@.len() - i,
    {
        push_all(data, points[i].bytes.as_slice());
        proof {
            lemma_concat_map_take(points@, f, i as int);
            assert(data@ =~= old(data)@ + concat_map(points@.take(i + 1), f));
        }
        i = i + 1;
    }
    assert(points@.take(points@.len() as int) =~= points@);
}

/// Appends the encodings of the scalars.
fn push_scalars(data: &mut Vec<u8>, scalars: &Vec<ChainScalar>)
    ensures
        final(data)@ == old(data)@ + concat_map(scalars@, |s: ChainScalar| scalar_bytes(s)),
{
    let ghost f = |s: ChainScalar| scalar_bytes(s);
    let mut i: usize = 0;
    while i < scalars.len()
        invariant
            i <= scalars@.len(),
            f == (|s: ChainScalar| scalar_bytes(s)),
            data@ == old(data)@ + concat_map(scalars@.take(i as int), f),
        decreases scalars@.len() - i,
    {
        push_all(data, scalars[i].bytes.as_slice());
        proof {
            lemma_concat_map_take(scalars@, f, i as int);
            assert(data@ =~= old(data)@ + concat_map(scalars@.take(i + 1), f));
        }
        i = i + 1;
    }
    assert(scalars@.take(scalars@.len() as int) =~= scalars@);
}

/// Appends the two scalars of each pre-signature.
fn push_presigs(data: &mut Vec<u8>, sigs: &Vec<SchnorrPreSig>)
    ensures
        final(data)@ == old(data)@ + concat_map(sigs@, |p: SchnorrPreSig| presig_bytes(p)),
{
    let ghost f = |p: SchnorrPreSig| presig_bytes(p);
    let mut i: usize = 0;
    while i < sigs.len()
        invariant
            i <= sigs@.len(),
            f == (|p: SchnorrPreSig| presig_bytes(p)),
            data@ == old(data)@ + concat_map(sigs@.take(i as int), f),
        decreases sigs@.len() - i,
    {
        push_all(data, sigs[i].s.bytes.as_slice());
        push_all(data, sigs[i].r.bytes.as_slice());
        proof {
            lemma_concat_map_take(sigs@, f, i as int);
            assert(data@ =~= old(data)@ + concat_map(sigs@.take(i + 1), f));
        }
        i = i + 1;
    }
    assert(sigs@.take(sigs@.len() as int) =~= sigs@);
}

/// The challenge bits of a cut-and-choose proof: the bits of the SHA-256
/// digest of the ciphertexts, the commitments, the one-time pad, the
/// statements and the pre-signature.
pub fn hash_to_bits(
    cis: &Vec<WESCiphertext>,
    ri_pub: Vec<ChainPoint>,
    c_omega: ChainScalar,
    xa: ChainPoint,
    xw: ChainPoint,
    y_pub: ChainPoint,
    sigma_tilde: &SchnorrPreSig,
) -> (bits: Vec<bool>)
    ensures
        bits@ == bits_of(sha256_digest(challenge_data(cis@, ri_pub@, c_omega, xa, xw, y_pub, *sigma_tilde))),
        bits@.len() == 256,
{
    let mut serialized_data: Vec<u8> = Vec::new();
    push_ciphertexts(&mut serialized_data, cis);
    push_points(&mut serialized_data, &ri_pub);
    push_all(&mut serialized_data, c_omega.bytes.as_slice());
    push_all(&mut serialized_data, xa.bytes.as_slice());
    push_all(&mut serialized_data, xw.bytes.as_slice());
    push_all(&mut serialized_data, y_pub.bytes.as_slice());
    push_all(&mut serialized_data, sigma_tilde.s.bytes.as_slice());
    push_all(&mut serialized_data, sigma_tilde.r.bytes.as_slice());
    assert(serialized_data@ =~= challenge_data(cis@, ri_pub@, c_omega, xa, xw, y_pub, *sigma_tilde));
    let hash_result = sha256(serialized_data.as_slice());
    bytes_to_bits(hash_result.as_slice())
}

/// The challenge bits of the cut-and-choose proof of a ciphertext for every
/// state: the bits of the SHA-256 digest of all its parts, row by row.
pub fn hash_to_bits_in(
    cis: &Vec<Vec<WESCiphertext>>,
    ri_pub: &Vec<Vec<ChainPoint>>,
    c_omega: &Vec<Vec<ChainScalar>>,
    x: &Vec<ChainPoint>,
    y_pub: &Vec<Vec<ChainPoint>>,
    sigma_tilde: &Vec<Vec<SchnorrPreSig>>,
) -> (bits: Vec<bool>)
    ensures
        bits@ == bits_of(sha256_digest(challenge_data_in(
            cis@.map_values(|row: Vec<WESCiphertext>| row@),
            ri_pub@.map_values(|row: Vec<ChainPoint>| row@),
            c_omega@.map_values(|row: Vec<ChainScalar>| row@),
            x@,
            y_pub@.map_values(|row: Vec<ChainPoint>| row@),
            sigma_tilde@.map_values(|row: Vec<SchnorrPreSig>| row@),
        ))),
        bits@.len() == 256,
{
    let mut serialized_data: Vec<u8> = Vec::new();
    let ghost cis_v = cis@.map_values(|row: Vec<WESCiphertext>| row@);
    let ghost f = |row: Seq<WESCiphertext>| concat_map(row, |c: WESCiphertext| wes_challenge_bytes(c));
    let ghost start = serialized_data@;
    let mut i: usize = 0;
    while i < cis.len()
        invariant
            i <= cis@.len(),
            cis_v == cis@.map_values(|row: Vec<WESCiphertext>| row@),
            f == (|row: Seq<WESCiphertext>| concat_map(row, |c: WESCiphertext| wes_challenge_bytes(c))),
            serialized_data@ == start + concat_map(cis_v.take(i as int), f),
        decreases cis@.len() - i,
    {
        push_ciphertexts(&mut serialized_data, &cis[i]);
        proof {
            lemma_concat_map_take(cis_v, f, i as int);
        }
        i = i + 1;
    }
    assert(cis_v.take(cis@.len() as int) =~= cis_v);
    let ghost mid1 = serialized_data@;
    let ghost rp_v = ri_pub@.map_values(|row: Vec<ChainPoint>| row@);
    let ghost g = |row: Seq<ChainPoint>| concat_map(row, |p: ChainPoint| point_bytes(p));
    let mut i: usize = 0;
    while i < ri_pub.len()
        invariant
            i <= ri_pub@.len(),
            rp_v == ri_pub@.map_values(|row: Vec<ChainPoint>| row@),
            g == (|row: Seq<ChainPoint>| concat_map(row, |p: ChainPoint| point_bytes(p))),
            serialized_data@ == mid1 + concat_map(rp_v.take(i as int), g),
        decreases ri_pub@.len() - i,
    {
        push_points(&mut serialized_data, &ri_pub[i]);
        proof {
            lemma_concat_map_take(rp_v, g, i as int);
        }
        i = i + 1;
    }
    assert(rp_v.take(ri_pub@.len() as int) =~= rp_v);
    let ghost mid2 = serialized_data@;
    let ghost co_v = c_omega@.map_values(|row: Vec<ChainScalar>| row@);
    let ghost h = |row: Seq<ChainScalar>| concat_map(row, |s: ChainScalar| scalar_bytes(s));
    let mut i: usize = 0;
    while i < c_omega.len()
        invariant
            i <= c_omega@.len(),
            co_v == c_omega@.map_values(|row: Vec<ChainScalar>| row@),
            h == (|row: Seq<ChainScalar>| concat_map(row, |s: ChainScalar| scalar_bytes(s))),
            serialized_data@ == mid2 + concat_map(co_v.take(i as int), h),
        decreases c_omega@.len() - i,
    {
        push_scalars(&mut serialized_data, &c_omega[i]);
        proof {
            lemma_concat_map_take(co_v, h, i as int);
        }
        i = i + 1;
    }
    assert(co_v.take(c_omega@.len() as int) =~= co_v);
    push_points(&mut serialized_data, x);
    let ghost mid3 = serialized_data@;
    let ghost yp_v = y_pub@.map_values(|row: Vec<ChainPoint>| row@);
    let mut i: usize = 0;
    while i < y_pub.len()
        invariant
            i <= y_pub@.len(),
            yp_v == y_pub@.map_values(|row: Vec<ChainPoint>| row@),
            g == (|row: Seq<ChainPoint>| concat_map(row, |p: ChainPoint| point_bytes(p))),
            serialized_data@ == mid3 + concat_map(yp_v.take(i as int), g),
        decreases y_pub@.len() - i,
    {
        push_points(&mut serialized_data, &y_pub[i]);
        proof {
            lemma_concat_map_take(yp_v, g, i as int);
        }
        i = i + 1;
    }
    assert(yp_v.take(y_pub@.len() as int) =~= yp_v);
    let ghost mid4 = serialized_data@;
    let ghost st_v = sigma_tilde@.map_values(|row: Vec<SchnorrPreSig>| row@);
    let ghost k = |row: Seq<SchnorrPreSig>| concat_map(row, |p: SchnorrPreSig| presig_bytes(p));
    let mut i: usize = 0;
    while i < sigma_tilde.len()
        invariant
            i <= sigma_tilde@.len(),
            st_v == sigma_tilde@.map_values(|row: Vec<SchnorrPreSig>| row@),
            k == (|row: Seq<SchnorrPreSig>| concat_map(row, |p: SchnorrPreSig| presig_bytes(p))),
            serialized_data@ == mid4 + concat_map(st_v.take(i as int), k),
        decreases sigma_tilde@.len() - i,
    {
        push_presigs(&mut serialized_data, &sigma_tilde[i]);
        proof {
            lemma_concat_map_take(st_v, k, i as int);
        }
        i = i + 1;
    }
    assert(st_v.take(sigma_tilde@.len() as int) =~= st_v);
    assert(serialized_data@ =~= challenge_data_in(cis_v, rp_v, co_v, x@, yp_v, st_v));
    let hash_result = sha256(serialized_data.as_slice());
    bytes_to_bits(hash_result.as_slice())
}

/// The positions below `n` whose bit is `b`, in increasing order.
pub open spec fn indices_where(bits: Seq<bool>, n: nat, b: bool) -> Seq<usize>
    decreases n,
{
    if n == 0 {
        Seq::empty()
    } else {
        let rest = indices_where(bits, (n - 1) as nat, b);
        if bits[n - 1] == b {
            rest.push((n - 1) as usize)
        } else {
            rest
        }
    }
}

/// The positions of `indices_where` are below `n`, carry the bit `b`,
/// increase strictly, and include every position below `n` that carries `b`.
pub proof fn lemma_indices_where(bits: Seq<bool>, n: nat, b: bool)
    requires
        n <= usize::MAX,
    ensures
        forall|p: int| 0 <= p < indices_where(bits, n, b).len() ==> {
            &&& (#[trigger] indices_where(bits, n, b)[p]) < n
            &&& bits[indices_where(bits, n, b)[p] as int] == b
        },
        forall|p: int, q: int| 0 <= p < q < indices_where(bits, n, b).len()
            ==> #[trigger] indices_where(bits, n, b)[p] < #[trigger] indices_where(bits, n, b)[q],
        forall|j: int| 0 <= j < n && bits[j] == b
            ==> exists|p: int| 0 <= p < indices_where(bits, n, b).len() && #[trigger] indices_where(bits, n, b)[p] == j,
    decreases n,
{
    if n > 0 {
        lemma_indices_where(bits, (n - 1) as nat, b);
        let rest = indices_where(bits, (n - 1) as nat, b);
        let all = indices_where(bits, n, b);
        assert forall|j: int| 0 <= j < n && bits[j] == b implies exists|p: int| 0 <= p < all.len() && #[trigger] all[p] == j by {
            if j == n - 1 {
                assert(all[rest.len() as int] == j);
            } else {
                let p = choose|p: int| 0 <= p < rest.len() && #[trigger] rest[p] == j;
                assert(all[p] == j);
            }
        }
    }
}

/// The first position of `is` that holds `idx`; the length of `is` where
/// none does.
pub open spec fn first_pos(is: Seq<usize>, idx: usize) -> nat
    decreases is.len(),
{
    if is.len() == 0 {
        0
    } else if is[0] == idx {
        0
    } else {
        1 + first_pos(is.drop_first(), idx)
    }
}

/// `first_pos` is a position before which `idx` does not occur, and at
/// which it does unless it is the length.
pub proof fn lemma_first_pos(is: Seq<usize>, idx: usize)
    ensures
        first_pos(is, idx) <= is.len(),
        forall|t: int| 0 <= t < first_pos(is, idx) ==> is[t] != idx,
        first_pos(is, idx) < is.len() ==> is[first_pos(is, idx) as int] == idx,
    decreases is.len(),
{
    if is.len() > 0 && is[0] != idx {
        lemma_first_pos(is.drop_first(), idx);
        assert forall|t: int| 0 <= t < first_pos(is, idx) implies is[t] != idx by {
            if t > 0 {
                assert(is[t] == is.drop_first()[t - 1]);
            }
        }
    }
}

/// A position that holds `idx`, with no earlier one that does, is the
/// first.
pub proof fn lemma_first_pos_at(is: Seq<usize>, idx: usize, t: int)
    requires
        0 <= t <= is.len(),
        t < is.len() ==> is[t] == idx,
        forall|u: int| 0 <= u < t ==> is[u] != idx,
    ensures
        first_pos(is, idx) == t,
    decreases is.len(),
{
    if is.len() > 0 && is[0] != idx {
        assert forall|u: int| 0 <= u < t - 1 implies is.drop_first()[u] != idx by {
            assert(is.drop_first()[u] == is[u + 1]);
        }
        lemma_first_pos_at(is.drop_first(), idx, t - 1);
    }
}

/// The Schnorr challenge of a public key, a nonce point and a message: the
/// SHA-256 digest of their encodings, reduced modulo the group order.
pub open spec fn schnorr_challenge(pk: Seq<u8>, rand: Seq<u8>, m: Seq<char>) -> nat {
    be_nat(sha256_digest(pk + rand + vstd::utf8::encode_utf8(m))) % secp_order()
}

/// The Schnorr challenge as a scalar; `None` where it is zero.
pub fn schnorr_hash(pk: &ChainPoint, rand: ChainPoint, m: &str) -> (r: Option<ChainScalar>)
    ensures
        match r {
            Some(s) => s.wf() && s.value() == schnorr_challenge(pk.bytes@, rand.bytes@, m@)
                && s.value() != 0,
            None => schnorr_challenge(pk.bytes@, rand.bytes@, m@) == 0,
        },
{
    let mut serialized_data: Vec<u8> = Vec::new();
    push_all(&mut serialized_data, pk.bytes.as_slice());
    push_all(&mut serialized_data, rand.bytes.as_slice());
    push_all(&mut serialized_data, m.as_bytes());
    let hash_result = sha256(serialized_data.as_slice());
    let r = chain_scalar_from_bytes_mod_order(hash_result);
    if r.is_zero() {
        None
    } else {
        Some(r)
    }
}

/// The character of a decimal digit.
pub open spec fn digit_char(d: nat) -> char {
    if d == 0 { '0' } else if d == 1 { '1' } else if d == 2 { '2' } else if d == 3 { '3' } else if d == 4 { '4' }
    else if d == 5 { '5' } else if d == 6 { '6' } else if d == 7 { '7' } else if d == 8 { '8' } else { '9' }
}

/// The decimal digits of `n`, most significant first, without leading
/// zeros (`0` for zero).
pub open spec fn decimal(n: nat) -> Seq<char>
    decreases n,
{
    if n < 10 {
        seq![digit_char(n)]
    } else {
        decimal(n / 10).push(digit_char(n % 10))
    }
}

/// The text of a decimal digit.
fn digit_str(d: usize) -> (r: &'static str)
    requires
        d < 10,
    ensures
        r@ == seq![digit_char(d as nat)],
{
    proof {
        reveal_strlit("0");
        reveal_strlit("1");
        reveal_strlit("2");
        reveal_strlit("3");
        reveal_strlit("4");
        reveal_strlit("5");
        reveal_strlit("6");
        reveal_strlit("7");
        reveal_strlit("8");
        reveal_strlit("9");
    }
    if d == 0 {
        "0"
    } else if d == 1 {
        "1"
    } else if d == 2 {
        "2"
    } else if d == 3 {
        "3"
    } else if d == 4 {
        "4"
    } else if d == 5 {
        "5"
    } else if d == 6 {
        "6"
    } else if d == 7 {
        "7"
    } else if d == 8 {
        "8"
    } else {
        "9"
    }
}

/// Appends the decimal digits of `n` to `s`.
pub fn push_decimal(s: &mut String, n: usize)
    ensures
        final(s)@ == old(s)@ + decimal(n as nat),
    decreases n,
{
    if n < 10 {
        s.append(digit_str(n));
    } else {
        push_decimal(s, n / 10);
        s.append(digit_str(n % 10));
        assert(old(s)@ + decimal(n as nat) =~= old(s)@ + decimal((n / 10) as nat) + seq![digit_char((n % 10) as nat)]);
    }
}

/// The label of state `i`: `state i`.
pub open spec fn state_label(i: nat) -> Seq<char> {
    "state "@ + decimal(i)
}

/// The label of the transition from state `j` to state `i`: `transition j-i`.
pub open spec fn transition_label(j: nat, i: nat) -> Seq<char> {
    "transition "@ + decimal(j) + "-"@ + decimal(i)
}

/// The label of the attestation that installment `i` was paid:
/// `transition passing i`.
pub open spec fn passing_label(i: nat) -> Seq<char> {
    "transition passing "@ + decimal(i)
}

/// `state i`.
fn make_state_label(i: usize) -> (s: String)
    ensures
        s@ == state_label(i as nat),
{
    let mut s = "state ".to_owned();
    push_decimal(&mut s, i);
    s
}

/// `transition j-i`.
fn make_transition_label(j: usize, i: usize) -> (s: String)
    ensures
        s@ == transition_label(j as nat, i as nat),
{
    let mut s = "transition ".to_owned();
    push_decimal(&mut s, j);
    s.append("-");
    push_decimal(&mut s, i);
    s
}

/// `transition passing i`.
fn make_passing_label(i: usize) -> (s: String)
    ensures
        s@ == passing_label(i as nat),
{
    let mut s = "transition passing ".to_owned();
    push_decimal(&mut s, i);
    s
}

/// The condition of one transition of a loan: from state `origin` to state
/// `end`, attested as `transition` and paid as `state`, with the witness of
/// the new state, its statement, and the precomputations of its
/// ciphertext.
pub struct MessagesAL {
    pub origin: usize,
    pub end: usize,
    pub state: String,
    pub transition: String,
    pub statement: ChainPoint,
    pub witness: ChainScalar,
    pub precomp: Vec<PreComp>,
}

/// The conditions of a loan with an involved oracle: the label of each
/// state and of the attestation that leads to it, and the statement and
/// witness of each state, the initial one first.
pub struct LoanContractIn {
    pub state: Vec<String>,
    pub transition: Vec<String>,
    pub statement: Vec<ChainPoint>,
    pub witness: Vec<ChainScalar>,
}

/// The transitions of a loan of `n` installments, state by state: from each
/// state `j < i` to each state `i` from 1 to `n`.
pub open spec fn loan_pairs(n: nat) -> Seq<(nat, nat)>
    decreases n,
{
    if n == 0 {
        Seq::empty()
    } else {
        loan_pairs((n - 1) as nat) + Seq::new(n, |j: int| (j as nat, n))
    }
}

/// There are at least `n` transitions in a loan of `n` installments.
pub proof fn lemma_loan_pairs_len(n: nat)
    ensures
        loan_pairs(n).len() >= n,
    decreases n,
{
    if n > 0 {
        lemma_loan_pairs_len((n - 1) as nat);
    }
}

/// Each transition of a loan of `n` installments goes from an earlier
/// state to a later one, at most `n`.
pub proof fn lemma_loan_pairs_bounds(n: nat)
    ensures
        forall|t: int| 0 <= t < loan_pairs(n).len() ==> (#[trigger] loan_pairs(n)[t]).0 < loan_pairs(n)[t].1 <= n,
    decreases n,
{
    if n > 0 {
        lemma_loan_pairs_bounds((n - 1) as nat);
        let prev = loan_pairs((n - 1) as nat);
        assert forall|t: int| 0 <= t < loan_pairs(n).len() implies (#[trigger] loan_pairs(n)[t]).0 < loan_pairs(n)[t].1 <= n by {
            if t < prev.len() {
                assert(loan_pairs(n)[t] == prev[t]);
            }
        }
    }
}

/// The condition `c` is that of the transition `p` (origin, end), with a
/// fresh non-zero witness, its statement and `gamma` honest
/// precomputations.
pub open spec fn condition_made(c: MessagesAL, p: (nat, nat), gamma: nat) -> bool {
    &&& c.origin == p.0
    &&& c.end == p.1
    &&& c.state@ == state_label(p.1)
    &&& c.transition@ == transition_label(p.0, p.1)
    &&& c.witness.wf()
    &&& c.witness.value() != 0
    &&& is_multiple(c.statement.bytes@, c.witness.value())
    &&& c.precomp@.len() == gamma
    &&& forall|j: int| 0 <= j < gamma ==> (#[trigger] c.precomp@[j]).honest()
}

/// The condition of the transition from `origin` to `end`.
fn make_condition(origin: usize, end: usize, gamma: usize) -> (c: MessagesAL)
    ensures
        condition_made(c, (origin as nat, end as nat), gamma as nat),
{
    let transition = make_transition_label(origin, end);
    let state = make_state_label(end);
    let witness = sample_rand_chain_scalar();
    let statement = chain_base_mul(&witness);
    let precomp = CVESCiphertextFig5::precompute(gamma);
    MessagesAL { origin, end, state, transition, statement, witness, precomp }
}

/// The conditions of every transition of a loan of `installments`
/// installments, each with `gamma` precomputations.
pub fn message_creator(installments: usize, gamma: usize) -> (tuples: Vec<MessagesAL>)
    ensures
        tuples@.len() == loan_pairs(installments as nat).len(),
        forall|t: int| 0 <= t < tuples@.len() ==> condition_made(#[trigger] tuples@[t], loan_pairs(installments as nat)[t], gamma as nat),
{
    let mut tuples: Vec<MessagesAL> = Vec::new();
    let mut i: usize = 0;
    while i < installments
        invariant
            i <= installments,
            tuples@.len() == loan_pairs(i as nat).len(),
            forall|t: int| 0 <= t < tuples@.len() ==> condition_made(#[trigger] tuples@[t], loan_pairs(i as nat)[t], gamma as nat),
        decreases installments - i,
    {
        let end: usize = i + 1;
        let ghost base = loan_pairs(i as nat).len();
        let mut j: usize = 0;
        while j < end
            invariant
                end == i + 1,
                j <= end,
                base == loan_pairs(i as nat).len(),
                tuples@.len() == base + j,
                forall|t: int| 0 <= t < base ==> condition_made(#[trigger] tuples@[t], loan_pairs(i as nat)[t], gamma as nat),
                forall|t: int| base <= t < base + j ==> condition_made(#[trigger] tuples@[t], ((t - base) as nat, end as nat), gamma as nat),
            decreases end - j,
        {
            tuples.push(make_condition(j, end, gamma));
            j = j + 1;
        }
        proof {
            let next = loan_pairs(end as nat);
            assert(next == loan_pairs(i as nat) + Seq::new(end as nat, |j: int| (j as nat, end as nat)));
            assert forall|t: int| 0 <= t < tuples@.len() implies condition_made(#[trigger] tuples@[t], next[t], gamma as nat) by {
                if t >= base {
                    assert(next[t] == ((t - base) as nat, end as nat));
                }
            }
        }
        i = i + 1;
    }
    tuples
}

/// The conditions of a loan of `installments` installments with an
/// involved oracle: states `state i` reached by `transition passing i`, and
/// a fresh witness for each state and for the initial one.
pub fn message_creator_involved_oracle(installments: usize) -> (c: LoanContractIn)
    ensures
        c.state@.len() == installments,
        c.transition@.len() == installments,
        c.statement@.len() == installments + 1,
        c.witness@.len() == installments + 1,
        forall|t: int| 0 <= t < installments ==> (#[trigger] c.state@[t])@ == state_label((t + 1) as nat)
            && c.transition@[t]@ == passing_label((t + 1) as nat),
        forall|t: int| 0 <= t <= installments ==> (#[trigger] c.witness@[t]).wf() && c.witness@[t].value() != 0
            && is_multiple(c.statement@[t].bytes@, c.witness@[t].value()),
{
    let mut state: Vec<String> = Vec::new();
    let mut transition: Vec<String> = Vec::new();
    let mut statement: Vec<ChainPoint> = Vec::new();
    let mut witness: Vec<ChainScalar> = Vec::new();
    let mut i: usize = 0;
    while i < installments
        invariant
            i <= installments,
            state@.len() == i,
            transition@.len() == i,
            statement@.len() == i,
            witness@.len() == i,
            forall|t: int| 0 <= t < i ==> (#[trigger] state@[t])@ == state_label((t + 1) as nat)
                && transition@[t]@ == passing_label((t + 1) as nat),
            forall|t: int| 0 <= t < i ==> (#[trigger] witness@[t]).wf() && witness@[t].value() != 0
                && is_multiple(statement@[t].bytes@, witness@[t].value()),
        decreases installments - i,
    {
        state.push(make_state_label(i + 1));
        transition.push(make_passing_label(i + 1));
        let w = sample_rand_chain_scalar();
        statement.push(chain_base_mul(&w));
        witness.push(w);
        i = i + 1;
    }
    let w0 = sample_rand_chain_scalar();
    let x0 = chain_base_mul(&w0);
    let ghost st_before = statement@;
    let ghost wi_before = witness@;
    statement.insert(0, x0);
    witness.insert(0, w0);
    proof {
        assert forall|t: int| 0 <= t <= installments implies (#[trigger] witness@[t]).wf() && witness@[t].value() != 0
            && is_multiple(statement@[t].bytes@, witness@[t].value()) by {
            if t > 0 {
                assert(witness@[t] == wi_before[t - 1]);
                assert(statement@[t] == st_before[t - 1]);
            }
        }
    }
    LoanContractIn { state, transition, statement, witness }
}

/// The witness of the origin of condition `t`: `w0` for the initial
/// state, otherwise that of the condition whose index is the origin.
pub open spec fn origin_witness(conds: Seq<MessagesAL>, t: int, w0: ChainScalar) -> ChainScalar {
    if conds[t].origin == 0 {
        w0
    } else {
        conds[conds[t].origin as int].witness
    }
}

/// Each condition has a canonical witness and at least `gamma` well-formed
/// precomputations, and its origin is the initial state or indexes the
/// conditions.
pub open spec fn conditions_ok(conds: Seq<MessagesAL>, gamma: nat) -> bool {
    forall|t: int| 0 <= t < conds.len() ==> {
        &&& (#[trigger] conds[t]).witness.wf()
        &&& conds[t].precomp@.len() >= gamma
        &&& forall|j: int| 0 <= j < gamma ==> (#[trigger] conds[t].precomp@[j]).wf()
        &&& (conds[t].origin == 0 || conds[t].origin < conds.len())
    }
}

/// What preparing the loan gives with the initial witness `w0`: a
/// ciphertext for each condition, encrypting its witness for the
/// transition from its origin, under the attestation of the transition and
/// the pre-signature on its payment; `None` only where an encryption met a
/// zero.
pub open spec fn loan_prepared(
    res: Option<Vec<CVESCiphertextFig5>>,
    gamma: nat,
    conds: Seq<MessagesAL>,
    pk: G1Point,
    kp: SchnorrPair,
    w0: ChainScalar,
    precoms: Seq<Seq<PreComp>>,
) -> bool {
    &&& res matches Some(cts) ==> {
        &&& cts@.len() == conds.len()
        &&& forall|t: int| 0 <= t < conds.len() ==> #[trigger] fig5_encrypts(
            cts@[t], gamma, pk, origin_witness(conds, t, w0), conds[t].transition@, conds[t].witness, kp, conds[t].state@, precoms[t])
    }
    &&& res is None ==> exists|t: int| 0 <= t < conds.len() && #[trigger] fig5_fails(
        origin_witness(conds, t, w0), conds[t].witness, kp, conds[t].state@, precoms[t], gamma)
}

/// Encrypts the witness of condition `t` for its transition, with the
/// initial witness `w0`, the precomputations `precom`, the pad `y` and the
/// nonce `k`.
pub(crate) fn encrypt_condition(
    gamma: usize,
    conditions: &Vec<MessagesAL>,
    t: usize,
    pk: G1Point,
    bank_kp: SchnorrPair,
    w0: ChainScalar,
    precom: &Vec<PreComp>,
    y: ChainScalar,
    k: ChainScalar,
) -> (res: Option<CVESCiphertextFig5>)
    requires
        gamma <= 256,
        pk.wf(),
        bank_kp.wf(),
        w0.wf(),
        conditions_ok(conditions@, 0),
        t < conditions@.len(),
        precom@.len() >= gamma,
        forall|j: int| 0 <= j < gamma ==> (#[trigger] precom@[j]).wf(),
        y.wf(),
        k.wf(),
        k.value() != 0,
    ensures
        condition_encrypted(res, gamma as nat, conditions@, t as int, pk, bank_kp, w0, precom@, y, k),
{
    let c = &conditions[t];
    let wa = if c.origin == 0 {
        w0
    } else {
        conditions[c.origin].witness
    };
    CVESCiphertextFig5::enc_cs_from_precom_with(gamma, pk, wa, c.transition.as_str(), c.witness, bank_kp, c.state.as_str(), precom, y, k)
}

/// What encrypting condition `t` gives with the initial witness `w0`, the
/// precomputations `precom`, the pad `y` and the nonce `k`: a ciphertext
/// made as `fig5_made` says; `None` where the encryption degenerates, and
/// only where it is refused (see `fig5_refused`).
pub open spec fn condition_encrypted(
    res: Option<CVESCiphertextFig5>,
    gamma: nat,
    conds: Seq<MessagesAL>,
    t: int,
    pk: G1Point,
    kp: SchnorrPair,
    w0: ChainScalar,
    precom: Seq<PreComp>,
    y: ChainScalar,
    k: ChainScalar,
) -> bool {
    let wa = origin_witness(conds, t, w0);
    &&& res matches Some(c) ==> c.wf(gamma) && fig5_made(c, gamma, pk, wa, conds[t].transition@, conds[t].witness, kp,
        conds[t].state@, precom, y, k)
    &&& fig5_degenerate(wa, conds[t].witness, kp, conds[t].state@, y, k) ==> res is None
    &&& res is None ==> fig5_refused(wa, conds[t].witness, kp, conds[t].state@, precom, gamma, y, k)
}

/// The ciphertexts of a prepared loan.
pub open spec fn prepared_ciphertexts(res: Option<(Vec<CVESCiphertextFig5>, ChainScalar)>) -> Option<Vec<CVESCiphertextFig5>> {
    match res {
        Some((cts, _)) => Some(cts),
        None => None,
    }
}

/// The precomputations of each condition.
pub open spec fn condition_precoms(conds: Seq<MessagesAL>) -> Seq<Seq<PreComp>> {
    conds.map_values(|c: MessagesAL| c.precomp@)
}

/// What encrypting the conditions gives with the initial witness `w0`, the
/// precomputations `precoms` and the pads `ys` and nonces `ks` of each
/// condition: a ciphertext for each, made as `fig5_made` says; `None` where
/// the encryption of some condition degenerates, and only where that of
/// some condition is refused.
pub open spec fn loan_encrypted(
    res: Option<Vec<CVESCiphertextFig5>>,
    gamma: nat,
    conds: Seq<MessagesAL>,
    pk: G1Point,
    kp: SchnorrPair,
    w0: ChainScalar,
    precoms: Seq<Seq<PreComp>>,
    ys: Seq<ChainScalar>,
    ks: Seq<ChainScalar>,
) -> bool {
    &&& res matches Some(cts) ==> {
        &&& cts@.len() == conds.len()
        &&& forall|t: int| 0 <= t < conds.len() ==> (#[trigger] cts@[t]).wf(gamma) && fig5_made(cts@[t], gamma, pk,
            origin_witness(conds, t, w0), conds[t].transition@, conds[t].witness, kp, conds[t].state@, precoms[t], ys[t], ks[t])
    }
    &&& (exists|t: int| 0 <= t < conds.len() && #[trigger] fig5_degenerate(origin_witness(conds, t, w0), conds[t].witness, kp,
        conds[t].state@, ys[t], ks[t])) ==> res is None
    &&& res is None ==> exists|t: int| 0 <= t < conds.len() && #[trigger] fig5_refused(origin_witness(conds, t, w0),
        conds[t].witness, kp, conds[t].state@, precoms[t], gamma, ys[t], ks[t])
}

/// The pads and nonces are canonical, one of each per condition, and the
/// nonces are not zero.
pub open spec fn pads_ok(ys: Seq<ChainScalar>, ks: Seq<ChainScalar>, n: nat) -> bool {
    &&& ys.len() == n
    &&& ks.len() == n
    &&& forall|t: int| 0 <= t < n ==> (#[trigger] ys[t]).wf() && ks[t].wf() && ks[t].value() != 0
}

/// Encrypts the witness of each condition for its transition with the
/// condition's precomputations, the initial witness `w0`, and the pad and
/// nonce of the condition.
pub fn prepare_loan_with(
    gamma: usize,
    conditions: &Vec<MessagesAL>,
    pk: G1Point,
    bank_kp: SchnorrPair,
    w0: ChainScalar,
    ys: &Vec<ChainScalar>,
    ks: &Vec<ChainScalar>,
) -> (res: Option<Vec<CVESCiphertextFig5>>)
    requires
        gamma <= 256,
        pk.wf(),
        bank_kp.wf(),
        w0.wf(),
        conditions_ok(conditions@, gamma as nat),
        pads_ok(ys@, ks@, conditions@.len()),
    ensures
        loan_encrypted(res, gamma as nat, conditions@, pk, bank_kp, w0, condition_precoms(conditions@), ys@, ks@),
        res matches Some(cts) ==> forall|t: int| 0 <= t < conditions@.len() ==> {
                let w = if conditions@[t].origin == 0 { w0 } else { conditions@[conditions@[t].origin as int].witness };
                &&& is_multiple((#[trigger] cts@[t]).xa.bytes@, w.value())
                &&& cts@[t].c_omega.value() == ((ys@[t].value() + w.value()) % secp_order() + conditions@[t].witness.value()) % secp_order()
            },
{
    let ghost pv = condition_precoms(conditions@);
    let mut cts: Vec<CVESCiphertextFig5> = Vec::new();
    let mut t: usize = 0;
    while t < conditions.len()
        invariant
            gamma <= 256,
            pk.wf(),
            bank_kp.wf(),
            w0.wf(),
            conditions_ok(conditions@, gamma as nat),
            pads_ok(ys@, ks@, conditions@.len()),
            pv == condition_precoms(conditions@),
            t <= conditions@.len(),
            cts@.len() == t,
            forall|u: int| 0 <= u < t ==> (#[trigger] cts@[u]).wf(gamma as nat) && fig5_made(cts@[u], gamma as nat, pk,
                origin_witness(conditions@, u, w0), conditions@[u].transition@, conditions@[u].witness, bank_kp,
                conditions@[u].state@, pv[u], ys@[u], ks@[u]),
            forall|u: int| 0 <= u < t ==> !#[trigger] fig5_degenerate(origin_witness(conditions@, u, w0),
                conditions@[u].witness, bank_kp, conditions@[u].state@, ys@[u], ks@[u]),
        decreases conditions@.len() - t,
    {
        assert(pv[t as int] == conditions@[t as int].precomp@);
        let ct = encrypt_condition(gamma, conditions, t, pk, bank_kp, w0, &conditions[t].precomp, ys[t], ks[t]);
        match ct {
            Some(ct) => {
                cts.push(ct);
            },
            None => {
                let r: Option<Vec<CVESCiphertextFig5>> = None;
                assert(fig5_refused(origin_witness(conditions@, t as int, w0), conditions@[t as int].witness, bank_kp,
                    conditions@[t as int].state@, pv[t as int], gamma as nat, ys@[t as int], ks@[t as int]));
                return r;
            },
        }
        t = t + 1;
    }
    proof {
        lemma_loan_origins(cts, gamma as nat, conditions@, pk, bank_kp, w0, pv, ys@, ks@);
    }
    Some(cts)
}

/// The witness under which each ciphertext of a loan is made: for a
/// condition whose origin is a state `o` after the initial one, the
/// statement `xa` of its ciphertext is the multiple of the witness of
/// condition `o`, and its one-time pad is `(y + w_o) + w_t` with the pad
/// `y` of the condition; for a condition from the initial state they are
/// those of the initial witness `w0`.
pub proof fn lemma_loan_origins(
    cts: Vec<CVESCiphertextFig5>,
    gamma: nat,
    conds: Seq<MessagesAL>,
    pk: G1Point,
    kp: SchnorrPair,
    w0: ChainScalar,
    precoms: Seq<Seq<PreComp>>,
    ys: Seq<ChainScalar>,
    ks: Seq<ChainScalar>,
)
    requires
        loan_encrypted(Some(cts), gamma, conds, pk, kp, w0, precoms, ys, ks),
    ensures
        forall|t: int| 0 <= t < conds.len() ==> {
            let w = if conds[t].origin == 0 { w0 } else { conds[conds[t].origin as int].witness };
            &&& is_multiple((#[trigger] cts@[t]).xa.bytes@, w.value())
            &&& cts@[t].c_omega.value() == ((ys[t].value() + w.value()) % secp_order() + conds[t].witness.value()) % secp_order()
        },
{
    assert forall|t: int| 0 <= t < conds.len() implies {
        let w = if conds[t].origin == 0 { w0 } else { conds[conds[t].origin as int].witness };
        &&& is_multiple((#[trigger] cts@[t]).xa.bytes@, w.value())
        &&& cts@[t].c_omega.value() == ((ys[t].value() + w.value()) % secp_order() + conds[t].witness.value()) % secp_order()
    } by {
        assert(fig5_made(cts@[t], gamma, pk, origin_witness(conds, t, w0), conds[t].transition@, conds[t].witness, kp,
            conds[t].state@, precoms[t], ys[t], ks[t]));
    }
}

/// Encrypting with non-zero pads and nonces gives what `loan_prepared`
/// says.
pub proof fn lemma_encrypted_prepared(
    res: Option<Vec<CVESCiphertextFig5>>,
    gamma: nat,
    conds: Seq<MessagesAL>,
    pk: G1Point,
    kp: SchnorrPair,
    w0: ChainScalar,
    precoms: Seq<Seq<PreComp>>,
    ys: Seq<ChainScalar>,
    ks: Seq<ChainScalar>,
)
    requires
        loan_encrypted(res, gamma, conds, pk, kp, w0, precoms, ys, ks),
        pads_ok(ys, ks, conds.len()),
        forall|t: int| 0 <= t < conds.len() ==> (#[trigger] ys[t]).value() != 0,
    ensures
        loan_prepared(res, gamma, conds, pk, kp, w0, precoms),
{
    reveal(fig5_encrypts);
    reveal(fig5_fails);
    if res is Some {
        let cts = res->0;
        assert forall|t: int| 0 <= t < conds.len() implies #[trigger] fig5_encrypts(
            cts@[t], gamma, pk, origin_witness(conds, t, w0), conds[t].transition@, conds[t].witness, kp, conds[t].state@,
            precoms[t]) by {
            assert(ys[t].wf() && ys[t].value() != 0 && ks[t].wf() && ks[t].value() != 0);
            assert(fig5_made(cts@[t], gamma, pk, origin_witness(conds, t, w0), conds[t].transition@, conds[t].witness, kp,
                conds[t].state@, precoms[t], ys[t], ks[t]));
        }
    } else {
        let t = choose|t: int| 0 <= t < conds.len() && #[trigger] fig5_refused(origin_witness(conds, t, w0),
            conds[t].witness, kp, conds[t].state@, precoms[t], gamma, ys[t], ks[t]);
        assert(ys[t].wf() && ys[t].value() != 0 && ks[t].wf() && ks[t].value() != 0);
        assert(fig5_degenerate(origin_witness(conds, t, w0), conds[t].witness, kp, conds[t].state@, ys[t], ks[t])
            || exists|j: int| 0 <= j < gamma && (ys[t].value() + precoms[t][j].ri.value()) % secp_order() == 0);
        assert(fig5_fails(origin_witness(conds, t, w0), conds[t].witness, kp, conds[t].state@, precoms[t], gamma));
    }
}

/// Prepares a loan: draws the initial witness and a pad and a nonce for
/// each condition, and encrypts the witness of each condition for its
/// transition with the condition's precomputations
/// (`prepare_loan_with`); gives the ciphertexts and the initial witness.
pub fn prepare_loan(gamma: usize, conditions: Vec<MessagesAL>, pk: G1Point, bank_kp: SchnorrPair)
    -> (res: Option<(Vec<CVESCiphertextFig5>, ChainScalar)>)
    requires
        gamma <= 256,
        pk.wf(),
        bank_kp.wf(),
        conditions_ok(conditions@, gamma as nat),
    ensures
        exists|w0: ChainScalar, ys: Seq<ChainScalar>, ks: Seq<ChainScalar>| {
            &&& w0.wf() && w0.value() != 0
            &&& pads_ok(ys, ks, conditions@.len())
            &&& forall|t: int| 0 <= t < conditions@.len() ==> (#[trigger] ys[t]).value() != 0
            &&& #[trigger] loan_encrypted(prepared_ciphertexts(res), gamma as nat, conditions@, pk, bank_kp, w0,
                condition_precoms(conditions@), ys, ks)
            &&& res matches Some((_, w)) ==> w == w0
        },
        exists|w0: ChainScalar| {
            &&& w0.wf() && w0.value() != 0
            &&& #[trigger] loan_prepared(prepared_ciphertexts(res), gamma as nat, conditions@, pk, bank_kp, w0, condition_precoms(conditions@))
            &&& res matches Some((_, w)) ==> w == w0
        },
{
    let w0 = sample_rand_chain_scalar();
    let n: usize = conditions.len();
    let ys = sample_rand_chain_scalars(n);
    let ks = sample_rand_chain_scalars(n);
    let cts = prepare_loan_with(gamma, &conditions, pk, bank_kp, w0, &ys, &ks);
    let res = match cts {
        Some(cts) => Some((cts, w0)),
        None => None,
    };
    proof {
        assert(prepared_ciphertexts(res) == cts);
        lemma_encrypted_prepared(cts, gamma as nat, conditions@, pk, bank_kp, w0, condition_precoms(conditions@), ys@, ks@);
    }
    res
}

/// What verifying the ciphertexts of a loan returns: `Ok` where each
/// verifies, otherwise the error of the first that does not.
pub open spec fn loan_verified(res: Result<(), CvesError>, cves: Seq<CVESCiphertextFig5>, gamma: nat) -> bool {
    &&& res is Ok <==> forall|t: int| 0 <= t < cves.len() ==> (#[trigger] cves[t]).verify_result(gamma) is Ok
    &&& res is Err ==> exists|t: int| 0 <= t < cves.len()
        && (forall|u: int| 0 <= u < t ==> (#[trigger] cves[u]).verify_result(gamma) is Ok)
        && res == #[trigger] cves[t].verify_result(gamma)
}

/// Verifies each ciphertext of a loan for `gamma` positions.
pub fn verify_loan(gamma: usize, cves: Vec<CVESCiphertextFig5>) -> (res: Result<(), CvesError>)
    requires
        forall|t: int| 0 <= t < cves@.len() ==> (#[trigger] cves@[t]).wf(gamma as nat),
    ensures
        loan_verified(res, cves@, gamma as nat),
{
    let mut t: usize = 0;
    while t < cves.len()
        invariant
            forall|u: int| 0 <= u < cves@.len() ==> (#[trigger] cves@[u]).wf(gamma as nat),
            t <= cves@.len(),
            forall|u: int| 0 <= u < t ==> (#[trigger] cves@[u]).verify_result(gamma as nat) is Ok,
        decreases cves@.len() - t,
    {
        let r = cves[t].verify(gamma);
        if r.is_err() {
            assert(r == cves@[t as int].verify_result(gamma as nat));
            return r;
        }
        t = t + 1;
    }
    Ok(())
}

/// A loan prepared from honest precomputations, where no witness sums to
/// zero with the witness of its origin, verifies: each of its ciphertexts
/// passes verification.
pub proof fn lemma_loan_verifies(
    cts: Vec<CVESCiphertextFig5>,
    gamma: nat,
    conds: Seq<MessagesAL>,
    pk: G1Point,
    kp: SchnorrPair,
    w0: ChainScalar,
    precoms: Seq<Seq<PreComp>>,
)
    requires
        loan_prepared(Some(cts), gamma, conds, pk, kp, w0, precoms),
        conditions_ok(conds, 0),
        precoms.len() == conds.len(),
        forall|t: int, j: int| 0 <= t < precoms.len() && 0 <= j < gamma ==> (#[trigger] precoms[t][j]).honest(),
        pk.wf(),
        kp.wf(),
        w0.wf(),
        forall|t: int| 0 <= t < conds.len()
            ==> (#[trigger] origin_witness(conds, t, w0).value() + conds[t].witness.value()) % secp_order() != 0,
    ensures
        forall|t: int| 0 <= t < cts@.len() ==> (#[trigger] cts@[t]).verify_result(gamma) is Ok,
{
    assert forall|t: int| 0 <= t < cts@.len() implies (#[trigger] cts@[t]).verify_result(gamma) is Ok by {
        assert(fig5_encrypts(cts@[t], gamma, pk, origin_witness(conds, t, w0), conds[t].transition@, conds[t].witness, kp,
            conds[t].state@, precoms[t]));
        assert(conds[t].witness.wf());
        if conds[t].origin != 0 {
            assert(conds[conds[t].origin as int].witness.wf());
        }
        assert(origin_witness(conds, t, w0).value() + conds[t].witness.value() == origin_witness(conds, t, w0).value() + conds[t].witness.value());
        assert forall|j: int| 0 <= j < gamma implies (#[trigger] precoms[t][j]).honest() by {}
        crate::cvesfig5::lemma_fig5_encrypts_verifies(cts@[t], gamma, pk, origin_witness(conds, t, w0), conds[t].transition@,
            conds[t].witness, kp, conds[t].state@, precoms[t]);
    }
}

} // verus!
