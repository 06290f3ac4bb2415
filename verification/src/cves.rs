//! Verifiable encryption of a witness under a condition, as free functions:
//! the witness `sec` of a new state is hidden behind a one-time pad, each
//! of `gamma` WES ciphertexts encrypts a secret that opens the pad, and a
//! cut-and-choose proof, whose challenge is a hash of the ciphertext, shows
//! that they were made honestly.

use vstd::prelude::*;
use vstd::arithmetic::div_mod::{lemma_small_mod, lemma_mod_twice};
use crate::bytes::bits_of;
use crate::hashing::sha256_digest;
use crate::chain::{
    ChainScalar, ChainPoint, secp_order, chain_point_enc, chain_log, is_multiple, lemma_chain_only,
    lemma_sub_summand, lemma_add_assoc_mod, chain_scalar_add, chain_scalar_sub, chain_base_mul, chain_point_add,
};
use crate::curve::{BlsScalar, G1Point, G2Point, GtElem, bls_order, g1_log, g1_only, g2_log, gt_log};
use crate::common::{
    hash_to_bits, challenge_data, indices_where, lemma_indices_where, sample_rand_chain_scalar, first_pos,
    lemma_first_pos, lemma_first_pos_at,
};
use crate::wes::{
    WESCiphertext, PreComp, wes_dec_spec, message_log, wes_enc, wes_enc_precom, wes_enc_precom_vector, wes_dec,
    lemma_wes_decrypt,
};
use crate::signbls::{bls_verify_spec, hash_sum};
use crate::schnorradaptor::{
    SchnorrPair, SchnorrPreSig, SchnorrSig, pre_sign_spec, pre_verify_spec, sub_mod, verify_spec,
    lemma_pre_sign_then_pre_verify, lemma_adapt_then_verify, pre_sign_with_nonce, pre_verify, adapt,
};
use crate::cvesfig5::{CVESCiphertextFig5, dec_result_matches};
use crate::efficient::{cell_made, strings_view};

verus! {

/// Why a CVES operation did not succeed.
#[derive(Clone, Copy, PartialEq, Eq, Debug)]
pub enum CvesError {
    /// A scalar or a point that the scheme needs non-zero came out zero.
    ZeroScalar,
    /// The one-time pad of the secret does not match the statements.
    InvalidEncryption,
    /// The pre-signature does not verify.
    InvalidPresignature,
    /// An opened or an unopened position of the cut-and-choose proof fails.
    InvalidCutAndChoose,
    /// No unopened position decrypts to its committed secret.
    DecryptionFailed,
    /// The witness given is not that of the origin state.
    WitnessMismatch,
    /// The decrypted witness is not that of the new state.
    InvalidWitness,
}

/// An opened position: the secret and the coins of its WES ciphertext, and
/// the ciphertext.
pub struct SopUnit {
    pub i: usize,
    pub ri: ChainScalar,
    pub rho: (BlsScalar, GtElem),
    pub ci: WESCiphertext,
}

/// An unopened position: the secret shifted by the pad, and the WES
/// ciphertext of the secret.
pub struct SuopUnit {
    pub i: usize,
    pub si: ChainScalar,
    pub ci: WESCiphertext,
}

/// A CVES ciphertext.
pub struct CVESCiphertext {
    pub cis: Vec<WESCiphertext>,
    pub c_omega: ChainScalar,
    pub sop: Vec<SopUnit>,
    pub suop: Vec<SuopUnit>,
    pub v_ri_pub: Vec<ChainPoint>,
    pub xa: ChainPoint,
    pub xw: ChainPoint,
    pub y_pub: ChainPoint,
    pub sigma_tilde: SchnorrPreSig,
}

impl CVESCiphertext {
    /// The challenge bits of the cut-and-choose proof, for the statements
    /// `xa` and `xw`.
    pub open spec fn bits_for(&self, xa: ChainPoint, xw: ChainPoint) -> Seq<bool> {
        bits_of(sha256_digest(challenge_data(self.cis@, self.v_ri_pub@, self.c_omega, xa, xw, self.y_pub, self.sigma_tilde)))
    }

    /// The positions of the opened units, in order.
    pub open spec fn sop_positions(&self) -> Seq<usize> {
        self.sop@.map_values(|u: SopUnit| u.i)
    }

    /// The positions of the unopened units, in order.
    pub open spec fn suop_positions(&self) -> Seq<usize> {
        self.suop@.map_values(|u: SuopUnit| u.i)
    }

    /// Every part is a canonical scalar or an element of its group, and the
    /// positions of the unopened units index the commitments.
    pub open spec fn wf(&self) -> bool {
        &&& forall|j: int| 0 <= j < self.cis@.len() ==> (#[trigger] self.cis@[j]).wf()
        &&& forall|j: int| 0 <= j < self.v_ri_pub@.len() ==> (#[trigger] self.v_ri_pub@[j]).wf()
        &&& self.c_omega.wf()
        &&& self.xa.wf()
        &&& self.xw.wf()
        &&& self.y_pub.wf()
        &&& self.sigma_tilde.wf()
        &&& forall|t: int| 0 <= t < self.sop@.len() ==> {
            &&& (#[trigger] self.sop@[t]).ri.wf()
            &&& self.sop@[t].rho.0.wf()
            &&& self.sop@[t].rho.1.wf()
        }
        &&& forall|t: int| 0 <= t < self.suop@.len() ==> {
            &&& (#[trigger] self.suop@[t]).si.wf()
            &&& self.suop@[t].ci.wf()
            &&& self.suop@[t].i < self.v_ri_pub@.len()
        }
    }
}

/// What the encryption makes: `c` hides `sec` for the message element of
/// logarithm `mlog`, with the precomputations `precom`, the pad `y` and the
/// pre-signature nonce `k` of the key pair `kp` on `tx`; the statement `xa`
/// is `wa_x` times the generator and the one-time pad `(y + wa_c) + sec`.
pub open spec fn cves_made(
    c: CVESCiphertext,
    gamma: nat,
    mlog: nat,
    precom: Seq<PreComp>,
    y: nat,
    wa_x: nat,
    wa_c: nat,
    sec: ChainScalar,
    kp: SchnorrPair,
    tx: Seq<char>,
    k: nat,
) -> bool {
    let yt = (y + wa_x) % secp_order();
    let bits = c.bits_for(c.xa, c.xw);
    &&& c.cis@.len() == gamma
    &&& c.v_ri_pub@.len() == gamma
    &&& forall|j: int| 0 <= j < gamma ==> cell_made(#[trigger] c.cis@[j], precom[j], mlog)
    &&& forall|j: int| 0 <= j < gamma ==> (#[trigger] c.v_ri_pub@[j]) == precom[j].ri_pub
    &&& is_multiple(c.y_pub.bytes@, y)
    &&& is_multiple(c.xa.bytes@, wa_x)
    &&& is_multiple(c.xw.bytes@, sec.value())
    &&& yt != 0
    &&& c.sigma_tilde.wf()
    &&& pre_sign_spec(kp.secret(), kp.public(), tx, yt, k) == Some(c.sigma_tilde.values())
    &&& c.c_omega.wf()
    &&& c.c_omega.value() == ((y + wa_c) % secp_order() + sec.value()) % secp_order()
    &&& c.sop@.len() == indices_where(bits, gamma, true).len()
    &&& forall|t: int| 0 <= t < c.sop@.len() ==> {
        let i = indices_where(bits, gamma, true)[t] as int;
        &&& (#[trigger] c.sop@[t]).i == i
        &&& c.sop@[t].ri == precom[i].ri
        &&& c.sop@[t].rho.0 == precom[i].r1
        &&& c.sop@[t].rho.1@ == precom[i].r2@
        &&& c.sop@[t].ci.c1 == c.cis@[i].c1
        &&& c.sop@[t].ci.c2@ == c.cis@[i].c2@
        &&& c.sop@[t].ci.c3 == c.cis@[i].c3
    }
    &&& c.suop@.len() == indices_where(bits, gamma, false).len()
    &&& forall|t: int| 0 <= t < c.suop@.len() ==> {
        let i = indices_where(bits, gamma, false)[t] as int;
        &&& (#[trigger] c.suop@[t]).i == i
        &&& c.suop@[t].si.wf()
        &&& c.suop@[t].si.value() == (y + precom[i].ri.value()) % secp_order()
        &&& c.suop@[t].ci.c1 == c.cis@[i].c1
        &&& c.suop@[t].ci.c2@ == c.cis@[i].c2@
        &&& c.suop@[t].ci.c3 == c.cis@[i].c3
    }
}

/// The shifted statement `Y + X_a` is zero, or the pre-signature fails.
pub open spec fn cves_degenerate(y: nat, wa_x: nat, kp: SchnorrPair, tx: Seq<char>, k: nat) -> bool {
    let yt = (y + wa_x) % secp_order();
    yt == 0 || pre_sign_spec(kp.secret(), kp.public(), tx, yt, k) is None
}

/// What encrypting with the pad `y` and the nonce `k` returns: `None`
/// exactly where the shifted statement or the pre-signature meets a zero, a
/// ciphertext made as `cves_made` says otherwise.
pub open spec fn cves_enc_result(
    res: Option<CVESCiphertext>,
    gamma: nat,
    mlog: nat,
    precom: Seq<PreComp>,
    y: nat,
    wa_x: nat,
    wa_c: nat,
    sec: ChainScalar,
    kp: SchnorrPair,
    tx: Seq<char>,
    k: nat,
) -> bool {
    &&& res is None <==> cves_degenerate(y, wa_x, kp, tx, k)
    &&& res matches Some(c) ==> c.wf() && cves_made(c, gamma, mlog, precom, y, wa_x, wa_c, sec, kp, tx, k)
}

/// The statements, the pre-signature and the one-time pad of an
/// encryption; `None` exactly where the shifted statement or the
/// pre-signature meets a zero.
fn cves_pad(y: &ChainScalar, wa_x: &ChainScalar, wa_c: &ChainScalar, sec: &ChainScalar, a_kp: &SchnorrPair, tx: &str, k: &ChainScalar)
    -> (res: Option<(ChainPoint, ChainPoint, ChainPoint, SchnorrPreSig, ChainScalar)>)
    requires
        y.wf(),
        wa_x.wf(),
        wa_c.wf(),
        sec.wf(),
        a_kp.wf(),
        k.wf(),
        k.value() != 0,
    ensures
        res is None <==> cves_degenerate(y.value(), wa_x.value(), *a_kp, tx@, k.value()),
        res matches Some((y_pub, xa, xw, sigma_tilde, c_omega)) ==> {
            let yt = (y.value() + wa_x.value()) % secp_order();
            &&& is_multiple(y_pub.bytes@, y.value())
            &&& is_multiple(xa.bytes@, wa_x.value())
            &&& is_multiple(xw.bytes@, sec.value())
            &&& sigma_tilde.wf()
            &&& pre_sign_spec(a_kp.secret(), a_kp.public(), tx@, yt, k.value()) == Some(sigma_tilde.values())
            &&& c_omega.wf()
            &&& c_omega.value() == ((y.value() + wa_c.value()) % secp_order() + sec.value()) % secp_order()
        },
{
    let y_pub = chain_base_mul(y);
    let xa = chain_base_mul(wa_x);
    let xw = chain_base_mul(sec);
    let y_tilde_pub = chain_point_add(&y_pub, &xa);
    proof {
        let t = (y.value() + wa_x.value()) % secp_order();
        lemma_chain_only(y_pub.bytes@, y.value(), y_pub.bytes@, y.value());
        lemma_chain_only(xa.bytes@, wa_x.value(), xa.bytes@, wa_x.value());
        lemma_chain_only(y_tilde_pub.bytes@, t, y_tilde_pub.bytes@, t);
    }
    if y_tilde_pub.is_zero() {
        return None;
    }
    let sigma_tilde = match pre_sign_with_nonce(a_kp, tx, &y_tilde_pub, k) {
        Some(s) => s,
        None => return None,
    };
    let c_omega = chain_scalar_add(y, wa_c);
    let c_omega = chain_scalar_add(&c_omega, sec);
    Some((y_pub, xa, xw, sigma_tilde, c_omega))
}

/// The opened units (bit 1) and unopened units (bit 0) of the positions
/// below `gamma`.
fn cves_units(gamma: usize, precom: &Vec<PreComp>, cis: &Vec<WESCiphertext>, bits: &Vec<bool>, y: &ChainScalar)
    -> (res: (Vec<SopUnit>, Vec<SuopUnit>))
    requires
        gamma <= 256,
        bits@.len() == 256,
        gamma <= precom@.len(),
        forall|j: int| 0 <= j < gamma ==> (#[trigger] precom@[j]).wf(),
        y.wf(),
        cis@.len() == gamma,
        forall|j: int| 0 <= j < gamma ==> (#[trigger] cis@[j]).wf(),
    ensures
        res.0@.len() == indices_where(bits@, gamma as nat, true).len(),
        forall|t: int| 0 <= t < res.0@.len() ==> {
            let j = indices_where(bits@, gamma as nat, true)[t] as int;
            &&& (#[trigger] res.0@[t]).i == j
            &&& res.0@[t].ri == precom@[j].ri
            &&& res.0@[t].rho.0 == precom@[j].r1
            &&& res.0@[t].rho.1@ == precom@[j].r2@
            &&& res.0@[t].ci.c1 == cis@[j].c1
            &&& res.0@[t].ci.c2@ == cis@[j].c2@
            &&& res.0@[t].ci.c3 == cis@[j].c3
            &&& res.0@[t].ri.wf()
            &&& res.0@[t].rho.0.wf()
            &&& res.0@[t].rho.1.wf()
        },
        res.1@.len() == indices_where(bits@, gamma as nat, false).len(),
        forall|t: int| 0 <= t < res.1@.len() ==> {
            let j = indices_where(bits@, gamma as nat, false)[t] as int;
            &&& (#[trigger] res.1@[t]).i == j
            &&& res.1@[t].si.wf()
            &&& res.1@[t].si.value() == (y.value() + precom@[j].ri.value()) % secp_order()
            &&& res.1@[t].ci.c1 == cis@[j].c1
            &&& res.1@[t].ci.c2@ == cis@[j].c2@
            &&& res.1@[t].ci.c3 == cis@[j].c3
            &&& res.1@[t].i < gamma
            &&& res.1@[t].ci.wf()
        },
{
    let ghost bs = bits@;
    let mut sop: Vec<SopUnit> = Vec::new();
    let mut suop: Vec<SuopUnit> = Vec::new();
    let mut i: usize = 0;
    while i < gamma
        invariant
            i <= gamma,
            gamma <= 256,
            gamma <= precom@.len(),
            forall|j: int| 0 <= j < gamma ==> (#[trigger] precom@[j]).wf(),
            y.wf(),
            bits@ == bs,
            bs.len() == 256,
            cis@.len() == gamma,
            forall|j: int| 0 <= j < gamma ==> (#[trigger] cis@[j]).wf(),
            sop@.len() == indices_where(bs, i as nat, true).len(),
            forall|t: int| 0 <= t < sop@.len() ==> {
                let j = indices_where(bs, i as nat, true)[t] as int;
                &&& (#[trigger] sop@[t]).i == j
                &&& sop@[t].ri == precom@[j].ri
                &&& sop@[t].rho.0 == precom@[j].r1
                &&& sop@[t].rho.1@ == precom@[j].r2@
                &&& sop@[t].ci.c1 == cis@[j].c1
                &&& sop@[t].ci.c2@ == cis@[j].c2@
                &&& sop@[t].ci.c3 == cis@[j].c3
                &&& sop@[t].ri.wf()
                &&& sop@[t].rho.0.wf()
                &&& sop@[t].rho.1.wf()
            },
            suop@.len() == indices_where(bs, i as nat, false).len(),
            forall|t: int| 0 <= t < suop@.len() ==> {
                let j = indices_where(bs, i as nat, false)[t] as int;
                &&& (#[trigger] suop@[t]).i == j
                &&& suop@[t].si.wf()
                &&& suop@[t].si.value() == (y.value() + precom@[j].ri.value()) % secp_order()
                &&& suop@[t].ci.c1 == cis@[j].c1
                &&& suop@[t].ci.c2@ == cis@[j].c2@
                &&& suop@[t].ci.c3 == cis@[j].c3
                &&& suop@[t].i < gamma
                &&& suop@[t].ci.wf()
            },
        decreases gamma - i,
    {
        let ci = cis[i].copy();
        if bits[i] {
            let r2 = precom[i].r2.copy();
            sop.push(SopUnit { i, ri: precom[i].ri, rho: (precom[i].r1, r2), ci });
        } else {
            let si = chain_scalar_add(y, &precom[i].ri);
            suop.push(SuopUnit { i, si, ci });
        }
        i = i + 1;
    }
    (sop, suop)
}

/// Finishes an encryption whose WES ciphertexts `cis` complete the
/// precomputations: the pad `y`, the statements (`xa` of `wa_x`, `xw` of
/// `sec`), the pre-signature with the nonce `k`, the one-time pad
/// `(y + wa_c) + sec`, and the units that the challenge selects.
fn cves_encrypt_with(
    gamma: usize,
    cis: Vec<WESCiphertext>,
    mlog: Ghost<nat>,
    precom: &Vec<PreComp>,
    y: ChainScalar,
    wa_x: ChainScalar,
    wa_c: ChainScalar,
    sec: ChainScalar,
    a_kp: &SchnorrPair,
    tx: &str,
    k: ChainScalar,
) -> (res: Option<CVESCiphertext>)
    requires
        gamma <= 256,
        precom@.len() >= gamma,
        forall|j: int| 0 <= j < gamma ==> (#[trigger] precom@[j]).wf(),
        cis@.len() == gamma,
        forall|j: int| 0 <= j < gamma ==> cell_made(#[trigger] cis@[j], precom@[j], mlog@),
        y.wf(),
        wa_x.wf(),
        wa_c.wf(),
        sec.wf(),
        a_kp.wf(),
        k.wf(),
        k.value() != 0,
    ensures
        cves_enc_result(res, gamma as nat, mlog@, precom@, y.value(), wa_x.value(), wa_c.value(), sec, *a_kp, tx@, k.value()),
{
    let (y_pub, xa, xw, sigma_tilde, c_omega) = match cves_pad(&y, &wa_x, &wa_c, &sec, a_kp, tx, &k) {
        Some(p) => p,
        None => return None,
    };
    let mut v_ri_pub: Vec<ChainPoint> = Vec::new();
    let mut i: usize = 0;
    while i < gamma
        invariant
            i <= gamma,
            precom@.len() >= gamma,
            forall|j: int| 0 <= j < gamma ==> (#[trigger] precom@[j]).wf(),
            v_ri_pub@.len() == i,
            forall|j: int| 0 <= j < i ==> (#[trigger] v_ri_pub@[j]) == precom@[j].ri_pub,
        decreases gamma - i,
    {
        v_ri_pub.push(precom[i].ri_pub);
        i = i + 1;
    }
    let ri_pub_copy = v_ri_pub.clone();
    assert(ri_pub_copy@ == v_ri_pub@);
    let bits = hash_to_bits(&cis, ri_pub_copy, c_omega, xa, xw, y_pub, &sigma_tilde);
    proof {
        assert forall|j: int| 0 <= j < gamma implies (#[trigger] cis@[j]).wf() by {
            assert(cell_made(cis@[j], precom@[j], mlog@));
        }
    }
    let (sop, suop) = cves_units(gamma, precom, &cis, &bits, &y);
    let c = CVESCiphertext { cis, c_omega, sop, suop, v_ri_pub, xa, xw, y_pub, sigma_tilde };
    proof {
        assert(c.bits_for(c.xa, c.xw) == bits@);
        assert forall|j: int| 0 <= j < c.v_ri_pub@.len() implies (#[trigger] c.v_ri_pub@[j]).wf() by {
            assert(precom@[j].wf());
        }
    }
    Some(c)
}

/// The WES ciphertexts of the precomputations for `pk` and `m`.
fn cves_cis(gamma: usize, pk: &G1Point, m: &str, precom: &Vec<PreComp>) -> (cis: Vec<WESCiphertext>)
    requires
        pk.wf(),
        precom@.len() >= gamma,
        forall|j: int| 0 <= j < gamma ==> (#[trigger] precom@[j]).wf(),
    ensures
        cis@.len() == gamma,
        forall|j: int| 0 <= j < gamma ==> cell_made(#[trigger] cis@[j], precom@[j], message_log(pk.bytes@, m@)),
{
    let mut cis: Vec<WESCiphertext> = Vec::new();
    let mut i: usize = 0;
    while i < gamma
        invariant
            pk.wf(),
            i <= gamma,
            precom@.len() >= gamma,
            forall|j: int| 0 <= j < gamma ==> (#[trigger] precom@[j]).wf(),
            cis@.len() == i,
            forall|j: int| 0 <= j < i ==> cell_made(#[trigger] cis@[j], precom@[j], message_log(pk.bytes@, m@)),
        decreases gamma - i,
    {
        let p = &precom[i];
        let ci = wes_enc_precom(*pk, m, p.r1, p.r2.copy(), p.c1, p.c3);
        cis.push(ci);
        i = i + 1;
    }
    cis
}

/// The WES ciphertexts of the precomputations for `pk` and the aggregate
/// hash of the messages `m`.
fn cves_cis_vector(gamma: usize, pk: &G1Point, m: &Vec<String>, precom: &Vec<PreComp>) -> (cis: Vec<WESCiphertext>)
    requires
        pk.wf(),
        precom@.len() >= gamma,
        forall|j: int| 0 <= j < gamma ==> (#[trigger] precom@[j]).wf(),
    ensures
        cis@.len() == gamma,
        forall|j: int| 0 <= j < gamma ==> cell_made(#[trigger] cis@[j], precom@[j],
            (g1_log(pk.bytes@) * hash_sum(strings_view(m@))) % bls_order()),
{
    let mut cis: Vec<WESCiphertext> = Vec::new();
    let mut i: usize = 0;
    while i < gamma
        invariant
            pk.wf(),
            i <= gamma,
            precom@.len() >= gamma,
            forall|j: int| 0 <= j < gamma ==> (#[trigger] precom@[j]).wf(),
            cis@.len() == i,
            forall|j: int| 0 <= j < i ==> cell_made(#[trigger] cis@[j], precom@[j],
                (g1_log(pk.bytes@) * hash_sum(strings_view(m@))) % bls_order()),
        decreases gamma - i,
    {
        let p = &precom[i];
        let ci = wes_enc_precom_vector(*pk, m, p.r1, p.r2.copy(), p.c1, p.c3);
        cis.push(ci);
        i = i + 1;
    }
    cis
}

/// Draws the precomputations of `gamma` WES ciphertexts.
pub fn precompute_enc_cs(gamma: usize) -> (precom: Vec<PreComp>)
    ensures
        precom@.len() == gamma,
        forall|j: int| 0 <= j < gamma ==> (#[trigger] precom@[j]).honest(),
{
    CVESCiphertextFig5::precompute(gamma)
}

/// Encrypts `sec` for the transition from the state of witness `wa`, under
/// the oracle key `pk` and the attestation `m`, with the precomputations
/// and a fresh pad and pre-signature nonce; `None` where the shifted
/// statement or the pre-signature meets a zero.
pub fn enc_cs_with_precomputation(
    gamma: usize,
    pk: G1Point,
    wa: ChainScalar,
    m: &str,
    sec: ChainScalar,
    a_kp: &SchnorrPair,
    tx: &str,
    precom: &Vec<PreComp>,
) -> (res: Option<CVESCiphertext>)
    requires
        gamma <= 256,
        precom@.len() >= gamma,
        forall|j: int| 0 <= j < gamma ==> (#[trigger] precom@[j]).wf(),
        pk.wf(),
        wa.wf(),
        sec.wf(),
        a_kp.wf(),
    ensures
        exists|y: ChainScalar, k: ChainScalar| {
            &&& y.wf() && y.value() != 0 && k.wf() && k.value() != 0
            &&& #[trigger] cves_enc_result(res, gamma as nat, message_log(pk.bytes@, m@), precom@, y.value(), wa.value(), wa.value(), sec, *a_kp, tx@, k.value())
        },
{
    let y = sample_rand_chain_scalar();
    let k = sample_rand_chain_scalar();
    enc_cs_with_precomputation_and_pad(gamma, pk, wa, m, sec, a_kp, tx, precom, y, k)
}

/// `enc_cs_with_precomputation` with the pad `y` and the pre-signature
/// nonce `k` given.
pub fn enc_cs_with_precomputation_and_pad(
    gamma: usize,
    pk: G1Point,
    wa: ChainScalar,
    m: &str,
    sec: ChainScalar,
    a_kp: &SchnorrPair,
    tx: &str,
    precom: &Vec<PreComp>,
    y: ChainScalar,
    k: ChainScalar,
) -> (res: Option<CVESCiphertext>)
    requires
        gamma <= 256,
        precom@.len() >= gamma,
        forall|j: int| 0 <= j < gamma ==> (#[trigger] precom@[j]).wf(),
        pk.wf(),
        wa.wf(),
        sec.wf(),
        a_kp.wf(),
        y.wf(),
        k.wf(),
        k.value() != 0,
    ensures
        cves_enc_result(res, gamma as nat, message_log(pk.bytes@, m@), precom@, y.value(), wa.value(), wa.value(), sec, *a_kp, tx@, k.value()),
{
    let cis = cves_cis(gamma, &pk, m, precom);
    cves_encrypt_with(gamma, cis, Ghost(message_log(pk.bytes@, m@)), precom, y, wa, wa, sec, a_kp, tx, k)
}

/// `enc_cs_with_precomputation` for the aggregate hash of the attestations
/// `m`, with the pad standing in for the origin's witness: the statement
/// `xa` is the pad's, and the one-time pad `(y + y) + sec`. The arguments
/// `wa` and `end` are not read.
pub fn enc_cs_with_precomputation_vector(
    gamma: usize,
    pk: G1Point,
    wa: Vec<ChainScalar>,
    m: Vec<String>,
    sec: ChainScalar,
    a_kp: &SchnorrPair,
    tx: &str,
    precom: &Vec<PreComp>,
    end: usize,
) -> (res: Option<CVESCiphertext>)
    requires
        gamma <= 256,
        precom@.len() >= gamma,
        forall|j: int| 0 <= j < gamma ==> (#[trigger] precom@[j]).wf(),
        pk.wf(),
        sec.wf(),
        a_kp.wf(),
    ensures
        exists|y: ChainScalar, k: ChainScalar| {
            &&& y.wf() && y.value() != 0 && k.wf() && k.value() != 0
            &&& #[trigger] cves_enc_result(res, gamma as nat, (g1_log(pk.bytes@) * hash_sum(strings_view(m@))) % bls_order(),
                precom@, y.value(), y.value(), y.value(), sec, *a_kp, tx@, k.value())
        },
{
    let y = sample_rand_chain_scalar();
    let k = sample_rand_chain_scalar();
    enc_cs_with_precomputation_vector_and_pad(gamma, pk, &m, sec, a_kp, tx, precom, y, k)
}

/// `enc_cs_with_precomputation_vector` with the pad `y` and the
/// pre-signature nonce `k` given.
pub fn enc_cs_with_precomputation_vector_and_pad(
    gamma: usize,
    pk: G1Point,
    m: &Vec<String>,
    sec: ChainScalar,
    a_kp: &SchnorrPair,
    tx: &str,
    precom: &Vec<PreComp>,
    y: ChainScalar,
    k: ChainScalar,
) -> (res: Option<CVESCiphertext>)
    requires
        gamma <= 256,
        precom@.len() >= gamma,
        forall|j: int| 0 <= j < gamma ==> (#[trigger] precom@[j]).wf(),
        pk.wf(),
        sec.wf(),
        a_kp.wf(),
        y.wf(),
        k.wf(),
        k.value() != 0,
    ensures
        cves_enc_result(res, gamma as nat, (g1_log(pk.bytes@) * hash_sum(strings_view(m@))) % bls_order(),
            precom@, y.value(), y.value(), y.value(), sec, *a_kp, tx@, k.value()),
{
    let cis = cves_cis_vector(gamma, &pk, m, precom);
    let ghost mlog = (g1_log(pk.bytes@) * hash_sum(strings_view(m@))) % bls_order();
    cves_encrypt_with(gamma, cis, Ghost(mlog), precom, y, y, y, sec, a_kp, tx, k)
}

/// Encrypts `sec` for the transition from the state of witness `wa`, under
/// the oracle key `pk` and the attestation `m`, with fresh secrets, coins,
/// pad and pre-signature nonce; `None` where the shifted statement or the
/// pre-signature meets a zero.
pub fn enc_cs(gamma: usize, pk: G1Point, wa: ChainScalar, m: &str, sec: ChainScalar, a_kp: &SchnorrPair, tx: &str)
    -> (res: Option<CVESCiphertext>)
    requires
        gamma <= 256,
        pk.wf(),
        wa.wf(),
        sec.wf(),
        a_kp.wf(),
    ensures
        exists|precom: Seq<PreComp>, y: ChainScalar, k: ChainScalar| {
            &&& precom.len() == gamma
            &&& forall|j: int| 0 <= j < gamma ==> (#[trigger] precom[j]).honest()
            &&& y.wf() && y.value() != 0 && k.wf() && k.value() != 0
            &&& #[trigger] cves_enc_result(res, gamma as nat, message_log(pk.bytes@, m@), precom, y.value(), wa.value(), wa.value(), sec, *a_kp, tx@, k.value())
        },
{
    let precom = precompute_enc_cs(gamma);
    enc_cs_with_precomputation(gamma, pk, wa, m, sec, a_kp, tx, &precom)
}

/// What opening an unopened unit of shifted secret `si` whose secret `ri`
/// was recovered gives: the secret `c_omega - y - w_a` and the
/// pre-signature adapted with `y + w_a`, where `y = s_i - r_i`;
/// `ZeroScalar` where `y`, `y + w_a` or the adapted `s` is zero.
pub open spec fn cves_unit_outcome(si: nat, ri: nat, c_omega: nat, presig: (nat, nat), wa: nat) -> Result<(nat, (nat, nat)), CvesError> {
    let y = sub_mod(si as int, ri as int);
    let sec = sub_mod(c_omega as int, y as int);
    let fin = sub_mod(sec as int, wa as int);
    let yt = (y + wa) % secp_order();
    let s2 = (presig.0 + yt) % secp_order();
    if y == 0 || yt == 0 || s2 == 0 {
        Err(CvesError::ZeroScalar)
    } else {
        Ok((fin, (s2, presig.1)))
    }
}

/// What decryption with a signature of logarithm `sig_log` gives from the
/// unopened unit `j` on: the outcome of the first unit whose ciphertext
/// decrypts to the secret of its commitment; `DecryptionFailed` where none
/// does.
pub open spec fn cves_dec_from(
    units: Seq<SuopUnit>,
    j: int,
    ri_pub: Seq<ChainPoint>,
    c_omega: nat,
    presig: (nat, nat),
    sig_log: nat,
    wa: nat,
) -> Result<(nat, (nat, nat)), CvesError>
    decreases units.len() - j,
{
    if j < 0 || j >= units.len() {
        Err(CvesError::DecryptionFailed)
    } else {
        let u = units[j];
        let ri = wes_dec_spec(u.ci.c1.bytes@, u.ci.c2@, u.ci.c3@, sig_log);
        if chain_point_enc(ri) == ri_pub[u.i as int].bytes@ {
            cves_unit_outcome(u.si.value(), ri, c_omega, presig, wa)
        } else {
            cves_dec_from(units, j + 1, ri_pub, c_omega, presig, sig_log, wa)
        }
    }
}

/// Decrypts with the oracle's signature `sig` and the witness `wa` of the
/// origin state: the witness of the new state and the payment signature.
pub fn dec_cs(c: &CVESCiphertext, sig: G2Point, wa: ChainScalar) -> (res: Result<(ChainScalar, SchnorrSig), CvesError>)
    requires
        c.wf(),
        sig.wf(),
        wa.wf(),
    ensures
        dec_result_matches(res, cves_dec_from(c.suop@, 0, c.v_ri_pub@, c.c_omega.value(), c.sigma_tilde.values(), g2_log(sig.bytes@), wa.value())),
{
    let mut j: usize = 0;
    while j < c.suop.len()
        invariant
            c.wf(),
            sig.wf(),
            wa.wf(),
            j <= c.suop@.len(),
            cves_dec_from(c.suop@, 0, c.v_ri_pub@, c.c_omega.value(), c.sigma_tilde.values(), g2_log(sig.bytes@), wa.value())
                == cves_dec_from(c.suop@, j as int, c.v_ri_pub@, c.c_omega.value(), c.sigma_tilde.values(), g2_log(sig.bytes@), wa.value()),
        decreases c.suop@.len() - j,
    {
        let u = &c.suop[j];
        let ri = wes_dec(sig, u.ci.copy());
        let got = chain_base_mul(&ri);
        if got.equals(&c.v_ri_pub[u.i]) {
            let y = chain_scalar_sub(&u.si, &ri);
            if y.is_zero() {
                return Err(CvesError::ZeroScalar);
            }
            let sec = chain_scalar_sub(&c.c_omega, &y);
            let final_sec = chain_scalar_sub(&sec, &wa);
            let y_tilde = chain_scalar_add(&y, &wa);
            if y_tilde.is_zero() {
                return Err(CvesError::ZeroScalar);
            }
            return match adapt(&c.sigma_tilde, &y_tilde) {
                Some(s) => Ok((final_sec, s)),
                None => Err(CvesError::ZeroScalar),
            };
        }
        j = j + 1;
    }
    Err(CvesError::DecryptionFailed)
}

impl CVESCiphertext {
    /// The one-time pad matches the statements: `c_omega G = X_a + X_w + Y`.
    pub open spec fn enc_ok(&self, xa: ChainPoint, xw: ChainPoint) -> bool {
        let lx = chain_log(xa.bytes@);
        let lw = chain_log(xw.bytes@);
        let ly = chain_log(self.y_pub.bytes@);
        self.c_omega.value() == ((lx + lw) % secp_order() + ly) % secp_order()
    }

    /// The pre-signature verifies under `a_pk` on `tx` for the statement
    /// `Y + X_a`, which is not zero.
    pub open spec fn presig_ok(&self, xa: ChainPoint, a_pk: ChainPoint, tx: Seq<char>) -> bool {
        let t = (chain_log(self.y_pub.bytes@) + chain_log(xa.bytes@)) % secp_order();
        &&& t != 0
        &&& pre_verify_spec(a_pk.bytes@, tx, self.sigma_tilde.s.value(), self.sigma_tilde.r.value(), t)
    }

    /// The position `idx` of the cut-and-choose proof checks out: an opened
    /// position has a unit whose secret and coins give its ciphertext for
    /// the message element of logarithm `mlog`; an unopened one has a unit
    /// whose shifted secret is the logarithm of `Y + R_idx`.
    pub open spec fn position_ok(&self, bits: Seq<bool>, mlog: nat, idx: int) -> bool {
        if bits[idx] {
            let t = first_pos(self.sop_positions(), idx as usize) as int;
            &&& t < self.sop@.len()
            &&& self.sop@[t].ci.encrypts(mlog, self.sop@[t].ri.bytes@, self.sop@[t].rho.0.value(), self.sop@[t].rho.1@)
        } else {
            let t = first_pos(self.suop_positions(), idx as usize) as int;
            &&& t < self.suop@.len()
            &&& idx < self.v_ri_pub@.len()
            &&& self.suop@[t].si.value() == (chain_log(self.y_pub.bytes@) + chain_log(self.v_ri_pub@[idx].bytes@)) % secp_order()
        }
    }

    /// Every position below `gamma` checks out.
    pub open spec fn cut_and_choose_ok(&self, bits: Seq<bool>, mlog: nat, gamma: nat) -> bool {
        forall|idx: int| 0 <= idx < gamma ==> #[trigger] self.position_ok(bits, mlog, idx)
    }
}

/// Verifies the ciphertext `c` for `gamma` positions, the statements `xa`
/// and `xw`, the oracle key `pk` and attestation `m`, and the payer's key
/// `a_pk` on `tx`: the one-time pad, the pre-signature and the
/// cut-and-choose proof.
pub fn vf_enc_cs(gamma: usize, pk: G1Point, xa: ChainPoint, xw: ChainPoint, m: &str, c: &CVESCiphertext, a_pk: ChainPoint, tx: &str)
    -> (ok: bool)
    requires
        gamma <= 256,
        c.wf(),
        pk.wf(),
        xa.wf(),
        xw.wf(),
        a_pk.wf(),
    ensures
        ok == (c.enc_ok(xa, xw) && c.presig_ok(xa, a_pk, tx@)
            && c.cut_and_choose_ok(c.bits_for(xa, xw), message_log(pk.bytes@, m@), gamma as nat)),
        ok ==> forall|idx: int| 0 <= idx < gamma && #[trigger] c.bits_for(xa, xw)[idx] ==> exists|t: int|
            0 <= t < c.sop@.len() && c.sop@[t].i == idx && c.sop@[t].ci.encrypts(message_log(pk.bytes@, m@),
                c.sop@[t].ri.bytes@, c.sop@[t].rho.0.value(), c.sop@[t].rho.1@),
        ok ==> forall|idx: int| 0 <= idx < gamma && !#[trigger] c.bits_for(xa, xw)[idx] ==> exists|t: int|
            0 <= t < c.suop@.len() && c.suop@[t].i == idx && idx < c.v_ri_pub@.len() && c.suop@[t].si.value()
                == (chain_log(c.y_pub.bytes@) + chain_log(c.v_ri_pub@[idx].bytes@)) % secp_order(),
{
    let ri_pub_copy = c.v_ri_pub.clone();
    assert(ri_pub_copy@ == c.v_ri_pub@);
    let bits = hash_to_bits(&c.cis, ri_pub_copy, c.c_omega, xa, xw, c.y_pub, &c.sigma_tilde);
    let gc_omega = chain_base_mul(&c.c_omega);
    let check = chain_point_add(&xa, &xw);
    let check = chain_point_add(&check, &c.y_pub);
    proof {
        let s1 = (chain_log(xa.bytes@) + chain_log(xw.bytes@)) % secp_order();
        lemma_chain_only(check.bytes@, (s1 + chain_log(c.y_pub.bytes@)) % secp_order(), gc_omega.bytes@, c.c_omega.value());
    }
    if !gc_omega.equals(&check) {
        return false;
    }
    let y_tilde_pub = chain_point_add(&c.y_pub, &xa);
    proof {
        let t = (chain_log(c.y_pub.bytes@) + chain_log(xa.bytes@)) % secp_order();
        lemma_chain_only(y_tilde_pub.bytes@, t, y_tilde_pub.bytes@, t);
    }
    if y_tilde_pub.is_zero() {
        return false;
    }
    if !pre_verify(a_pk, tx, &c.sigma_tilde, &y_tilde_pub) {
        return false;
    }
    let mut idx: usize = 0;
    while idx < gamma
        invariant
            gamma <= 256,
            c.wf(),
            pk.wf(),
            idx <= gamma,
            bits@ == c.bits_for(xa, xw),
            bits@.len() == 256,
            forall|j: int| 0 <= j < idx ==> #[trigger] c.position_ok(bits@, message_log(pk.bytes@, m@), j),
        decreases gamma - idx,
    {
        if !check_position(c, &pk, m, &bits, idx) {
            return false;
        }
        idx = idx + 1;
    }
    proof {
        let bs = c.bits_for(xa, xw);
        let mlog = message_log(pk.bytes@, m@);
        assert(c.cut_and_choose_ok(bs, mlog, gamma as nat));
        assert forall|j: int| 0 <= j < gamma && #[trigger] c.bits_for(xa, xw)[j] implies exists|t: int|
            0 <= t < c.sop@.len() && c.sop@[t].i == j && c.sop@[t].ci.encrypts(mlog,
                c.sop@[t].ri.bytes@, c.sop@[t].rho.0.value(), c.sop@[t].rho.1@) by {
            lemma_cves_verified_position(*c, bs, mlog, gamma as nat, j);
        }
        assert forall|j: int| 0 <= j < gamma && !#[trigger] c.bits_for(xa, xw)[j] implies exists|t: int|
            0 <= t < c.suop@.len() && c.suop@[t].i == j && j < c.v_ri_pub@.len() && c.suop@[t].si.value()
                == (chain_log(c.y_pub.bytes@) + chain_log(c.v_ri_pub@[j].bytes@)) % secp_order() by {
            lemma_cves_verified_position(*c, bs, mlog, gamma as nat, j);
        }
    }
    true
}

/// Soundness of the cut-and-choose proof at a position: where it checks
/// out for `gamma` positions of the challenge bits `bits` and the message
/// element of logarithm `mlog`, at a position below `gamma` whose bit is
/// set an opened unit sits whose ciphertext is the WES encryption of its
/// secret with its coins for that element; at a position whose bit is
/// clear an unopened unit sits whose shifted secret is the logarithm of
/// `Y + R_idx`.
pub proof fn lemma_cves_verified_position(c: CVESCiphertext, bits: Seq<bool>, mlog: nat, gamma: nat, idx: int)
    requires
        gamma <= 256,
        c.cut_and_choose_ok(bits, mlog, gamma),
        0 <= idx < gamma,
    ensures
        bits[idx] ==> exists|t: int| 0 <= t < c.sop@.len() && c.sop@[t].i == idx && c.sop@[t].ci.encrypts(mlog,
            c.sop@[t].ri.bytes@, c.sop@[t].rho.0.value(), c.sop@[t].rho.1@),
        !bits[idx] ==> exists|t: int| 0 <= t < c.suop@.len() && c.suop@[t].i == idx && idx < c.v_ri_pub@.len()
            && c.suop@[t].si.value() == (chain_log(c.y_pub.bytes@) + chain_log(c.v_ri_pub@[idx].bytes@)) % secp_order(),
{
    assert(c.position_ok(bits, mlog, idx));
    lemma_first_pos(c.sop_positions(), idx as usize);
    lemma_first_pos(c.suop_positions(), idx as usize);
    assert(c.sop_positions().len() == c.sop@.len());
    assert(c.suop_positions().len() == c.suop@.len());
    if bits[idx] {
        let t = first_pos(c.sop_positions(), idx as usize) as int;
        assert(c.sop_positions()[t] == c.sop@[t].i);
        assert(0 <= t < c.sop@.len() && c.sop@[t].i == idx && c.sop@[t].ci.encrypts(mlog,
            c.sop@[t].ri.bytes@, c.sop@[t].rho.0.value(), c.sop@[t].rho.1@));
    } else {
        let t = first_pos(c.suop_positions(), idx as usize) as int;
        assert(c.suop_positions()[t] == c.suop@[t].i);
        assert(0 <= t < c.suop@.len() && c.suop@[t].i == idx && idx < c.v_ri_pub@.len()
            && c.suop@[t].si.value() == (chain_log(c.y_pub.bytes@) + chain_log(c.v_ri_pub@[idx].bytes@)) % secp_order());
    }
}

/// Whether the position `idx` of the cut-and-choose proof checks out.
#[verifier::loop_isolation(false)]
fn check_position(c: &CVESCiphertext, pk: &G1Point, m: &str, bits: &Vec<bool>, idx: usize) -> (ok: bool)
    requires
        c.wf(),
        pk.wf(),
        idx < bits@.len(),
    ensures
        ok == c.position_ok(bits@, message_log(pk.bytes@, m@), idx as int),
{
    proof {
        lemma_first_pos(c.sop_positions(), idx);
        lemma_first_pos(c.suop_positions(), idx);
    }
    if bits[idx] {
        let mut t: usize = 0;
        while t < c.sop.len()
            invariant
                c.wf(),
                pk.wf(),
                t <= c.sop@.len(),
                forall|u: int| 0 <= u < t ==> c.sop_positions()[u] != idx,
            decreases c.sop@.len() - t,
        {
            if c.sop[t].i == idx {
                proof {
                    lemma_first_pos_at(c.sop_positions(), idx, t as int);
                }
                let u = &c.sop[t];
                let got = wes_enc(*pk, m, u.ri, u.rho.0, u.rho.1.copy());
                proof {
                    crate::curve::lemma_g1_only(got.c1.bytes@, u.rho.0.value(), got.c1.bytes@, u.rho.0.value());
                    let l2 = crate::wes::wes_c2_log(message_log(pk.bytes@, m@), u.rho.0.value(), gt_log(u.rho.1@));
                    crate::curve::lemma_gt_only(got.c2@, l2, got.c2@, l2);
                }
                return got.equals(&u.ci);
            }
            t = t + 1;
        }
        proof {
            lemma_first_pos_at(c.sop_positions(), idx, t as int);
        }
        false
    } else {
        let mut t: usize = 0;
        while t < c.suop.len()
            invariant
                c.wf(),
                t <= c.suop@.len(),
                forall|u: int| 0 <= u < t ==> c.suop_positions()[u] != idx,
            decreases c.suop@.len() - t,
        {
            if c.suop[t].i == idx {
                proof {
                    lemma_first_pos_at(c.suop_positions(), idx, t as int);
                }
                if idx >= c.v_ri_pub.len() {
                    return false;
                }
                let gs = chain_base_mul(&c.suop[t].si);
                let check2 = chain_point_add(&c.y_pub, &c.v_ri_pub[idx]);
                let ghost v = (chain_log(c.y_pub.bytes@) + chain_log(c.v_ri_pub@[idx as int].bytes@)) % secp_order();
                proof {
                    lemma_chain_only(check2.bytes@, v, gs.bytes@, c.suop@[t as int].si.value());
                }
                return gs.equals(&check2);
            }
            t = t + 1;
        }
        proof {
            lemma_first_pos_at(c.suop_positions(), idx, t as int);
        }
        false
    }
}

/// The positions of the units of an honestly made ciphertext are the
/// positions of their bits.
proof fn lemma_cves_positions(
    c: CVESCiphertext, gamma: nat, mlog: nat, precom: Seq<PreComp>, y: nat, wa_x: nat, wa_c: nat,
    sec: ChainScalar, kp: SchnorrPair, tx: Seq<char>, k: nat,
)
    requires
        cves_made(c, gamma, mlog, precom, y, wa_x, wa_c, sec, kp, tx, k),
    ensures
        c.sop_positions() == indices_where(c.bits_for(c.xa, c.xw), gamma, true),
        c.suop_positions() == indices_where(c.bits_for(c.xa, c.xw), gamma, false),
{
    assert(c.sop_positions() =~= indices_where(c.bits_for(c.xa, c.xw), gamma, true));
    assert(c.suop_positions() =~= indices_where(c.bits_for(c.xa, c.xw), gamma, false));
}

/// Completeness: a ciphertext made honestly from honest precomputations,
/// for the attestation `m` and with the origin's witness `wa` in the
/// statement and the one-time pad, passes verification against its own
/// statements, the oracle key and the payer's key `a_pk`.
pub proof fn lemma_cves_verifies(
    c: CVESCiphertext, gamma: nat, pk: G1Point, m: Seq<char>, precom: Seq<PreComp>, y: ChainScalar,
    wa: ChainScalar, sec: ChainScalar, kp: SchnorrPair, a_pk: ChainPoint, tx: Seq<char>, k: ChainScalar,
)
    requires
        cves_made(c, gamma, message_log(pk.bytes@, m), precom, y.value(), wa.value(), wa.value(), sec, kp, tx, k.value()),
        forall|j: int| 0 <= j < gamma ==> (#[trigger] precom[j]).honest(),
        gamma <= 256,
        wa.wf(),
        sec.wf(),
        y.wf(),
        k.wf(),
        0 < k.value(),
        kp.wf(),
        a_pk.bytes@ == kp.public(),
    ensures
        c.enc_ok(c.xa, c.xw),
        c.presig_ok(c.xa, a_pk, tx),
        c.cut_and_choose_ok(c.bits_for(c.xa, c.xw), message_log(pk.bytes@, m), gamma),
{
    let n = secp_order();
    let mlog = message_log(pk.bytes@, m);
    lemma_chain_only(c.xa.bytes@, wa.value(), c.xw.bytes@, sec.value());
    lemma_chain_only(c.y_pub.bytes@, y.value(), c.y_pub.bytes@, y.value());
    let yt = (y.value() + wa.value()) % n;
    lemma_add_assoc_mod(y.value() as int, wa.value() as int, sec.value() as int);
    lemma_add_assoc_mod(wa.value() as int, sec.value() as int, y.value() as int);
    assert(c.enc_ok(c.xa, c.xw));
    lemma_pre_sign_then_pre_verify(kp, tx, yt, k.value());
    assert(c.presig_ok(c.xa, a_pk, tx));
    lemma_cves_positions(c, gamma, mlog, precom, y.value(), wa.value(), wa.value(), sec, kp, tx, k.value());
    let bits = c.bits_for(c.xa, c.xw);
    lemma_indices_where(bits, gamma, true);
    lemma_indices_where(bits, gamma, false);
    assert forall|idx: int| 0 <= idx < gamma implies #[trigger] c.position_ok(bits, mlog, idx) by {
        if bits[idx] {
            let ind = indices_where(bits, gamma, true);
            let p = choose|p: int| 0 <= p < ind.len() && #[trigger] ind[p] == idx;
            assert forall|u: int| 0 <= u < p implies c.sop_positions()[u] != idx as usize by {
                assert(ind[u] < ind[p]);
            }
            lemma_first_pos_at(c.sop_positions(), idx as usize, p);
            assert(c.sop@[p].i == idx);
            assert(precom[idx].honest());
            assert(cell_made(c.cis@[idx], precom[idx], mlog));
        } else {
            let ind = indices_where(bits, gamma, false);
            let p = choose|p: int| 0 <= p < ind.len() && #[trigger] ind[p] == idx;
            assert forall|u: int| 0 <= u < p implies c.suop_positions()[u] != idx as usize by {
                assert(ind[u] < ind[p]);
            }
            lemma_first_pos_at(c.suop_positions(), idx as usize, p);
            assert(c.suop@[p].i == idx);
            assert(precom[idx].honest());
            assert(c.v_ri_pub@[idx] == precom[idx].ri_pub);
            lemma_chain_only(c.v_ri_pub@[idx].bytes@, precom[idx].ri.value(), c.v_ri_pub@[idx].bytes@, precom[idx].ri.value());
        }
    }
}

/// Decryption: with the oracle's signature on the attestation `m` under the
/// key of logarithm `x`, and the witness `wa` of the origin state, an
/// honestly made ciphertext with an unopened position gives back the new
/// witness `sec` and a signature on `tx` that verifies under the payer's
/// key (unless the adapted `s` is zero).
pub proof fn lemma_cves_decrypts(
    c: CVESCiphertext, gamma: nat, pk: G1Point, x: nat, m: Seq<char>, precom: Seq<PreComp>, y: ChainScalar,
    wa: ChainScalar, sec: ChainScalar, kp: SchnorrPair, tx: Seq<char>, k: ChainScalar, sig: Seq<u8>,
)
    requires
        cves_made(c, gamma, message_log(pk.bytes@, m), precom, y.value(), wa.value(), wa.value(), sec, kp, tx, k.value()),
        forall|j: int| 0 <= j < gamma ==> (#[trigger] precom[j]).honest(),
        gamma <= 256,
        g1_only(pk.bytes@, x),
        bls_verify_spec(x, m, sig),
        wa.wf(),
        sec.wf(),
        y.wf(),
        y.value() != 0,
        k.wf(),
        0 < k.value(),
        kp.wf(),
        c.suop@.len() > 0,
    ensures
        ({
            let yt = (y.value() + wa.value()) % secp_order();
            let s2 = (c.sigma_tilde.s.value() + yt) % secp_order();
            &&& cves_dec_from(c.suop@, 0, c.v_ri_pub@, c.c_omega.value(), c.sigma_tilde.values(), g2_log(sig), wa.value())
                == if s2 == 0 {
                    Err::<(nat, (nat, nat)), CvesError>(CvesError::ZeroScalar)
                } else {
                    Ok::<(nat, (nat, nat)), CvesError>((sec.value(), (s2, c.sigma_tilde.r.value())))
                }
            &&& verify_spec(kp.public(), tx, s2, c.sigma_tilde.r.value())
        }),
{
    let n = secp_order();
    let yt = (y.value() + wa.value()) % n;
    let mlog = message_log(pk.bytes@, m);
    lemma_cves_positions(c, gamma, mlog, precom, y.value(), wa.value(), wa.value(), sec, kp, tx, k.value());
    let bits = c.bits_for(c.xa, c.xw);
    lemma_indices_where(bits, gamma, false);
    let u = c.suop@[0];
    let idx = u.i as int;
    let pre = precom[idx];
    assert(pre.honest());
    assert(cell_made(c.cis@[idx], pre, mlog));
    crate::curve::lemma_g1_only(pk.bytes@, x, pk.bytes@, x);
    assert(u.ci.encrypts(mlog, pre.ri.bytes@, pre.r1.value(), pre.r2@));
    lemma_wes_decrypt(u.ci, x, m, pre.ri, pre.r1.value(), pre.r2@, sig);
    let ri = pre.ri.value();
    assert(c.v_ri_pub@[idx] == pre.ri_pub);
    // the pad: y = s_i - r_i, sec + w_a = c_omega - y, sec = that - w_a
    lemma_sub_summand(y.value() as int, ri as int);
    lemma_small_mod(y.value(), n);
    lemma_add_assoc_mod(y.value() as int, wa.value() as int, sec.value() as int);
    lemma_sub_summand((wa.value() + sec.value()) as int, y.value() as int);
    lemma_mod_twice((wa.value() + sec.value()) as int, n as int);
    lemma_sub_summand(sec.value() as int, wa.value() as int);
    lemma_small_mod(sec.value(), n);
    assert((y.value() + wa.value() + sec.value()) % n == ((wa.value() + sec.value()) + y.value()) % n);
    assert((ri + y.value()) % n == (y.value() + ri) % n);
    // the adapted signature verifies
    lemma_pre_sign_then_pre_verify(kp, tx, yt, k.value());
    assert(is_multiple(kp.public(), kp.secret()));
    lemma_chain_only(kp.public(), kp.secret(), kp.public(), kp.secret());
    lemma_adapt_then_verify(kp.public(), tx, c.sigma_tilde.s.value(), c.sigma_tilde.r.value(), yt);
}

} // verus!
