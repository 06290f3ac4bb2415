//! Verifiable encryption of a witness under a condition for one statement
//! transition, secured by `gamma` WES ciphertexts and a cut-and-choose proof
//! whose challenge is a hash.

use vstd::prelude::*;
use vstd::arithmetic::div_mod::lemma_small_mod;
use crate::bytes::bits_of;
use crate::hashing::sha256_digest;
use crate::chain::{
    ChainScalar, ChainPoint, secp_order, chain_point_enc, chain_log, is_multiple, lemma_chain_only,
    lemma_sub_summand, lemma_add_assoc_mod, chain_scalar_add, chain_scalar_sub, chain_base_mul,
    chain_point_add,
};
use crate::curve::{BlsScalar, G1Point, G2Point, GtElem, g2_log, gt_only, gt_log};
use crate::common::{
    hash_to_bits, challenge_data, indices_where, lemma_indices_where, sample_rand_chain_scalar,
    first_pos, lemma_first_pos, lemma_first_pos_at,
};
use crate::wes::{
    WESCiphertext, PreComp, wes_c2_log, wes_dec_spec, message_log, message_element,
    lemma_wes_decrypt,
};
use crate::signbls::bls_verify_spec;
use crate::curve::g1_only;
use crate::schnorradaptor::{
    SchnorrPair, SchnorrPreSig, SchnorrSig, pre_sign_spec, pre_verify_spec, sub_mod, verify_spec,
    lemma_pre_sign_then_pre_verify, lemma_adapt_then_verify, pre_sign_with_nonce, pre_verify,
    adapt,
};
use crate::cves::CvesError;

verus! {

/// A CVES ciphertext for one transition.
pub struct CVESCiphertextFig5 {
    pub cis: Vec<WESCiphertext>,
    pub c_omega: ChainScalar,
    pub sop: Vec<SopUnitFig5>,
    pub suop: Vec<SuopUnitFig5>,
    pub v_ri_pub: Vec<ChainPoint>,
    pub xa: ChainPoint,
    pub xw: ChainPoint,
    pub y_pub: ChainPoint,
    pub sigma_tilde: SchnorrPreSig,
    pub m: String,
    pub pk: G1Point,
    pub tx: String,
    pub vk: ChainPoint,
}

/// An opened position: the secret and the coins of its WES ciphertext.
pub struct SopUnitFig5 {
    pub i: usize,
    pub ri: ChainScalar,
    pub rho: (BlsScalar, GtElem),
}

/// An unopened position: the secret shifted by the adaptor witness, and the
/// WES ciphertext of the secret.
pub struct SuopUnitFig5 {
    pub i: usize,
    pub si: ChainScalar,
    pub ci: WESCiphertext,
}

impl CVESCiphertextFig5 {
    /// The challenge bits of the cut-and-choose proof.
    pub open spec fn bits(&self) -> Seq<bool> {
        bits_of(sha256_digest(challenge_data(
            self.cis@,
            self.v_ri_pub@,
            self.c_omega,
            self.xa,
            self.xw,
            self.y_pub,
            self.sigma_tilde,
        )))
    }

    /// Every part is a canonical scalar or an element of its group, and the
    /// positions of the units index the commitments.
    pub open spec fn wf(&self, gamma: nat) -> bool {
        &&& gamma <= 256
        &&& forall|j: int| 0 <= j < self.cis@.len() ==> (#[trigger] self.cis@[j]).wf()
        &&& forall|j: int| 0 <= j < self.v_ri_pub@.len() ==> (#[trigger] self.v_ri_pub@[j]).wf()
        &&& self.c_omega.wf()
        &&& self.xa.wf()
        &&& self.xw.wf()
        &&& self.y_pub.wf()
        &&& self.sigma_tilde.wf()
        &&& self.pk.wf()
        &&& self.vk.wf()
        &&& forall|t: int| 0 <= t < self.sop@.len() ==> {
            &&& (#[trigger] self.sop@[t]).ri.wf()
            &&& self.sop@[t].rho.0.wf()
            &&& self.sop@[t].rho.1.wf()
        }
        &&& forall|t: int| 0 <= t < self.suop@.len() ==> {
            &&& (#[trigger] self.suop@[t]).si.wf()
            &&& self.suop@[t].ci.wf()
            &&& self.suop@[t].i < self.v_ri_pub@.len()
        }
    }
}

/// What `enc_cs_from_precom_with` makes: `c` encrypts `sec` for the
/// transition from the state of witness `wa`, under the oracle key `pk` and
/// the attestation `m`, with the precomputations `precom`, the pad `y` and
/// the pre-signature nonce `k` of the key pair `kp` on `tx`.
pub open spec fn fig5_made(
    c: CVESCiphertextFig5,
    gamma: nat,
    pk: G1Point,
    wa: ChainScalar,
    m: Seq<char>,
    sec: ChainScalar,
    kp: SchnorrPair,
    tx: Seq<char>,
    precom: Seq<PreComp>,
    y: ChainScalar,
    k: ChainScalar,
) -> bool {
    let ml = message_log(pk.bytes@, m);
    let yt = (y.value() + wa.value()) % secp_order();
    let bits = c.bits();
    &&& !fig5_degenerate(wa, sec, kp, tx, y, k)
    &&& c.cis@.len() == gamma
    &&& c.v_ri_pub@.len() == gamma
    &&& forall|j: int| 0 <= j < gamma ==> {
        &&& (#[trigger] c.cis@[j]).c1 == precom[j].c1
        &&& c.cis@[j].c3 == precom[j].c3
        &&& gt_only(c.cis@[j].c2@, wes_c2_log(ml, precom[j].r1.value(), gt_log(precom[j].r2@)))
    }
    &&& forall|j: int| 0 <= j < gamma ==> (#[trigger] c.v_ri_pub@[j]) == precom[j].ri_pub
    &&& is_multiple(c.y_pub.bytes@, y.value())
    &&& is_multiple(c.xa.bytes@, wa.value())
    &&& is_multiple(c.xw.bytes@, sec.value())
    &&& c.sigma_tilde.wf()
    &&& pre_sign_spec(kp.secret(), kp.public(), tx, yt, k.value()) == Some(c.sigma_tilde.values())
    &&& c.c_omega.wf()
    &&& c.c_omega.value() == (yt + sec.value()) % secp_order()
    &&& c.m@ == m
    &&& c.pk == pk
    &&& c.tx@ == tx
    &&& c.vk.bytes@ == kp.public()
    &&& c.sop@.len() == indices_where(bits, gamma, true).len()
    &&& forall|t: int| 0 <= t < c.sop@.len() ==> {
        let i = indices_where(bits, gamma, true)[t] as int;
        &&& (#[trigger] c.sop@[t]).i == i
        &&& c.sop@[t].ri == precom[i].ri
        &&& c.sop@[t].rho.0 == precom[i].r1
        &&& c.sop@[t].rho.1@ == precom[i].r2@
    }
    &&& c.suop@.len() == indices_where(bits, gamma, false).len()
    &&& forall|t: int| 0 <= t < c.suop@.len() ==> {
        let i = indices_where(bits, gamma, false)[t] as int;
        &&& (#[trigger] c.suop@[t]).i == i
        &&& c.suop@[t].si.wf()
        &&& c.suop@[t].si.value() != 0
        &&& c.suop@[t].si.value() == (y.value() + precom[i].ri.value()) % secp_order()
        &&& c.suop@[t].ci.c1 == c.cis@[i].c1
        &&& c.suop@[t].ci.c2@ == c.cis@[i].c2@
        &&& c.suop@[t].ci.c3 == c.cis@[i].c3
    }
}

/// The shifted statement `Y + X_a` or the pad `y + w_a` is zero, or the
/// pre-signature or the one-time pad comes out zero.
pub open spec fn fig5_degenerate(
    wa: ChainScalar,
    sec: ChainScalar,
    kp: SchnorrPair,
    tx: Seq<char>,
    y: ChainScalar,
    k: ChainScalar,
) -> bool {
    let yt = (y.value() + wa.value()) % secp_order();
    ||| yt == 0
    ||| pre_sign_spec(kp.secret(), kp.public(), tx, yt, k.value()) is None
    ||| (yt + sec.value()) % secp_order() == 0
}

/// Where encrypting with the pad `y` and the nonce `k` may give `None`:
/// the scheme degenerates, or the pad cancels the secret of a
/// precomputation.
pub open spec fn fig5_refused(
    wa: ChainScalar,
    sec: ChainScalar,
    kp: SchnorrPair,
    tx: Seq<char>,
    precom: Seq<PreComp>,
    gamma: nat,
    y: ChainScalar,
    k: ChainScalar,
) -> bool {
    ||| fig5_degenerate(wa, sec, kp, tx, y, k)
    ||| exists|j: int| 0 <= j < gamma && (y.value() + precom[j].ri.value()) % secp_order() == 0
}

impl CVESCiphertextFig5 {
    /// Draws the precomputations of `gamma` WES ciphertexts.
    pub fn precompute(gamma: usize) -> (precom: Vec<PreComp>)
        ensures
            precom@.len() == gamma,
            forall|j: int| 0 <= j < gamma ==> (#[trigger] precom@[j]).honest(),
    {
        let mut precom: Vec<PreComp> = Vec::new();
        let mut i: usize = 0;
        while i < gamma
            invariant
                i <= gamma,
                precom@.len() == i,
                forall|j: int| 0 <= j < i ==> (#[trigger] precom@[j]).honest(),
            decreases gamma - i,
        {
            precom.push(WESCiphertext::precompute());
            i = i + 1;
        }
        precom
    }

    /// Encrypts `sec` with the precomputations, the pad `y` and the
    /// pre-signature nonce `k`. `None` where the scheme meets a zero (see
    /// `fig5_degenerate`, or an unopened position whose shifted secret is
    /// zero).
    pub fn enc_cs_from_precom_with(
        gamma: usize,
        pk: G1Point,
        wa: ChainScalar,
        m: &str,
        sec: ChainScalar,
        a_kp: SchnorrPair,
        tx: &str,
        precom: &Vec<PreComp>,
        y: ChainScalar,
        k: ChainScalar,
    ) -> (res: Option<CVESCiphertextFig5>)
        requires
            gamma <= 256,
            precom@.len() >= gamma,
            forall|j: int| 0 <= j < gamma ==> (#[trigger] precom@[j]).wf(),
            pk.wf(),
            wa.wf(),
            sec.wf(),
            a_kp.wf(),
            y.wf(),
            k.wf(),
            k.value() != 0,
        ensures
            res matches Some(c) ==> c.wf(gamma as nat) && fig5_made(c, gamma as nat, pk, wa, m@, sec, a_kp, tx@, precom@, y, k),
            fig5_degenerate(wa, sec, a_kp, tx@, y, k) ==> res is None,
            res is None ==> fig5_degenerate(wa, sec, a_kp, tx@, y, k)
                || exists|j: int| 0 <= j < gamma && (y.value() + precom@[j].ri.value()) % secp_order() == 0,
    {
        let vk = a_kp.public_key();
        let e = message_element(&pk, m);
        let (cis, v_ri_pub) = fig5_ciphertexts(gamma, precom, &e);
        let (y_pub, xa, xw, sigma_tilde, c_omega) = match fig5_pad(wa, sec, &a_kp, tx, y, k) {
            Some(p) => p,
            None => return None,
        };
        let ri_pub_copy = v_ri_pub.clone();
        assert(ri_pub_copy@ == v_ri_pub@);
        let bits = hash_to_bits(&cis, ri_pub_copy, c_omega, xa, xw, y_pub, &sigma_tilde);
        let (sop, suop) = match fig5_units(gamma, precom, &cis, &bits, &y) {
            Some(u) => u,
            None => return None,
        };
        Some(CVESCiphertextFig5 {
            cis,
            c_omega,
            sop,
            suop,
            v_ri_pub,
            xa,
            xw,
            y_pub,
            sigma_tilde,
            m: m.to_owned(),
            pk,
            tx: tx.to_owned(),
            vk,
        })
    }
}

/// The WES ciphertexts of the precomputations for the message element `e`,
/// and the commitments to their secrets.
pub(crate) fn fig5_ciphertexts(gamma: usize, precom: &Vec<PreComp>, e: &GtElem) -> (res: (Vec<WESCiphertext>, Vec<ChainPoint>))
    requires
        gamma <= precom@.len(),
        forall|j: int| 0 <= j < gamma ==> (#[trigger] precom@[j]).wf(),
        e.wf(),
    ensures
        res.0@.len() == gamma,
        res.1@.len() == gamma,
        forall|j: int| 0 <= j < gamma ==> {
            &&& (#[trigger] res.0@[j]).c1 == precom@[j].c1
            &&& res.0@[j].c3 == precom@[j].c3
            &&& gt_only(res.0@[j].c2@, wes_c2_log(gt_log(e@), precom@[j].r1.value(), gt_log(precom@[j].r2@)))
            &&& res.0@[j].wf()
        },
        forall|j: int| 0 <= j < gamma ==> (#[trigger] res.1@[j]) == precom@[j].ri_pub && res.1@[j].wf(),
{
    let mut cis: Vec<WESCiphertext> = Vec::new();
    let mut v_ri_pub: Vec<ChainPoint> = Vec::new();
    let mut i: usize = 0;
    while i < gamma
        invariant
            i <= gamma,
            gamma <= precom@.len(),
            forall|j: int| 0 <= j < gamma ==> (#[trigger] precom@[j]).wf(),
            e.wf(),
            cis@.len() == i,
            v_ri_pub@.len() == i,
            forall|j: int| 0 <= j < i ==> {
                &&& (#[trigger] cis@[j]).c1 == precom@[j].c1
                &&& cis@[j].c3 == precom@[j].c3
                &&& gt_only(cis@[j].c2@, wes_c2_log(gt_log(e@), precom@[j].r1.value(), gt_log(precom@[j].r2@)))
                &&& cis@[j].wf()
            },
            forall|j: int| 0 <= j < i ==> (#[trigger] v_ri_pub@[j]) == precom@[j].ri_pub && v_ri_pub@[j].wf(),
        decreases gamma - i,
    {
        let p = precom[i].copy();
        let ri_pub = p.ri_pub;
        let ci = WESCiphertext::new_from_precom(p, e);
        cis.push(ci);
        v_ri_pub.push(ri_pub);
        i = i + 1;
    }
    (cis, v_ri_pub)
}

/// The opened units (bit 1) and unopened units (bit 0) of the positions
/// below `gamma`; `None` where an unopened secret shifted by `y` is zero.
fn fig5_units(gamma: usize, precom: &Vec<PreComp>, cis: &Vec<WESCiphertext>, bits: &Vec<bool>, y: &ChainScalar) -> (res: Option<(Vec<SopUnitFig5>, Vec<SuopUnitFig5>)>)
    requires
        gamma <= 256,
        bits@.len() == 256,
        gamma <= precom@.len(),
        forall|j: int| 0 <= j < gamma ==> (#[trigger] precom@[j]).wf(),
        y.wf(),
        cis@.len() == gamma,
        forall|j: int| 0 <= j < gamma ==> (#[trigger] cis@[j]).wf(),
    ensures
        res is None ==> exists|j: int| 0 <= j < gamma && (y.value() + precom@[j].ri.value()) % secp_order() == 0,
        (forall|j: int| 0 <= j < gamma ==> (y.value() + precom@[j].ri.value()) % secp_order() != 0) ==> res is Some,
        res matches Some((sop, suop)) ==> {
            &&& sop@.len() == indices_where(bits@, gamma as nat, true).len()
            &&& forall|t: int| 0 <= t < sop@.len() ==> {
                let j = indices_where(bits@, gamma as nat, true)[t] as int;
                &&& (#[trigger] sop@[t]).i == j
                &&& sop@[t].ri == precom@[j].ri
                &&& sop@[t].rho.0 == precom@[j].r1
                &&& sop@[t].rho.1@ == precom@[j].r2@
                &&& sop@[t].i < gamma
                &&& sop@[t].ri.wf()
                &&& sop@[t].rho.0.wf()
                &&& sop@[t].rho.1.wf()
            }
            &&& suop@.len() == indices_where(bits@, gamma as nat, false).len()
            &&& forall|t: int| 0 <= t < suop@.len() ==> {
                let j = indices_where(bits@, gamma as nat, false)[t] as int;
                &&& (#[trigger] suop@[t]).i == j
                &&& suop@[t].si.wf()
                &&& suop@[t].si.value() != 0
                &&& suop@[t].si.value() == (y.value() + precom@[j].ri.value()) % secp_order()
                &&& suop@[t].ci.c1 == cis@[j].c1
                &&& suop@[t].ci.c2@ == cis@[j].c2@
                &&& suop@[t].ci.c3 == cis@[j].c3
                &&& suop@[t].i < gamma
                &&& suop@[t].ci.wf()
            }
        },
{
    let ghost bs = bits@;
    let mut sop: Vec<SopUnitFig5> = Vec::new();
    let mut suop: Vec<SuopUnitFig5> = Vec::new();
    let mut i: usize = 0;
    while i < gamma
        invariant
            i <= gamma,
            gamma <= 256,
            gamma <= precom@.len(),
            forall|j: int| 0 <= j < gamma ==> (#[trigger] precom@[j]).wf(),
            y.wf(),
            bits@ == bs,
            bs.len() == 256,
            cis@.len() == gamma,
            forall|j: int| 0 <= j < gamma ==> (#[trigger] cis@[j]).wf(),
            sop@.len() == indices_where(bs, i as nat, true).len(),
            forall|t: int| 0 <= t < sop@.len() ==> {
                let j = indices_where(bs, i as nat, true)[t] as int;
                &&& (#[trigger] sop@[t]).i == j
                &&& sop@[t].ri == precom@[j].ri
                &&& sop@[t].rho.0 == precom@[j].r1
                &&& sop@[t].rho.1@ == precom@[j].r2@
                &&& sop@[t].i < gamma
                &&& sop@[t].ri.wf()
                &&& sop@[t].rho.0.wf()
                &&& sop@[t].rho.1.wf()
            },
            suop@.len() == indices_where(bs, i as nat, false).len(),
            forall|t: int| 0 <= t < suop@.len() ==> {
                let j = indices_where(bs, i as nat, false)[t] as int;
                &&& (#[trigger] suop@[t]).i == j
                &&& suop@[t].si.wf()
                &&& suop@[t].si.value() != 0
                &&& suop@[t].si.value() == (y.value() + precom@[j].ri.value()) % secp_order()
                &&& suop@[t].ci.c1 == cis@[j].c1
                &&& suop@[t].ci.c2@ == cis@[j].c2@
                &&& suop@[t].ci.c3 == cis@[j].c3
                &&& suop@[t].i < gamma
                &&& suop@[t].ci.wf()
            },
        decreases gamma - i,
    {
        if bits[i] {
            let r2 = precom[i].r2.copy();
            sop.push(SopUnitFig5 { i, ri: precom[i].ri, rho: (precom[i].r1, r2) });
        } else {
            let si = chain_scalar_add(y, &precom[i].ri);
            if si.is_zero() {
                return None;
            }
            let ci = cis[i].copy();
            suop.push(SuopUnitFig5 { i, si, ci });
        }
        i = i + 1;
    }
    Some((sop, suop))
}

/// The statements, the pre-signature and the one-time pad of a transition;
/// `None` exactly where the scheme meets a zero.
pub(crate) fn fig5_pad(wa: ChainScalar, sec: ChainScalar, a_kp: &SchnorrPair, tx: &str, y: ChainScalar, k: ChainScalar)
    -> (res: Option<(ChainPoint, ChainPoint, ChainPoint, SchnorrPreSig, ChainScalar)>)
    requires
        wa.wf(),
        sec.wf(),
        a_kp.wf(),
        y.wf(),
        k.wf(),
        k.value() != 0,
    ensures
        res is None <==> fig5_degenerate(wa, sec, *a_kp, tx@, y, k),
        res matches Some((y_pub, xa, xw, sigma_tilde, c_omega)) ==> {
            let yt = (y.value() + wa.value()) % secp_order();
            &&& is_multiple(y_pub.bytes@, y.value())
            &&& is_multiple(xa.bytes@, wa.value())
            &&& is_multiple(xw.bytes@, sec.value())
            &&& sigma_tilde.wf()
            &&& pre_sign_spec(a_kp.secret(), a_kp.public(), tx@, yt, k.value()) == Some(sigma_tilde.values())
            &&& c_omega.wf()
            &&& c_omega.value() == (yt + sec.value()) % secp_order()
        },
{
    let y_pub = chain_base_mul(&y);
    let xa = chain_base_mul(&wa);
    let xw = chain_base_mul(&sec);
    let y_tilde_pub = chain_point_add(&y_pub, &xa);
    proof {
        lemma_chain_only(y_pub.bytes@, y.value(), y_pub.bytes@, y.value());
        lemma_chain_only(xa.bytes@, wa.value(), xa.bytes@, wa.value());
        lemma_chain_only(y_tilde_pub.bytes@, (y.value() + wa.value()) % secp_order(), y_tilde_pub.bytes@, (y.value() + wa.value()) % secp_order());
    }
    if y_tilde_pub.is_zero() {
        return None;
    }
    let sigma_tilde = match pre_sign_with_nonce(a_kp, tx, &y_tilde_pub, &k) {
        Some(s) => s,
        None => return None,
    };
    let c_omega = chain_scalar_add(&y, &wa);
    if c_omega.is_zero() {
        return None;
    }
    let c_omega = chain_scalar_add(&c_omega, &sec);
    if c_omega.is_zero() {
        return None;
    }
    Some((y_pub, xa, xw, sigma_tilde, c_omega))
}

impl CVESCiphertextFig5 {
    /// The positions of the opened units, in order.
    pub open spec fn sop_positions(&self) -> Seq<usize> {
        self.sop@.map_values(|u: SopUnitFig5| u.i)
    }

    /// The positions of the unopened units, in order.
    pub open spec fn suop_positions(&self) -> Seq<usize> {
        self.suop@.map_values(|u: SuopUnitFig5| u.i)
    }

    /// The one-time pad matches the statements: `c_omega G = X_a + X_w + Y`,
    /// with `X_a + X_w` and the sum not the point at infinity.
    pub open spec fn enc_ok(&self) -> bool {
        let lx = chain_log(self.xa.bytes@);
        let lw = chain_log(self.xw.bytes@);
        let ly = chain_log(self.y_pub.bytes@);
        let s1 = (lx + lw) % secp_order();
        &&& s1 != 0
        &&& (s1 + ly) % secp_order() != 0
        &&& self.c_omega.value() == (s1 + ly) % secp_order()
    }

    /// The pre-signature verifies for the statement `Y + X_a`.
    pub open spec fn presig_ok(&self) -> bool {
        let lx = chain_log(self.xa.bytes@);
        let ly = chain_log(self.y_pub.bytes@);
        let t = (ly + lx) % secp_order();
        &&& t != 0
        &&& pre_verify_spec(self.vk.bytes@, self.tx@, self.sigma_tilde.s.value(), self.sigma_tilde.r.value(), t)
    }

    /// The position `idx` of the cut-and-choose proof checks out: an opened
    /// position has a unit whose secret and coins give its ciphertext; an
    /// unopened one has a unit whose shifted secret is the logarithm of
    /// `Y + R_idx`, which is not zero.
    pub open spec fn position_ok(&self, idx: int) -> bool {
        if self.bits()[idx] {
            let t = first_pos(self.sop_positions(), idx as usize) as int;
            &&& t < self.sop@.len()
            &&& idx < self.cis@.len()
            &&& self.cis@[idx].encrypts(
                message_log(self.pk.bytes@, self.m@),
                self.sop@[t].ri.bytes@,
                self.sop@[t].rho.0.value(),
                self.sop@[t].rho.1@,
            )
        } else {
            let t = first_pos(self.suop_positions(), idx as usize) as int;
            let v = (chain_log(self.y_pub.bytes@) + chain_log(self.v_ri_pub@[idx].bytes@)) % secp_order();
            &&& t < self.suop@.len()
            &&& idx < self.v_ri_pub@.len()
            &&& v != 0
            &&& self.suop@[t].si.value() == v
        }
    }

    /// Every position below `gamma` checks out.
    pub open spec fn cut_and_choose_ok(&self, gamma: nat) -> bool {
        forall|idx: int| 0 <= idx < gamma ==> #[trigger] self.position_ok(idx)
    }

    /// Verifies the ciphertext for `gamma` positions: the one-time pad, the
    /// pre-signature under `vk` on `tx`, and the cut-and-choose proof
    /// against `pk` and `m`. The public parts themselves are for the caller
    /// to check.
    #[verifier::loop_isolation(false)]
    pub fn verify(&self, gamma: usize) -> (res: Result<(), CvesError>)
        requires
            self.wf(gamma as nat),
        ensures
            res is Ok <==> self.enc_ok() && self.presig_ok() && self.cut_and_choose_ok(gamma as nat),
            res == Err::<(), CvesError>(CvesError::InvalidEncryption) <==> !self.enc_ok(),
            res == Err::<(), CvesError>(CvesError::InvalidPresignature) <==> self.enc_ok() && !self.presig_ok(),
            res == Err::<(), CvesError>(CvesError::InvalidCutAndChoose) <==> self.enc_ok() && self.presig_ok()
                && !self.cut_and_choose_ok(gamma as nat),
            res == self.verify_result(gamma as nat),
            res is Ok ==> forall|idx: int| 0 <= idx < gamma && #[trigger] self.bits()[idx] ==> exists|t: int|
                0 <= t < self.sop@.len() && self.sop@[t].i == idx && idx < self.cis@.len() && self.cis@[idx].encrypts(
                    message_log(self.pk.bytes@, self.m@), self.sop@[t].ri.bytes@, self.sop@[t].rho.0.value(), self.sop@[t].rho.1@),
            res is Ok ==> forall|idx: int| 0 <= idx < gamma && !#[trigger] self.bits()[idx] ==> exists|t: int|
                0 <= t < self.suop@.len() && self.suop@[t].i == idx && idx < self.v_ri_pub@.len() && self.suop@[t].si.value()
                    == (chain_log(self.y_pub.bytes@) + chain_log(self.v_ri_pub@[idx].bytes@)) % secp_order(),
    {
        let ri_pub_copy = self.v_ri_pub.clone();
        assert(ri_pub_copy@ == self.v_ri_pub@);
        let bits = hash_to_bits(&self.cis, ri_pub_copy, self.c_omega, self.xa, self.xw, self.y_pub, &self.sigma_tilde);
        if !self.check_pad() {
            return Err(CvesError::InvalidEncryption);
        }
        let y_tilde_pub = chain_point_add(&self.y_pub, &self.xa);
        proof {
            let t = (chain_log(self.y_pub.bytes@) + chain_log(self.xa.bytes@)) % secp_order();
            lemma_chain_only(y_tilde_pub.bytes@, t, y_tilde_pub.bytes@, t);
        }
        if y_tilde_pub.is_zero() {
            return Err(CvesError::InvalidPresignature);
        }
        if !pre_verify(self.vk, self.tx.as_str(), &self.sigma_tilde, &y_tilde_pub) {
            return Err(CvesError::InvalidPresignature);
        }
        let e = message_element(&self.pk, self.m.as_str());
        let mut idx: usize = 0;
        while idx < gamma
            invariant
                self.wf(gamma as nat),
                idx <= gamma,
                bits@ == self.bits(),
                e.wf(),
                gt_log(e@) == message_log(self.pk.bytes@, self.m@),
                forall|j: int| 0 <= j < idx ==> #[trigger] self.position_ok(j),
            decreases gamma - idx,
        {
            if !self.check_position(gamma, &bits, &e, idx) {
                return Err(CvesError::InvalidCutAndChoose);
            }
            idx = idx + 1;
        }
        proof {
            assert(self.verify_result(gamma as nat) is Ok);
            assert forall|j: int| 0 <= j < gamma && #[trigger] self.bits()[j] implies exists|t: int|
                0 <= t < self.sop@.len() && self.sop@[t].i == j && j < self.cis@.len() && self.cis@[j].encrypts(
                    message_log(self.pk.bytes@, self.m@), self.sop@[t].ri.bytes@, self.sop@[t].rho.0.value(), self.sop@[t].rho.1@) by {
                lemma_fig5_verified_position(*self, gamma as nat, j);
            }
            assert forall|j: int| 0 <= j < gamma && !#[trigger] self.bits()[j] implies exists|t: int|
                0 <= t < self.suop@.len() && self.suop@[t].i == j && j < self.v_ri_pub@.len() && self.suop@[t].si.value()
                    == (chain_log(self.y_pub.bytes@) + chain_log(self.v_ri_pub@[j].bytes@)) % secp_order() by {
                lemma_fig5_verified_position(*self, gamma as nat, j);
            }
        }
        Ok(())
    }

    /// Whether `c_omega G = X_a + X_w + Y`, the partial sums not zero.
    fn check_pad(&self) -> (ok: bool)
        requires
            self.c_omega.wf(),
            self.xa.wf(),
            self.xw.wf(),
            self.y_pub.wf(),
        ensures
            ok == self.enc_ok(),
    {
        let gc_omega = chain_base_mul(&self.c_omega);
        let check = chain_point_add(&self.xa, &self.xw);
        let ghost s1 = (chain_log(self.xa.bytes@) + chain_log(self.xw.bytes@)) % secp_order();
        proof {
            lemma_chain_only(check.bytes@, s1, check.bytes@, s1);
        }
        if check.is_zero() {
            return false;
        }
        let check = chain_point_add(&check, &self.y_pub);
        let ghost s2 = (s1 + chain_log(self.y_pub.bytes@)) % secp_order();
        proof {
            lemma_chain_only(check.bytes@, s2, gc_omega.bytes@, self.c_omega.value());
        }
        if check.is_zero() {
            return false;
        }
        gc_omega.equals(&check)
    }

    /// Whether the position `idx` of the cut-and-choose proof checks out.
    #[verifier::loop_isolation(false)]
    fn check_position(&self, gamma: usize, bits: &Vec<bool>, e: &GtElem, idx: usize) -> (ok: bool)
        requires
            self.wf(gamma as nat),
            idx < gamma,
            bits@ == self.bits(),
            bits@.len() == 256,
            e.wf(),
            gt_log(e@) == message_log(self.pk.bytes@, self.m@),
        ensures
            ok == self.position_ok(idx as int),
    {
        proof {
            lemma_first_pos(self.sop_positions(), idx);
            lemma_first_pos(self.suop_positions(), idx);
        }
        if bits[idx] {
            let mut t: usize = 0;
            while t < self.sop.len()
                invariant
                    t <= self.sop@.len(),
                    forall|u: int| 0 <= u < t ==> self.sop_positions()[u] != idx,
                decreases self.sop@.len() - t,
            {
                if self.sop[t].i == idx {
                    proof {
                        lemma_first_pos_at(self.sop_positions(), idx, t as int);
                    }
                    if idx >= self.cis.len() {
                        return false;
                    }
                    let u = &self.sop[t];
                    let r = self.cis[idx].copy().reconstruct(e, u.ri, u.rho.0, &u.rho.1);
                    return r.is_ok();
                }
                t = t + 1;
            }
            proof {
                lemma_first_pos_at(self.sop_positions(), idx, t as int);
            }
            false
        } else {
            let mut t: usize = 0;
            while t < self.suop.len()
                invariant
                    t <= self.suop@.len(),
                    forall|u: int| 0 <= u < t ==> self.suop_positions()[u] != idx,
                decreases self.suop@.len() - t,
            {
                if self.suop[t].i == idx {
                    proof {
                        lemma_first_pos_at(self.suop_positions(), idx, t as int);
                    }
                    if idx >= self.v_ri_pub.len() {
                        return false;
                    }
                    let gs = chain_base_mul(&self.suop[t].si);
                    let check2 = chain_point_add(&self.y_pub, &self.v_ri_pub[idx]);
                    let ghost v = (chain_log(self.y_pub.bytes@) + chain_log(self.v_ri_pub@[idx as int].bytes@)) % secp_order();
                    proof {
                        lemma_chain_only(check2.bytes@, v, gs.bytes@, self.suop@[t as int].si.value());
                    }
                    if check2.is_zero() {
                        return false;
                    }
                    return gs.equals(&check2);
                }
                t = t + 1;
            }
            proof {
                lemma_first_pos_at(self.suop_positions(), idx, t as int);
            }
            false
        }
    }
}

/// What opening an unopened unit gives: the secret `c_omega - y - w_a` and
/// the pre-signature adapted with `y + w_a`, where `y = s_i - r_i`; an error
/// where one of them is zero.
pub open spec fn unit_outcome(si: nat, ri: nat, c_omega: nat, presig: (nat, nat), wa: nat) -> Result<(nat, (nat, nat)), CvesError> {
    let y = sub_mod(si as int, ri as int);
    let sec = sub_mod(c_omega as int, y as int);
    let fin = sub_mod(sec as int, wa as int);
    let yt = (y + wa) % secp_order();
    let s2 = (presig.0 + yt) % secp_order();
    if y == 0 || sec == 0 || fin == 0 || yt == 0 || s2 == 0 {
        Err(CvesError::ZeroScalar)
    } else {
        Ok((fin, (s2, presig.1)))
    }
}

/// What decryption with a signature of logarithm `sig_log` gives from the
/// unopened unit `j` on: the outcome of the first unit whose ciphertext
/// decrypts to the secret of its commitment.
pub open spec fn fig5_dec_from(
    units: Seq<SuopUnitFig5>,
    j: int,
    ri_pub: Seq<ChainPoint>,
    c_omega: nat,
    presig: (nat, nat),
    sig_log: nat,
    wa: nat,
) -> Result<(nat, (nat, nat)), CvesError>
    decreases units.len() - j,
{
    if j < 0 || j >= units.len() {
        Err(CvesError::DecryptionFailed)
    } else {
        let u = units[j];
        let ri = wes_dec_spec(u.ci.c1.bytes@, u.ci.c2@, u.ci.c3@, sig_log);
        if ri == 0 {
            Err(CvesError::ZeroScalar)
        } else if chain_point_enc(ri) == ri_pub[u.i as int].bytes@ {
            unit_outcome(u.si.value(), ri, c_omega, presig, wa)
        } else {
            fig5_dec_from(units, j + 1, ri_pub, c_omega, presig, sig_log, wa)
        }
    }
}

/// What decryption with a signature of logarithm `sig_log` gives.
pub open spec fn fig5_dec_spec(
    units: Seq<SuopUnitFig5>,
    ri_pub: Seq<ChainPoint>,
    c_omega: nat,
    presig: (nat, nat),
    sig_log: nat,
    wa: nat,
) -> Result<(nat, (nat, nat)), CvesError> {
    fig5_dec_from(units, 0, ri_pub, c_omega, presig, sig_log, wa)
}

/// The result of a decryption agrees with its specification.
pub open spec fn dec_result_matches(
    res: Result<(ChainScalar, SchnorrSig), CvesError>,
    spec: Result<(nat, (nat, nat)), CvesError>,
) -> bool {
    match res {
        Ok((sec, sig)) => sec.wf() && sig.wf() && spec == Ok::<(nat, (nat, nat)), CvesError>((sec.value(), sig.values())),
        Err(e) => spec == Err::<(nat, (nat, nat)), CvesError>(e),
    }
}

/// Opens an unopened unit whose secret `ri` was recovered.
pub fn open_unit(si: &ChainScalar, ri: &ChainScalar, c_omega: &ChainScalar, presig: &SchnorrPreSig, wa: &ChainScalar)
    -> (res: Result<(ChainScalar, SchnorrSig), CvesError>)
    requires
        si.wf(),
        ri.wf(),
        c_omega.wf(),
        presig.wf(),
        wa.wf(),
    ensures
        dec_result_matches(res, unit_outcome(si.value(), ri.value(), c_omega.value(), presig.values(), wa.value())),
{
    let y = chain_scalar_sub(si, ri);
    if y.is_zero() {
        return Err(CvesError::ZeroScalar);
    }
    let sec = chain_scalar_sub(c_omega, &y);
    if sec.is_zero() {
        return Err(CvesError::ZeroScalar);
    }
    let final_sec = chain_scalar_sub(&sec, wa);
    if final_sec.is_zero() {
        return Err(CvesError::ZeroScalar);
    }
    let y_tilde = chain_scalar_add(&y, wa);
    if y_tilde.is_zero() {
        return Err(CvesError::ZeroScalar);
    }
    match adapt(presig, &y_tilde) {
        Some(sig) => Ok((final_sec, sig)),
        None => Err(CvesError::ZeroScalar),
    }
}

impl CVESCiphertextFig5 {
    /// Decrypts with the oracle's signature `sig` and the witness `wa` of the
    /// origin state: the witness of the new state and the payment signature.
    pub fn decrypt(&self, sig: G2Point, wa: ChainScalar) -> (res: Result<(ChainScalar, SchnorrSig), CvesError>)
        requires
            self.wf(0),
            sig.wf(),
            wa.wf(),
        ensures
            dec_result_matches(res, fig5_dec_spec(self.suop@, self.v_ri_pub@, self.c_omega.value(), self.sigma_tilde.values(), g2_log(sig.bytes@), wa.value())),
    {
        let mut j: usize = 0;
        while j < self.suop.len()
            invariant
                self.wf(0),
                sig.wf(),
                wa.wf(),
                j <= self.suop@.len(),
                fig5_dec_spec(self.suop@, self.v_ri_pub@, self.c_omega.value(), self.sigma_tilde.values(), g2_log(sig.bytes@), wa.value())
                    == fig5_dec_from(self.suop@, j as int, self.v_ri_pub@, self.c_omega.value(), self.sigma_tilde.values(), g2_log(sig.bytes@), wa.value()),
            decreases self.suop@.len() - j,
        {
            match self.try_unit(j, sig, wa) {
                Some(res) => return res,
                None => {},
            }
            j = j + 1;
        }
        Err(CvesError::DecryptionFailed)
    }

    /// Tries the unopened unit `j`: `None` where its ciphertext does not
    /// decrypt to the secret of its commitment.
    fn try_unit(&self, j: usize, sig: G2Point, wa: ChainScalar) -> (r: Option<Result<(ChainScalar, SchnorrSig), CvesError>>)
        requires
            self.wf(0),
            sig.wf(),
            wa.wf(),
            j < self.suop@.len(),
        ensures
            match r {
                Some(res) => dec_result_matches(res, fig5_dec_from(self.suop@, j as int, self.v_ri_pub@, self.c_omega.value(), self.sigma_tilde.values(), g2_log(sig.bytes@), wa.value())),
                None => fig5_dec_from(self.suop@, j as int, self.v_ri_pub@, self.c_omega.value(), self.sigma_tilde.values(), g2_log(sig.bytes@), wa.value())
                    == fig5_dec_from(self.suop@, j + 1, self.v_ri_pub@, self.c_omega.value(), self.sigma_tilde.values(), g2_log(sig.bytes@), wa.value()),
            },
    {
        let u = &self.suop[j];
        let ri = match u.ci.copy().decrypt(sig) {
            Some(r) => r,
            None => return Some(Err(CvesError::ZeroScalar)),
        };
        let got = chain_base_mul(&ri);
        if got.equals(&self.v_ri_pub[u.i]) {
            return Some(open_unit(&u.si, &ri, &self.c_omega, &self.sigma_tilde, &wa));
        }
        None
    }

    /// Encrypts `sec` with the precomputations and a fresh pad and nonce.
    pub fn enc_cs_from_precom(
        gamma: usize,
        pk: G1Point,
        wa: ChainScalar,
        m: &str,
        sec: ChainScalar,
        a_kp: SchnorrPair,
        tx: &str,
        precom: &Vec<PreComp>,
    ) -> (res: Option<CVESCiphertextFig5>)
        requires
            gamma <= 256,
            precom@.len() >= gamma,
            forall|j: int| 0 <= j < gamma ==> (#[trigger] precom@[j]).wf(),
            pk.wf(),
            wa.wf(),
            sec.wf(),
            a_kp.wf(),
        ensures
            exists|y: ChainScalar, k: ChainScalar| {
                &&& y.wf() && y.value() != 0 && k.wf() && k.value() != 0
                &&& res matches Some(c) ==> c.wf(gamma as nat) && fig5_made(c, gamma as nat, pk, wa, m@, sec, a_kp, tx@, precom@, y, k)
                &&& fig5_degenerate(wa, sec, a_kp, tx@, y, k) ==> res is None
                &&& res is None ==> fig5_degenerate(wa, sec, a_kp, tx@, y, k)
                    || exists|j: int| 0 <= j < gamma && (y.value() + precom@[j].ri.value()) % secp_order() == 0
            },
            res matches Some(c) ==> fig5_encrypts(c, gamma as nat, pk, wa, m@, sec, a_kp, tx@, precom@),
            res is None ==> fig5_fails(wa, sec, a_kp, tx@, precom@, gamma as nat),
    {
        let y = sample_rand_chain_scalar();
        let k = sample_rand_chain_scalar();
        let res = CVESCiphertextFig5::enc_cs_from_precom_with(gamma, pk, wa, m, sec, a_kp, tx, precom, y, k);
        proof {
            reveal(fig5_encrypts);
            reveal(fig5_fails);
            if res is Some {
                assert(fig5_made(res->0, gamma as nat, pk, wa, m@, sec, a_kp, tx@, precom@, y, k));
            } else {
                assert(fig5_degenerate(wa, sec, a_kp, tx@, y, k)
                    || exists|j: int| 0 <= j < gamma && (y.value() + precom@[j].ri.value()) % secp_order() == 0);
            }
        }
        res
    }
}

/// The positions of the units of an honestly made ciphertext are the
/// positions of their bits.
proof fn lemma_fig5_positions(
    c: CVESCiphertextFig5, gamma: nat, pk: G1Point, wa: ChainScalar, m: Seq<char>, sec: ChainScalar,
    kp: SchnorrPair, tx: Seq<char>, precom: Seq<PreComp>, y: ChainScalar, k: ChainScalar,
)
    requires
        fig5_made(c, gamma, pk, wa, m, sec, kp, tx, precom, y, k),
        gamma <= 256,
    ensures
        c.sop_positions() == indices_where(c.bits(), gamma, true),
        c.suop_positions() == indices_where(c.bits(), gamma, false),
{
    assert(c.sop_positions() =~= indices_where(c.bits(), gamma, true));
    assert(c.suop_positions() =~= indices_where(c.bits(), gamma, false));
}

/// Completeness: a ciphertext made honestly (from honest precomputations,
/// for a secret `sec` whose sum with `wa` is not zero) passes verification.
pub proof fn lemma_fig5_verifies(
    c: CVESCiphertextFig5, gamma: nat, pk: G1Point, wa: ChainScalar, m: Seq<char>, sec: ChainScalar,
    kp: SchnorrPair, tx: Seq<char>, precom: Seq<PreComp>, y: ChainScalar, k: ChainScalar,
)
    requires
        c.wf(gamma),
        fig5_made(c, gamma, pk, wa, m, sec, kp, tx, precom, y, k),
        forall|j: int| 0 <= j < gamma ==> (#[trigger] precom[j]).honest(),
        pk.wf(),
        wa.wf(),
        sec.wf(),
        y.wf(),
        k.wf(),
        0 < k.value(),
        kp.wf(),
        (wa.value() + sec.value()) % secp_order() != 0,
    ensures
        c.enc_ok(),
        c.presig_ok(),
        c.cut_and_choose_ok(gamma),
{
    let n = secp_order();
    lemma_chain_only(c.xa.bytes@, wa.value(), c.xw.bytes@, sec.value());
    lemma_chain_only(c.y_pub.bytes@, y.value(), c.y_pub.bytes@, y.value());
    let yt = (y.value() + wa.value()) % n;
    // c_omega = (y + w_a) + sec = y + (w_a + sec), and (w_a + sec) + y is the same sum
    lemma_add_assoc_mod(y.value() as int, wa.value() as int, sec.value() as int);
    lemma_add_assoc_mod(wa.value() as int, sec.value() as int, y.value() as int);
    assert(c.enc_ok());
    lemma_pre_sign_then_pre_verify(kp, tx, yt, k.value());
    assert(c.presig_ok());
    lemma_fig5_positions(c, gamma, pk, wa, m, sec, kp, tx, precom, y, k);
    let bits = c.bits();
    lemma_indices_where(bits, gamma, true);
    lemma_indices_where(bits, gamma, false);
    assert forall|idx: int| 0 <= idx < gamma implies #[trigger] c.position_ok(idx) by {
        if bits[idx] {
            let ind = indices_where(bits, gamma, true);
            let p = choose|p: int| 0 <= p < ind.len() && #[trigger] ind[p] == idx;
            assert forall|u: int| 0 <= u < p implies c.sop_positions()[u] != idx as usize by {
                assert(ind[u] < ind[p]);
            }
            lemma_first_pos_at(c.sop_positions(), idx as usize, p);
            assert(c.sop@[p].i == idx);
            assert(precom[idx].honest());
        } else {
            let ind = indices_where(bits, gamma, false);
            let p = choose|p: int| 0 <= p < ind.len() && #[trigger] ind[p] == idx;
            assert forall|u: int| 0 <= u < p implies c.suop_positions()[u] != idx as usize by {
                assert(ind[u] < ind[p]);
            }
            lemma_first_pos_at(c.suop_positions(), idx as usize, p);
            assert(c.suop@[p].i == idx);
            assert(precom[idx].honest());
            assert(c.v_ri_pub@[idx] == precom[idx].ri_pub);
            lemma_chain_only(c.v_ri_pub@[idx].bytes@, precom[idx].ri.value(), c.v_ri_pub@[idx].bytes@, precom[idx].ri.value());
        }
    }
}

/// Decryption: with the oracle's signature on the attestation `m` under the
/// key of logarithm `x`, and the witness `wa` of the origin state, an
/// honestly made ciphertext with an unopened position gives back the new
/// witness `sec` and a signature on `tx` that verifies under the payer's
/// key (unless the adapted `s` is zero).
pub proof fn lemma_fig5_decrypts(
    c: CVESCiphertextFig5, gamma: nat, pk: G1Point, x: nat, wa: ChainScalar, m: Seq<char>, sec: ChainScalar,
    kp: SchnorrPair, tx: Seq<char>, precom: Seq<PreComp>, y: ChainScalar, k: ChainScalar, sig: Seq<u8>,
)
    requires
        c.wf(gamma),
        fig5_made(c, gamma, pk, wa, m, sec, kp, tx, precom, y, k),
        forall|j: int| 0 <= j < gamma ==> (#[trigger] precom[j]).honest(),
        g1_only(pk.bytes@, x),
        wa.wf(),
        sec.wf(),
        sec.value() != 0,
        y.wf(),
        y.value() != 0,
        k.wf(),
        0 < k.value(),
        kp.wf(),
        (wa.value() + sec.value()) % secp_order() != 0,
        bls_verify_spec(x, m, sig),
        c.suop@.len() > 0,
    ensures
        ({
            let yt = (y.value() + wa.value()) % secp_order();
            let s2 = (c.sigma_tilde.s.value() + yt) % secp_order();
            &&& fig5_dec_spec(c.suop@, c.v_ri_pub@, c.c_omega.value(), c.sigma_tilde.values(), g2_log(sig), wa.value())
                == if s2 == 0 {
                    Err::<(nat, (nat, nat)), CvesError>(CvesError::ZeroScalar)
                } else {
                    Ok::<(nat, (nat, nat)), CvesError>((sec.value(), (s2, c.sigma_tilde.r.value())))
                }
            &&& verify_spec(kp.public(), tx, s2, c.sigma_tilde.r.value())
        }),
{
    let n = secp_order();
    let yt = (y.value() + wa.value()) % n;
    lemma_fig5_positions(c, gamma, pk, wa, m, sec, kp, tx, precom, y, k);
    let bits = c.bits();
    lemma_indices_where(bits, gamma, false);
    let u = c.suop@[0];
    let idx = u.i as int;
    let pre = precom[idx];
    assert(pre.honest());
    crate::curve::lemma_g1_only(pk.bytes@, x, pk.bytes@, x);
    assert(u.ci.encrypts(message_log(pk.bytes@, m), pre.ri.bytes@, pre.r1.value(), pre.r2@));
    lemma_wes_decrypt(u.ci, x, m, pre.ri, pre.r1.value(), pre.r2@, sig);
    let ri = pre.ri.value();
    assert(c.v_ri_pub@[idx] == pre.ri_pub);
    // the pad: y = s_i - r_i, sec + w_a = c_omega - y, sec = that - w_a
    lemma_sub_summand(y.value() as int, ri as int);
    vstd::arithmetic::div_mod::lemma_small_mod(y.value(), n);
    lemma_add_assoc_mod(y.value() as int, wa.value() as int, sec.value() as int);
    lemma_sub_summand((wa.value() + sec.value()) as int, y.value() as int);
    vstd::arithmetic::div_mod::lemma_mod_twice((wa.value() + sec.value()) as int, n as int);
    lemma_sub_summand(sec.value() as int, wa.value() as int);
    vstd::arithmetic::div_mod::lemma_small_mod(sec.value(), n);
    assert((y.value() + wa.value() + sec.value()) % n == ((wa.value() + sec.value()) + y.value()) % n);
    // the adapted signature verifies
    lemma_pre_sign_then_pre_verify(kp, tx, yt, k.value());
    lemma_adapt_then_verify(kp.public(), tx, c.sigma_tilde.s.value(), c.sigma_tilde.r.value(), yt);
}

/// `c` is an encryption of `sec` made as `fig5_made` says for some
/// non-zero pad and nonce.
#[verifier::opaque]
pub open spec fn fig5_encrypts(
    c: CVESCiphertextFig5, gamma: nat, pk: G1Point, wa: ChainScalar, m: Seq<char>, sec: ChainScalar,
    kp: SchnorrPair, tx: Seq<char>, precom: Seq<PreComp>,
) -> bool {
    exists|y: ChainScalar, k: ChainScalar| {
        &&& y.wf() && y.value() != 0 && k.wf() && k.value() != 0
        &&& c.wf(gamma)
        &&& #[trigger] fig5_made(c, gamma, pk, wa, m, sec, kp, tx, precom, y, k)
    }
}

/// Some non-zero pad and nonce make the encryption meet a zero.
#[verifier::opaque]
pub open spec fn fig5_fails(wa: ChainScalar, sec: ChainScalar, kp: SchnorrPair, tx: Seq<char>, precom: Seq<PreComp>, gamma: nat) -> bool {
    exists|y: ChainScalar, k: ChainScalar| {
        &&& y.wf() && y.value() != 0 && k.wf() && k.value() != 0
        &&& #[trigger] fig5_degenerate(wa, sec, kp, tx, y, k)
            || exists|j: int| 0 <= j < gamma && (y.value() + precom[j].ri.value()) % secp_order() == 0
    }
}

impl CVESCiphertextFig5 {
    /// What verification returns: the first of the one-time pad, the
    /// pre-signature and the cut-and-choose proof that fails gives the
    /// error.
    pub open spec fn verify_result(&self, gamma: nat) -> Result<(), CvesError> {
        if !self.enc_ok() {
            Err(CvesError::InvalidEncryption)
        } else if !self.presig_ok() {
            Err(CvesError::InvalidPresignature)
        } else if !self.cut_and_choose_ok(gamma) {
            Err(CvesError::InvalidCutAndChoose)
        } else {
            Ok(())
        }
    }
}

/// An encryption made as `fig5_encrypts` says, from honest
/// precomputations and for a secret whose sum with `wa` is not zero,
/// passes verification.
pub proof fn lemma_fig5_encrypts_verifies(
    c: CVESCiphertextFig5, gamma: nat, pk: G1Point, wa: ChainScalar, m: Seq<char>, sec: ChainScalar,
    kp: SchnorrPair, tx: Seq<char>, precom: Seq<PreComp>,
)
    requires
        fig5_encrypts(c, gamma, pk, wa, m, sec, kp, tx, precom),
        forall|j: int| 0 <= j < gamma ==> (#[trigger] precom[j]).honest(),
        pk.wf(),
        wa.wf(),
        sec.wf(),
        kp.wf(),
        (wa.value() + sec.value()) % secp_order() != 0,
    ensures
        c.verify_result(gamma) is Ok,
{
    reveal(fig5_encrypts);
    let (y, k) = choose|y: ChainScalar, k: ChainScalar| {
        &&& y.wf() && y.value() != 0 && k.wf() && k.value() != 0
        &&& c.wf(gamma)
        &&& #[trigger] fig5_made(c, gamma, pk, wa, m, sec, kp, tx, precom, y, k)
    };
    lemma_fig5_verifies(c, gamma, pk, wa, m, sec, kp, tx, precom, y, k);
}

/// The decryption of an encryption made as `fig5_encrypts` says, from
/// honest precomputations, with the oracle's signature on its attestation:
/// the secret and a signature on the payment that verifies under the
/// payer's key, unless the adapted `s` is zero.
pub open spec fn fig5_opens(dec: Result<(nat, (nat, nat)), CvesError>, sec: nat, kp: SchnorrPair, tx: Seq<char>) -> bool {
    ||| dec == Err::<(nat, (nat, nat)), CvesError>(CvesError::ZeroScalar)
    ||| (dec is Ok && dec->Ok_0.0 == sec && verify_spec(kp.public(), tx, dec->Ok_0.1.0, dec->Ok_0.1.1))
}

/// Decryption of an encryption made as `fig5_encrypts` says: the oracle's
/// signature on the attestation and the witness `wa` of the origin give
/// back `sec` and a signature on `tx` that verifies under the payer's key.
pub proof fn lemma_fig5_encrypts_decrypts(
    c: CVESCiphertextFig5, gamma: nat, pk: G1Point, x: nat, wa: ChainScalar, m: Seq<char>, sec: ChainScalar,
    kp: SchnorrPair, tx: Seq<char>, precom: Seq<PreComp>, sig: Seq<u8>,
)
    requires
        fig5_encrypts(c, gamma, pk, wa, m, sec, kp, tx, precom),
        forall|j: int| 0 <= j < gamma ==> (#[trigger] precom[j]).honest(),
        g1_only(pk.bytes@, x),
        wa.wf(),
        sec.wf(),
        sec.value() != 0,
        kp.wf(),
        (wa.value() + sec.value()) % secp_order() != 0,
        bls_verify_spec(x, m, sig),
        c.suop@.len() > 0,
    ensures
        fig5_opens(fig5_dec_spec(c.suop@, c.v_ri_pub@, c.c_omega.value(), c.sigma_tilde.values(), g2_log(sig), wa.value()),
            sec.value(), kp, tx),
{
    reveal(fig5_encrypts);
    let (y, k) = choose|y: ChainScalar, k: ChainScalar| {
        &&& y.wf() && y.value() != 0 && k.wf() && k.value() != 0
        &&& c.wf(gamma)
        &&& #[trigger] fig5_made(c, gamma, pk, wa, m, sec, kp, tx, precom, y, k)
    };
    lemma_fig5_decrypts(c, gamma, pk, x, wa, m, sec, kp, tx, precom, y, k, sig);
}

/// An encryption made as `fig5_encrypts` says carries its attestation and
/// its payment.
pub proof fn lemma_fig5_encrypts_message(
    c: CVESCiphertextFig5, gamma: nat, pk: G1Point, wa: ChainScalar, m: Seq<char>, sec: ChainScalar,
    kp: SchnorrPair, tx: Seq<char>, precom: Seq<PreComp>,
)
    requires
        fig5_encrypts(c, gamma, pk, wa, m, sec, kp, tx, precom),
    ensures
        c.m@ == m,
        c.tx@ == tx,
{
    reveal(fig5_encrypts);
}

/// Soundness of verification at a position: where verification succeeds
/// for `gamma` positions, at a position below `gamma` whose challenge bit
/// is set an opened unit sits, and the ciphertext there is the WES
/// encryption of that unit's secret with its coins under the key `pk` and
/// the attestation `m`; at a position whose bit is clear an unopened unit
/// sits, whose shifted secret is the logarithm of `Y + R_idx`.
pub proof fn lemma_fig5_verified_position(c: CVESCiphertextFig5, gamma: nat, idx: int)
    requires
        c.wf(gamma),
        c.verify_result(gamma) is Ok,
        0 <= idx < gamma,
    ensures
        c.bits()[idx] ==> exists|t: int| 0 <= t < c.sop@.len() && c.sop@[t].i == idx && idx < c.cis@.len()
            && c.cis@[idx].encrypts(message_log(c.pk.bytes@, c.m@), c.sop@[t].ri.bytes@, c.sop@[t].rho.0.value(),
            c.sop@[t].rho.1@),
        !c.bits()[idx] ==> exists|t: int| 0 <= t < c.suop@.len() && c.suop@[t].i == idx && idx < c.v_ri_pub@.len()
            && c.suop@[t].si.value() == (chain_log(c.y_pub.bytes@) + chain_log(c.v_ri_pub@[idx].bytes@)) % secp_order(),
{
    assert(c.cut_and_choose_ok(gamma));
    assert(c.position_ok(idx));
    lemma_first_pos(c.sop_positions(), idx as usize);
    lemma_first_pos(c.suop_positions(), idx as usize);
    assert(c.sop_positions().len() == c.sop@.len());
    assert(c.suop_positions().len() == c.suop@.len());
    if c.bits()[idx] {
        let t = first_pos(c.sop_positions(), idx as usize) as int;
        assert(c.sop_positions()[t] == c.sop@[t].i);
        assert(0 <= t < c.sop@.len() && c.sop@[t].i == idx && idx < c.cis@.len()
            && c.cis@[idx].encrypts(message_log(c.pk.bytes@, c.m@), c.sop@[t].ri.bytes@, c.sop@[t].rho.0.value(),
            c.sop@[t].rho.1@));
    } else {
        let t = first_pos(c.suop_positions(), idx as usize) as int;
        assert(c.suop_positions()[t] == c.suop@[t].i);
        assert(0 <= t < c.suop@.len() && c.suop@[t].i == idx && idx < c.v_ri_pub@.len()
            && c.suop@[t].si.value() == (chain_log(c.y_pub.bytes@) + chain_log(c.v_ri_pub@[idx].bytes@)) % secp_order());
    }
}

} // verus!
