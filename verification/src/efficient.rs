//! CVES for a loan of several installments with an involved oracle: one
//! ciphertext secures the transitions from the initial state to each later
//! state, with one cut-and-choose proof for all of them. Decryption of
//! state `i` uses the oracle's aggregate signature on the first `i`
//! attestations; with the initial witness it gives back the witness of the
//! first state. For a later state the unopened secret also holds the
//! secrets of the earlier rows, which decryption does not remove, so the
//! result does not match that state's statement (`InvalidWitness`).

use vstd::prelude::*;
use vstd::arithmetic::div_mod::{lemma_small_mod, lemma_mod_bound};
use crate::bytes::bits_of;
use crate::hashing::sha256_digest;
use crate::chain::{
    ChainScalar, ChainPoint, secp_order, chain_point_enc, chain_log, is_multiple, lemma_chain_only,
    lemma_sub_summand, chain_scalar_add, chain_scalar_sub, chain_base_mul, chain_point_add,
};
use crate::curve::{BlsScalar, G1Point, G2Point, GtElem, bls_order, g1_log, g2_log, gt_only, gt_log, g1_only};
use crate::common::{hash_to_bits_in, challenge_data_in, sample_rand_chain_scalars};
use crate::wes::{
    WESCiphertext, PreComp, wes_c2_log, wes_dec_spec, prefix_message_element, lemma_wes_dec_bytes,
};
use crate::signbls::{hash_sum, hash_log, bls_verify_spec};
use crate::schnorradaptor::{
    SchnorrPair, SchnorrPreSig, SchnorrSig, pre_sign_spec, pre_verify_spec, sub_mod, verify_spec,
    pre_verify, adapt, verify, lemma_pre_sign_then_pre_verify, lemma_adapt_then_verify,
};
use crate::cvesfig5::{fig5_ciphertexts, fig5_pad, fig5_degenerate, dec_result_matches, CVESCiphertextFig5};
use crate::cves::CvesError;

verus! {

/// A CVES ciphertext for the transitions from the initial state to each
/// later state.
pub struct CVESCiphertextIn {
    pub m_cis: Vec<Vec<WESCiphertext>>,
    pub c_omega: Vec<ChainScalar>,
    pub sop: Vec<Vec<SopUnitIn>>,
    pub suop: Vec<Vec<SuopUnitIn>>,
    pub m_ri_pub: Vec<Vec<ChainPoint>>,
    pub x: Vec<ChainPoint>,
    pub y_pub: Vec<ChainPoint>,
    pub sigma_tilde: Vec<SchnorrPreSig>,
    pub m: Vec<String>,
    pub pk: G1Point,
    pub tx: Vec<String>,
    pub vk: ChainPoint,
}

/// An opened position `i` of the ciphertext of state `j`.
pub struct SopUnitIn {
    pub i: usize,
    pub j: usize,
    pub ri: ChainScalar,
    pub rho: (BlsScalar, GtElem),
}

/// An unopened position `i` of the ciphertext of state `j`.
pub struct SuopUnitIn {
    pub i: usize,
    pub j: usize,
    pub si: ChainScalar,
    pub ci: WESCiphertext,
}

/// The attestations as character strings.
pub open spec fn strings_view(m: Seq<String>) -> Seq<Seq<char>> {
    m.map_values(|s: String| s@)
}

/// The logarithm of the element that pairs the key with the aggregate hash
/// of the first `n` attestations.
pub open spec fn prefix_log(pk: Seq<u8>, m: Seq<Seq<char>>, n: int) -> nat {
    (g1_log(pk) * hash_sum(m.take(n))) % bls_order()
}

/// The sum of the secrets at position `k` that the unopened unit of state
/// `i` holds besides its pad: the first secret, and those of the states
/// from the second to the one before `i - 1`.
pub open spec fn in_acc(precom: Seq<Seq<PreComp>>, k: int, i: int) -> nat
    decreases i,
{
    if i <= 2 {
        precom[0][k].ri.value()
    } else {
        (in_acc(precom, k, i - 1) + precom[i - 2][k].ri.value()) % secp_order()
    }
}

/// No partial sum of `in_acc` after the first is zero.
pub open spec fn in_acc_ok(precom: Seq<Seq<PreComp>>, k: int, i: int) -> bool
    decreases i,
{
    if i <= 2 {
        true
    } else {
        in_acc_ok(precom, k, i - 1) && in_acc(precom, k, i) != 0
    }
}

/// `in_acc_ok` of a later state implies it of an earlier one.
pub proof fn lemma_in_acc_ok_mono(precom: Seq<Seq<PreComp>>, k: int, a: int, b: int)
    requires
        a <= b,
        in_acc_ok(precom, k, b),
    ensures
        in_acc_ok(precom, k, a),
    decreases b - a,
{
    if a < b {
        lemma_in_acc_ok_mono(precom, k, a, b - 1);
    }
}

/// The ciphertext `ci` is the completion of `pre` for the message element of
/// logarithm `ml`.
pub open spec fn cell_made(ci: WESCiphertext, pre: PreComp, ml: nat) -> bool {
    &&& ci.c1 == pre.c1
    &&& ci.c3 == pre.c3
    &&& gt_only(ci.c2@, wes_c2_log(ml, pre.r1.value(), gt_log(pre.r2@)))
    &&& ci.wf()
}

/// The precomputations have `l` rows of at least `gamma` well-formed
/// entries (none are read where `gamma` is zero).
pub open spec fn precom_ok(precom: Seq<Seq<PreComp>>, l: nat, gamma: nat) -> bool {
    &&& gamma > 0 ==> precom.len() >= l
    &&& forall|i: int| 0 <= i < l ==> (#[trigger] precom[i]).len() >= gamma
    &&& forall|i: int, j: int| 0 <= i < l && 0 <= j < gamma ==> (#[trigger] precom[i][j]).wf()
}

impl CVESCiphertextIn {
    /// Draws `l` rows of precomputations of `gamma` WES ciphertexts.
    pub fn precompute(gamma: usize, l: usize) -> (vprecom: Vec<Vec<PreComp>>)
        ensures
            vprecom@.len() == l,
            forall|i: int| 0 <= i < l ==> (#[trigger] vprecom@[i])@.len() == gamma,
            forall|i: int, j: int| 0 <= i < l && 0 <= j < gamma ==> (#[trigger] vprecom@[i]@[j]).honest(),
    {
        let mut vprecom: Vec<Vec<PreComp>> = Vec::new();
        let mut i: usize = 0;
        while i < l
            invariant
                i <= l,
                vprecom@.len() == i,
                forall|t: int| 0 <= t < i ==> (#[trigger] vprecom@[t])@.len() == gamma,
                forall|t: int, j: int| 0 <= t < i && 0 <= j < gamma ==> (#[trigger] vprecom@[t]@[j]).honest(),
            decreases l - i,
        {
            vprecom.push(CVESCiphertextFig5::precompute(gamma));
            i = i + 1;
        }
        vprecom
    }
}

/// The rows of WES ciphertexts and commitments: row `i` completes the
/// precomputations of row `i` for the first `i + 1` attestations.
pub(crate) fn in_rows(gamma: usize, l: usize, pk: &G1Point, m: &Vec<String>, precom: &Vec<Vec<PreComp>>)
    -> (res: (Vec<Vec<WESCiphertext>>, Vec<Vec<ChainPoint>>))
    requires
        pk.wf(),
        l <= m@.len(),
        precom_ok(precom@.map_values(|r: Vec<PreComp>| r@), l as nat, gamma as nat),
    ensures
        res.0@.len() == l,
        res.1@.len() == l,
        forall|i: int| #![trigger res.0@[i]] #![trigger res.1@[i]] 0 <= i < l ==> res.0@[i]@.len() == gamma && res.1@[i]@.len() == gamma,
        forall|i: int, j: int| 0 <= i < l && 0 <= j < gamma ==> cell_made(
            #[trigger] res.0@[i]@[j],
            precom@[i]@[j],
            prefix_log(pk.bytes@, strings_view(m@), i + 1),
        ),
        forall|i: int, j: int| 0 <= i < l && 0 <= j < gamma ==> (#[trigger] res.1@[i]@[j]) == precom@[i]@[j].ri_pub
            && res.1@[i]@[j].wf(),
{
    let ghost pv = precom@.map_values(|r: Vec<PreComp>| r@);
    let mut m_cis: Vec<Vec<WESCiphertext>> = Vec::new();
    let mut m_ri_pub: Vec<Vec<ChainPoint>> = Vec::new();
    let mut i: usize = 0;
    while i < l
        invariant
            pk.wf(),
            i <= l,
            l <= m@.len(),
            pv == precom@.map_values(|r: Vec<PreComp>| r@),
            precom_ok(pv, l as nat, gamma as nat),
            m_cis@.len() == i,
            m_ri_pub@.len() == i,
            forall|t: int| #![trigger m_cis@[t]] #![trigger m_ri_pub@[t]] 0 <= t < i ==> m_cis@[t]@.len() == gamma && m_ri_pub@[t]@.len() == gamma,
            forall|t: int, j: int| 0 <= t < i && 0 <= j < gamma ==> cell_made(
                #[trigger] m_cis@[t]@[j],
                precom@[t]@[j],
                prefix_log(pk.bytes@, strings_view(m@), t + 1),
            ),
            forall|t: int, j: int| 0 <= t < i && 0 <= j < gamma ==> (#[trigger] m_ri_pub@[t]@[j]) == precom@[t]@[j].ri_pub
                && m_ri_pub@[t]@[j].wf(),
        decreases l - i,
    {
        let pair = prefix_message_element(pk, m, i + 1);
        let (cis, v_ri_pub) = if gamma == 0 {
            (Vec::new(), Vec::new())
        } else {
            proof {
                assert(pv[i as int] == precom@[i as int]@);
                assert forall|j: int| 0 <= j < gamma implies (#[trigger] precom@[i as int]@[j]).wf() by {
                    assert(pv[i as int][j] == precom@[i as int]@[j]);
                }
            }
            fig5_ciphertexts(gamma, &precom[i], &pair)
        };
        m_cis.push(cis);
        m_ri_pub.push(v_ri_pub);
        i = i + 1;
    }
    (m_cis, m_ri_pub)
}

/// The rows of a list of precomputations, as sequences.
pub open spec fn precom_view(precom: Seq<Vec<PreComp>>) -> Seq<Seq<PreComp>> {
    precom.map_values(|r: Vec<PreComp>| r@)
}

/// The state `i` (from 1) meets a zero: its pad or pre-signature.
pub open spec fn in_state_degenerate(w: Seq<ChainScalar>, kp: SchnorrPair, tx: Seq<Seq<char>>, ys: Seq<ChainScalar>, ks: Seq<ChainScalar>, i: int) -> bool {
    fig5_degenerate(w[0], w[i], kp, tx[i - 1], ys[i - 1], ks[i - 1])
}

/// The pads, pre-signatures and one-time pads of the states from 1 to `l`.
#[verifier::spinoff_prover]
fn in_pads(l: usize, w: &Vec<ChainScalar>, a_kp: &SchnorrPair, tx: &Vec<String>, ys: &Vec<ChainScalar>, ks: &Vec<ChainScalar>)
    -> (res: Option<(Vec<ChainPoint>, Vec<SchnorrPreSig>, Vec<ChainScalar>)>)
    requires
        w@.len() == l + 1,
        tx@.len() == l,
        ys@.len() == l,
        ks@.len() == l,
        forall|t: int| 0 <= t <= l ==> (#[trigger] w@[t]).wf(),
        forall|t: int| 0 <= t < l ==> (#[trigger] ys@[t]).wf() && ks@[t].wf() && ks@[t].value() != 0,
        a_kp.wf(),
    ensures
        res is None <==> exists|i: int| 1 <= i <= l && in_state_degenerate(w@, *a_kp, strings_view(tx@), ys@, ks@, i),
        res matches Some((y_pub, sigma_tilde, c_omega)) ==> {
            &&& y_pub@.len() == l
            &&& sigma_tilde@.len() == l
            &&& c_omega@.len() == l
            &&& forall|t: int| 0 <= t < l ==> {
                let yt = (ys@[t].value() + w@[0].value()) % secp_order();
                &&& is_multiple((#[trigger] y_pub@[t]).bytes@, ys@[t].value())
                &&& sigma_tilde@[t].wf()
                &&& pre_sign_spec(a_kp.secret(), a_kp.public(), tx@[t]@, yt, ks@[t].value()) == Some(sigma_tilde@[t].values())
                &&& c_omega@[t].wf()
                &&& c_omega@[t].value() == (yt + w@[t + 1].value()) % secp_order()
            }
        },
{
    let mut y_pub: Vec<ChainPoint> = Vec::new();
    let mut sigma_tilde: Vec<SchnorrPreSig> = Vec::new();
    let mut c_omega: Vec<ChainScalar> = Vec::new();
    let mut i: usize = 0;
    while i < l
        invariant
            w@.len() == l + 1,
            tx@.len() == l,
            ys@.len() == l,
            ks@.len() == l,
            forall|t: int| 0 <= t <= l ==> (#[trigger] w@[t]).wf(),
            forall|t: int| 0 <= t < l ==> (#[trigger] ys@[t]).wf() && ks@[t].wf() && ks@[t].value() != 0,
            a_kp.wf(),
            i <= l,
            forall|t: int| 1 <= t <= i ==> !in_state_degenerate(w@, *a_kp, strings_view(tx@), ys@, ks@, t),
            y_pub@.len() == i,
            sigma_tilde@.len() == i,
            c_omega@.len() == i,
            forall|t: int| 0 <= t < i ==> {
                let yt = (ys@[t].value() + w@[0].value()) % secp_order();
                &&& is_multiple((#[trigger] y_pub@[t]).bytes@, ys@[t].value())
                &&& sigma_tilde@[t].wf()
                &&& pre_sign_spec(a_kp.secret(), a_kp.public(), tx@[t]@, yt, ks@[t].value()) == Some(sigma_tilde@[t].values())
                &&& c_omega@[t].wf()
                &&& c_omega@[t].value() == (yt + w@[t + 1].value()) % secp_order()
            },
        decreases l - i,
    {
        proof {
            assert(strings_view(tx@)[i as int] == tx@[i as int]@);
        }
        match fig5_pad(w[0], w[i + 1], a_kp, tx[i].as_str(), ys[i], ks[i]) {
            Some((y_pub_i, _xa, _xw, sigma_i, c_omega_i)) => {
                y_pub.push(y_pub_i);
                sigma_tilde.push(sigma_i);
                c_omega.push(c_omega_i);
            },
            None => {
                assert(in_state_degenerate(w@, *a_kp, strings_view(tx@), ys@, ks@, i + 1));
                return None;
            },
        }
        i = i + 1;
    }
    Some((y_pub, sigma_tilde, c_omega))
}

/// The statements: each witness times the generator.
pub fn statements(w: &Vec<ChainScalar>) -> (x: Vec<ChainPoint>)
    requires
        forall|t: int| 0 <= t < w@.len() ==> (#[trigger] w@[t]).wf(),
    ensures
        x@.len() == w@.len(),
        forall|t: int| 0 <= t < w@.len() ==> is_multiple((#[trigger] x@[t]).bytes@, w@[t].value()) && x@[t].wf(),
{
    let mut x: Vec<ChainPoint> = Vec::new();
    let mut i: usize = 0;
    while i < w.len()
        invariant
            i <= w@.len(),
            forall|t: int| 0 <= t < w@.len() ==> (#[trigger] w@[t]).wf(),
            x@.len() == i,
            forall|t: int| 0 <= t < i ==> is_multiple((#[trigger] x@[t]).bytes@, w@[t].value()) && x@[t].wf(),
        decreases w@.len() - i,
    {
        x.push(chain_base_mul(&w[i]));
        i = i + 1;
    }
    x
}

/// The shifted secret of the unopened unit of position `k` and state `i`:
/// `in_acc` plus the pad `y`; `None` where a partial sum is zero.
fn in_si(precom: &Vec<Vec<PreComp>>, k: usize, i: usize, y: &ChainScalar) -> (si: Option<ChainScalar>)
    requires
        1 <= i,
        i <= precom@.len(),
        forall|t: int| 0 <= t < i ==> k < (#[trigger] precom@[t])@.len() && precom@[t]@[k as int].wf(),
        y.wf(),
    ensures
        match si {
            Some(s) => {
                &&& in_acc_ok(precom_view(precom@), k as int, i as int)
                &&& s.wf()
                &&& s.value() == (in_acc(precom_view(precom@), k as int, i as int) + y.value()) % secp_order()
                &&& s.value() != 0
            },
            None => !in_acc_ok(precom_view(precom@), k as int, i as int)
                || (in_acc(precom_view(precom@), k as int, i as int) + y.value()) % secp_order() == 0,
        },
{
    let ghost pv = precom_view(precom@);
    proof {
        assert(pv[0] == precom@[0]@);
    }
    let mut sij = precom[0][k].ri;
    let mut idx: usize = 2;
    while idx < i
        invariant
            2 <= idx,
            i <= precom@.len(),
            pv == precom_view(precom@),
            forall|t: int| 0 <= t < i ==> k < (#[trigger] precom@[t])@.len() && precom@[t]@[k as int].wf(),
            sij.wf(),
            sij.value() == in_acc(pv, k as int, idx as int),
            in_acc_ok(pv, k as int, idx as int),
            i > 2 ==> idx <= i,
            i <= 2 ==> idx == 2,
        decreases i - idx,
    {
        proof {
            assert(pv[idx - 1] == precom@[idx - 1]@);
        }
        sij = chain_scalar_add(&sij, &precom[idx - 1][k].ri);
        if sij.is_zero() {
            proof {
                if in_acc_ok(pv, k as int, i as int) {
                    lemma_in_acc_ok_mono(pv, k as int, (idx + 1) as int, i as int);
                }
            }
            return None;
        }
        idx = idx + 1;
    }
    proof {
        if i <= 2 {
            assert(in_acc(pv, k as int, i as int) == in_acc(pv, k as int, 2));
            assert(in_acc_ok(pv, k as int, i as int));
        } else {
            assert(idx == i);
        }
        assert(sij.value() == in_acc(pv, k as int, i as int));
        assert(in_acc_ok(pv, k as int, i as int));
    }
    let si = chain_scalar_add(&sij, y);
    if si.is_zero() {
        return None;
    }
    Some(si)
}

/// The opened unit `u` is position `k` of state `t + 1`, with the secret and
/// coins of its precomputation.
pub open spec fn sop_unit_made(u: SopUnitIn, pv: Seq<Seq<PreComp>>, k: int, t: int) -> bool {
    &&& u.i == k
    &&& u.j == t + 1
    &&& u.ri == pv[t][k].ri
    &&& u.rho.0 == pv[t][k].r1
    &&& u.rho.1@ == pv[t][k].r2@
    &&& u.ri.wf()
    &&& u.rho.0.wf()
    &&& u.rho.1.wf()
}

/// The unopened unit `u` is position `k` of state `t + 1`: its shifted
/// secret is `in_acc` plus the pad of the state, and its ciphertext that of
/// the position.
pub open spec fn suop_unit_made(u: SuopUnitIn, pv: Seq<Seq<PreComp>>, ci: WESCiphertext, y: nat, k: int, t: int) -> bool {
    &&& u.i == k
    &&& u.j == t + 1
    &&& in_acc_ok(pv, k, t + 1)
    &&& u.si.wf()
    &&& u.si.value() == (in_acc(pv, k, t + 1) + y) % secp_order()
    &&& u.si.value() != 0
    &&& u.ci.c1 == ci.c1
    &&& u.ci.c2@ == ci.c2@
    &&& u.ci.c3 == ci.c3
    &&& u.ci.wf()
}

/// The unopened unit of position `k` and state `t + 1` cannot be made: a
/// partial sum or its shifted secret is zero.
pub open spec fn suop_unit_degenerate(pv: Seq<Seq<PreComp>>, y: nat, k: int, t: int) -> bool {
    !in_acc_ok(pv, k, t + 1) || (in_acc(pv, k, t + 1) + y) % secp_order() == 0
}

/// The units of position `k` for the states 1 to `l`: all opened where its
/// bit is set, all unopened where it is not.
pub open spec fn row_made(
    sop_row: Seq<SopUnitIn>,
    suop_row: Seq<SuopUnitIn>,
    bit: bool,
    l: nat,
    pv: Seq<Seq<PreComp>>,
    m_cis: Seq<Vec<WESCiphertext>>,
    ys: Seq<ChainScalar>,
    k: int,
) -> bool {
    &&& bit ==> sop_row.len() == l && suop_row.len() == 0
    &&& !bit ==> sop_row.len() == 0 && suop_row.len() == l
    &&& bit ==> forall|t: int| 0 <= t < l ==> sop_unit_made(#[trigger] sop_row[t], pv, k, t)
    &&& !bit ==> forall|t: int| 0 <= t < l ==> suop_unit_made(#[trigger] suop_row[t], pv, m_cis[t]@[k], ys[t].value(), k, t)
}

/// Some unopened unit of position `k` cannot be made.
pub open spec fn row_degenerate(l: nat, pv: Seq<Seq<PreComp>>, ys: Seq<ChainScalar>, k: int) -> bool {
    exists|t: int| 0 <= t < l && #[trigger] suop_unit_degenerate(pv, ys[t].value(), k, t)
}

/// The units of one position for the states 1 to `l`.
fn in_units_row(
    l: usize,
    k: usize,
    bit: bool,
    precom: &Vec<Vec<PreComp>>,
    m_cis: &Vec<Vec<WESCiphertext>>,
    ys: &Vec<ChainScalar>,
) -> (res: Option<(Vec<SopUnitIn>, Vec<SuopUnitIn>)>)
    requires
        precom@.len() >= l,
        forall|t: int| 0 <= t < l ==> k < (#[trigger] precom@[t])@.len() && precom@[t]@[k as int].wf(),
        m_cis@.len() >= l,
        forall|t: int| 0 <= t < l ==> k < (#[trigger] m_cis@[t])@.len() && m_cis@[t]@[k as int].wf(),
        ys@.len() == l,
        forall|t: int| 0 <= t < l ==> (#[trigger] ys@[t]).wf(),
    ensures
        res is None <==> !bit && row_degenerate(l as nat, precom_view(precom@), ys@, k as int),
        res matches Some((sop_row, suop_row)) ==> row_made(sop_row@, suop_row@, bit, l as nat, precom_view(precom@), m_cis@, ys@, k as int),
{
    let ghost pv = precom_view(precom@);
    let mut sop_row: Vec<SopUnitIn> = Vec::new();
    let mut suop_row: Vec<SuopUnitIn> = Vec::new();
    let mut t: usize = 0;
    while t < l
        invariant
            t <= l,
            pv == precom_view(precom@),
            precom@.len() >= l,
            forall|u: int| 0 <= u < l ==> k < (#[trigger] precom@[u])@.len() && precom@[u]@[k as int].wf(),
            m_cis@.len() >= l,
            forall|u: int| 0 <= u < l ==> k < (#[trigger] m_cis@[u])@.len() && m_cis@[u]@[k as int].wf(),
            ys@.len() == l,
            forall|u: int| 0 <= u < l ==> (#[trigger] ys@[u]).wf(),
            bit ==> sop_row@.len() == t && suop_row@.len() == 0,
            !bit ==> sop_row@.len() == 0 && suop_row@.len() == t,
            bit ==> forall|u: int| 0 <= u < t ==> sop_unit_made(#[trigger] sop_row@[u], pv, k as int, u),
            !bit ==> forall|u: int| 0 <= u < t ==> suop_unit_made(#[trigger] suop_row@[u], pv, m_cis@[u]@[k as int], ys@[u].value(), k as int, u),
            !bit ==> forall|u: int| 0 <= u < t ==> !#[trigger] suop_unit_degenerate(pv, ys@[u].value(), k as int, u),
        decreases l - t,
    {
        proof {
            assert(pv[t as int] == precom@[t as int]@);
        }
        if bit {
            let pre = &precom[t][k];
            let r2 = pre.r2.copy();
            sop_row.push(SopUnitIn { i: k, j: t + 1, ri: pre.ri, rho: (pre.r1, r2) });
        } else {
            let si = match in_si(precom, k, t + 1, &ys[t]) {
                Some(si) => si,
                None => {
                    assert(suop_unit_degenerate(pv, ys@[t as int].value(), k as int, t as int));
                    return None;
                },
            };
            let ci = m_cis[t][k].copy();
            suop_row.push(SuopUnitIn { i: k, j: t + 1, si, ci });
        }
        t = t + 1;
    }
    Some((sop_row, suop_row))
}

/// The opened and unopened units of all positions below `gamma`, row by
/// row; `None` where an unopened unit cannot be made.
fn in_units(
    gamma: usize,
    l: usize,
    precom: &Vec<Vec<PreComp>>,
    m_cis: &Vec<Vec<WESCiphertext>>,
    bits: &Vec<bool>,
    ys: &Vec<ChainScalar>,
) -> (res: Option<(Vec<Vec<SopUnitIn>>, Vec<Vec<SuopUnitIn>>)>)
    requires
        gamma <= 256,
        bits@.len() == 256,
        precom_ok(precom_view(precom@), l as nat, gamma as nat),
        m_cis@.len() >= l,
        forall|t: int| 0 <= t < l ==> (#[trigger] m_cis@[t])@.len() >= gamma,
        forall|t: int, k: int| 0 <= t < l && 0 <= k < gamma ==> (#[trigger] m_cis@[t]@[k]).wf(),
        ys@.len() == l,
        forall|t: int| 0 <= t < l ==> (#[trigger] ys@[t]).wf(),
    ensures
        res is None <==> exists|k: int| 0 <= k < gamma && !bits@[k] && #[trigger] row_degenerate(l as nat, precom_view(precom@), ys@, k),
        res matches Some((sop, suop)) ==> {
            &&& sop@.len() == gamma
            &&& suop@.len() == gamma
            &&& forall|k: int| 0 <= k < gamma ==> #[trigger] row_made(sop@[k]@, suop@[k]@, bits@[k], l as nat, precom_view(precom@), m_cis@, ys@, k)
        },
{
    let ghost pv = precom_view(precom@);
    let mut sop: Vec<Vec<SopUnitIn>> = Vec::new();
    let mut suop: Vec<Vec<SuopUnitIn>> = Vec::new();
    let mut k: usize = 0;
    while k < gamma
        invariant
            k <= gamma,
            gamma <= 256,
            bits@.len() == 256,
            pv == precom_view(precom@),
            precom_ok(pv, l as nat, gamma as nat),
            m_cis@.len() >= l,
            forall|t: int| 0 <= t < l ==> (#[trigger] m_cis@[t])@.len() >= gamma,
            forall|t: int, k2: int| 0 <= t < l && 0 <= k2 < gamma ==> (#[trigger] m_cis@[t]@[k2]).wf(),
            ys@.len() == l,
            forall|t: int| 0 <= t < l ==> (#[trigger] ys@[t]).wf(),
            sop@.len() == k,
            suop@.len() == k,
            forall|k2: int| 0 <= k2 < k ==> #[trigger] row_made(sop@[k2]@, suop@[k2]@, bits@[k2], l as nat, pv, m_cis@, ys@, k2),
            forall|k2: int| 0 <= k2 < k && !bits@[k2] ==> !#[trigger] row_degenerate(l as nat, pv, ys@, k2),
        decreases gamma - k,
    {
        proof {
            assert forall|t: int| 0 <= t < l implies k < (#[trigger] precom@[t])@.len() && precom@[t]@[k as int].wf() by {
                assert(pv[t] == precom@[t]@);
                assert(pv[t][k as int] == precom@[t]@[k as int]);
            }
            assert forall|t: int| 0 <= t < l implies k < (#[trigger] m_cis@[t])@.len() && m_cis@[t]@[k as int].wf() by {
                assert(m_cis@[t]@[k as int].wf());
            }
        }
        match in_units_row(l, k, bits[k], precom, m_cis, ys) {
            Some((sop_row, suop_row)) => {
                sop.push(sop_row);
                suop.push(suop_row);
                proof {
                    assert(sop@[k as int]@ == sop_row@);
                    assert(suop@[k as int]@ == suop_row@);
                }
            },
            None => {
                return None;
            },
        }
        k = k + 1;
    }
    Some((sop, suop))
}

impl CVESCiphertextIn {
    /// The challenge bits of the cut-and-choose proof.
    #[verifier::opaque]
    pub open spec fn bits(&self) -> Seq<bool> {
        bits_of(sha256_digest(challenge_data_in(
            self.m_cis@.map_values(|row: Vec<WESCiphertext>| row@),
            self.m_ri_pub@.map_values(|row: Vec<ChainPoint>| row@),
            seq![self.c_omega@],
            self.x@,
            seq![self.y_pub@],
            seq![self.sigma_tilde@],
        )))
    }
}

/// What `enc_cs_from_precom_with` makes: `c` encrypts the witness of each
/// state `i` (from 1) for the transition from the initial state of witness
/// `w[0]`, under the oracle key `pk` and the first `i` attestations, with the
/// precomputations `precom`, the pads `ys` and the pre-signature nonces `ks`
/// of the key pair `kp` on the payments `tx`.
pub open spec fn in_made(
    c: CVESCiphertextIn,
    gamma: nat,
    pk: G1Point,
    w: Seq<ChainScalar>,
    m: Seq<Seq<char>>,
    kp: SchnorrPair,
    tx: Seq<Seq<char>>,
    pv: Seq<Seq<PreComp>>,
    ys: Seq<ChainScalar>,
    ks: Seq<ChainScalar>,
) -> bool {
    let l = tx.len();
    let bits = c.bits();
    &&& c.m_cis@.len() == l
    &&& c.m_ri_pub@.len() == l
    &&& forall|i: int| #![trigger c.m_cis@[i]] #![trigger c.m_ri_pub@[i]] 0 <= i < l ==> c.m_cis@[i]@.len() == gamma && c.m_ri_pub@[i]@.len() == gamma
    &&& forall|i: int, j: int| 0 <= i < l && 0 <= j < gamma ==> cell_made(
        #[trigger] c.m_cis@[i]@[j],
        pv[i][j],
        prefix_log(pk.bytes@, m, i + 1),
    )
    &&& forall|i: int, j: int| 0 <= i < l && 0 <= j < gamma ==> (#[trigger] c.m_ri_pub@[i]@[j]) == pv[i][j].ri_pub
    &&& c.x@.len() == w.len()
    &&& forall|t: int| 0 <= t < w.len() ==> is_multiple((#[trigger] c.x@[t]).bytes@, w[t].value())
    &&& c.y_pub@.len() == l
    &&& c.sigma_tilde@.len() == l
    &&& c.c_omega@.len() == l
    &&& forall|t: int| 0 <= t < l ==> {
        let yt = (ys[t].value() + w[0].value()) % secp_order();
        &&& is_multiple((#[trigger] c.y_pub@[t]).bytes@, ys[t].value())
        &&& c.sigma_tilde@[t].wf()
        &&& pre_sign_spec(kp.secret(), kp.public(), tx[t], yt, ks[t].value()) == Some(c.sigma_tilde@[t].values())
        &&& c.c_omega@[t].wf()
        &&& c.c_omega@[t].value() == (yt + w[t + 1].value()) % secp_order()
        &&& !in_state_degenerate(w, kp, tx, ys, ks, t + 1)
    }
    &&& c.sop@.len() == gamma
    &&& c.suop@.len() == gamma
    &&& forall|k: int| 0 <= k < gamma ==> #[trigger] row_made(c.sop@[k]@, c.suop@[k]@, bits[k], l, pv, c.m_cis@, ys, k)
    &&& strings_view(c.m@) == m
    &&& c.pk == pk
    &&& strings_view(c.tx@) == tx
    &&& c.vk.bytes@ == kp.public()
}

/// What encrypting with the pads `ys` and the nonces `ks` returns:
/// `ZeroScalar` where a state's pad or pre-signature meets a zero, or where
/// an unopened unit does; a ciphertext made as `in_made` says where none
/// does.
pub open spec fn in_enc_result(
    res: Result<CVESCiphertextIn, CvesError>,
    gamma: nat,
    pk: G1Point,
    w: Seq<ChainScalar>,
    m: Seq<String>,
    kp: SchnorrPair,
    tx: Seq<String>,
    pv: Seq<Seq<PreComp>>,
    ys: Seq<ChainScalar>,
    ks: Seq<ChainScalar>,
) -> bool {
    let state_deg = exists|i: int| 1 <= i <= tx.len() && in_state_degenerate(w, kp, strings_view(tx), ys, ks, i);
    let row_deg = exists|k: int| 0 <= k < gamma && #[trigger] row_degenerate(tx.len(), pv, ys, k);
    &&& res matches Ok(c) ==> in_made(c, gamma, pk, w, strings_view(m), kp, strings_view(tx), pv, ys, ks)
    &&& res is Err ==> res == Err::<CVESCiphertextIn, CvesError>(CvesError::ZeroScalar)
    &&& res == Err::<CVESCiphertextIn, CvesError>(CvesError::ZeroScalar) ==> state_deg || row_deg
    &&& state_deg ==> res == Err::<CVESCiphertextIn, CvesError>(CvesError::ZeroScalar)
    &&& !state_deg && !row_deg ==> res is Ok
}

impl CVESCiphertextIn {
    /// Encrypts the witness of each state with the precomputations, the pads
    /// `ys` and the pre-signature nonces `ks`.
    pub fn enc_cs_from_precom_with(
        gamma: usize,
        pk: G1Point,
        w: Vec<ChainScalar>,
        m: Vec<String>,
        a_kp: SchnorrPair,
        tx: Vec<String>,
        precom: &Vec<Vec<PreComp>>,
        ys: &Vec<ChainScalar>,
        ks: &Vec<ChainScalar>,
    ) -> (res: Result<CVESCiphertextIn, CvesError>)
        requires
            gamma <= 256,
            pk.wf(),
            a_kp.wf(),
            m@.len() == tx@.len(),
            w@.len() == tx@.len() + 1,
            forall|t: int| 0 <= t < w@.len() ==> (#[trigger] w@[t]).wf(),
            precom_ok(precom_view(precom@), tx@.len(), gamma as nat),
            ys@.len() == tx@.len(),
            ks@.len() == tx@.len(),
            forall|t: int| 0 <= t < tx@.len() ==> (#[trigger] ys@[t]).wf() && ks@[t].wf() && ks@[t].value() != 0,
        ensures
            in_enc_result(res, gamma as nat, pk, w@, m@, a_kp, tx@, precom_view(precom@), ys@, ks@),
    {
        let vk = a_kp.public_key();
        let l_tx = tx.len();
        let (m_cis, m_ri_pub) = in_rows(gamma, l_tx, &pk, &m, precom);
        let (y_pub, sigma_tilde, c_omega) = match in_pads(l_tx, &w, &a_kp, &tx, ys, ks) {
            Some(p) => p,
            None => return Err(CvesError::ZeroScalar),
        };
        let x = statements(&w);
        let co_rows: Vec<Vec<ChainScalar>> = vec![c_omega.clone()];
        let yp_rows: Vec<Vec<ChainPoint>> = vec![y_pub.clone()];
        let st_rows: Vec<Vec<SchnorrPreSig>> = vec![sigma_tilde.clone()];
        proof {
            assert(co_rows@.map_values(|row: Vec<ChainScalar>| row@) =~= seq![c_omega@]);
            assert(yp_rows@.map_values(|row: Vec<ChainPoint>| row@) =~= seq![y_pub@]);
            assert(st_rows@.map_values(|row: Vec<SchnorrPreSig>| row@) =~= seq![sigma_tilde@]);
        }
        let bits = hash_to_bits_in(&m_cis, &m_ri_pub, &co_rows, &x, &yp_rows, &st_rows);
        let (sop, suop) = match in_units(gamma, l_tx, precom, &m_cis, &bits, ys) {
            Some(u) => u,
            None => return Err(CvesError::ZeroScalar),
        };
        let c = CVESCiphertextIn { m_cis, c_omega, sop, suop, m_ri_pub, x, y_pub, sigma_tilde, m, pk, tx, vk };
        assert(c.bits() == bits@) by {
            reveal(CVESCiphertextIn::bits);
        }
        assert forall|t: int| #![trigger ys@[t]] 0 <= t < l_tx implies !in_state_degenerate(w@, a_kp, strings_view(tx@), ys@, ks@, t + 1) by {
            assert(1 <= t + 1 <= l_tx);
        }
        assert(forall|k: int| 0 <= k < gamma ==> #[trigger] row_made(c.sop@[k]@, c.suop@[k]@, c.bits()[k], l_tx as nat, precom_view(precom@), c.m_cis@, ys@, k));
        assert(strings_view(c.tx@) == strings_view(tx@));
        Ok(c)
    }

    /// Encrypts the witness of each state with the precomputations and with
    /// a fresh pad and pre-signature nonce for each state.
    pub fn enc_cs_from_precom(
        gamma: usize,
        pk: G1Point,
        w: Vec<ChainScalar>,
        m: Vec<String>,
        a_kp: SchnorrPair,
        tx: Vec<String>,
        precom: &Vec<Vec<PreComp>>,
    ) -> (res: Result<CVESCiphertextIn, CvesError>)
        requires
            gamma <= 256,
            pk.wf(),
            a_kp.wf(),
            m@.len() == tx@.len(),
            w@.len() == tx@.len() + 1,
            forall|t: int| 0 <= t < w@.len() ==> (#[trigger] w@[t]).wf(),
            precom_ok(precom_view(precom@), tx@.len(), gamma as nat),
        ensures
            exists|ys: Seq<ChainScalar>, ks: Seq<ChainScalar>| {
                &&& ys.len() == tx@.len()
                &&& ks.len() == tx@.len()
                &&& forall|t: int| 0 <= t < tx@.len() ==> (#[trigger] ys[t]).wf() && ys[t].value() != 0 && ks[t].wf() && ks[t].value() != 0
                &&& in_enc_result(res, gamma as nat, pk, w@, m@, a_kp, tx@, precom_view(precom@), ys, ks)
            },
    {
        let n: usize = tx.len();
        let ys = sample_rand_chain_scalars(n);
        let ks = sample_rand_chain_scalars(n);
        let res = CVESCiphertextIn::enc_cs_from_precom_with(gamma, pk, w, m, a_kp, tx, precom, &ys, &ks);
        assert(forall|t: int| 0 <= t < n ==> (#[trigger] ys@[t]).wf() && ys@[t].value() != 0 && ks@[t].wf() && ks@[t].value() != 0);
        res
    }
}

/// For each state `t + 1` of the first `l`, the element that pairs the key
/// with the aggregate hash of the first `t + 1` attestations.
pub(crate) fn prefix_elements(pk: &G1Point, m: &Vec<String>, l: usize) -> (pairs: Vec<GtElem>)
    requires
        pk.wf(),
        l <= m@.len(),
    ensures
        pairs@.len() == l,
        forall|t: int| 0 <= t < l ==> gt_only((#[trigger] pairs@[t])@, prefix_log(pk.bytes@, strings_view(m@), t + 1))
            && pairs@[t].wf(),
{
    let mut pairs: Vec<GtElem> = Vec::new();
    let mut t: usize = 0;
    while t < l
        invariant
            pk.wf(),
            l <= m@.len(),
            t <= l,
            pairs@.len() == t,
            forall|u: int| 0 <= u < t ==> gt_only((#[trigger] pairs@[u])@, prefix_log(pk.bytes@, strings_view(m@), u + 1))
                && pairs@[u].wf(),
        decreases l - t,
    {
        pairs.push(prefix_message_element(pk, m, t + 1));
        t = t + 1;
    }
    pairs
}

/// The sum of the logarithms of the commitments at position `k` that the
/// unopened unit of state `j` is checked against besides the pad.
pub open spec fn pub_acc(rows: Seq<Seq<ChainPoint>>, k: int, j: int) -> nat
    decreases j,
{
    if j <= 2 {
        chain_log(rows[0][k].bytes@)
    } else {
        (pub_acc(rows, k, j - 1) + chain_log(rows[j - 2][k].bytes@)) % secp_order()
    }
}

/// No partial sum of `pub_acc` after the first is zero.
pub open spec fn pub_acc_ok(rows: Seq<Seq<ChainPoint>>, k: int, j: int) -> bool
    decreases j,
{
    if j <= 2 {
        true
    } else {
        pub_acc_ok(rows, k, j - 1) && pub_acc(rows, k, j) != 0
    }
}

impl CVESCiphertextIn {
    /// The rows of commitments as sequences.
    pub open spec fn ri_pub_rows(&self) -> Seq<Seq<ChainPoint>> {
        self.m_ri_pub@.map_values(|row: Vec<ChainPoint>| row@)
    }

    /// Every part is canonical or a group element, the lists cover the
    /// states of the payments `tx`, and each unit's position and state index
    /// the ciphertexts and commitments.
    pub open spec fn wf(&self) -> bool {
        let l = self.tx@.len();
        &&& self.m@.len() >= l
        &&& self.c_omega@.len() >= l
        &&& self.y_pub@.len() >= l
        &&& self.sigma_tilde@.len() >= l
        &&& self.x@.len() > l
        &&& self.m_cis@.len() >= l
        &&& self.m_ri_pub@.len() >= l
        &&& self.pk.wf()
        &&& self.vk.wf()
        &&& forall|t: int| 0 <= t < self.c_omega@.len() ==> (#[trigger] self.c_omega@[t]).wf()
        &&& forall|t: int| 0 <= t < self.x@.len() ==> (#[trigger] self.x@[t]).wf()
        &&& forall|t: int| 0 <= t < self.y_pub@.len() ==> (#[trigger] self.y_pub@[t]).wf()
        &&& forall|t: int| 0 <= t < self.sigma_tilde@.len() ==> (#[trigger] self.sigma_tilde@[t]).wf()
        &&& forall|i: int, j: int| 0 <= i < self.m_cis@.len() && 0 <= j < self.m_cis@[i]@.len() ==> (#[trigger] self.m_cis@[i]@[j]).wf()
        &&& forall|i: int, j: int| 0 <= i < self.m_ri_pub@.len() && 0 <= j < self.m_ri_pub@[i]@.len() ==> (#[trigger] self.m_ri_pub@[i]@[j]).wf()
        &&& forall|k: int, t: int| 0 <= k < self.sop@.len() && 0 <= t < self.sop@[k]@.len() ==> {
            let u = #[trigger] self.sop@[k]@[t];
            &&& 1 <= u.j <= l
            &&& u.i < 256
            &&& u.i < self.m_cis@[u.j - 1]@.len()
            &&& u.ri.wf()
            &&& u.rho.0.wf()
            &&& u.rho.1.wf()
        }
        &&& forall|k: int, t: int| 0 <= k < self.suop@.len() && 0 <= t < self.suop@[k]@.len() ==> {
            let u = #[trigger] self.suop@[k]@[t];
            &&& 1 <= u.j <= l
            &&& u.i < 256
            &&& forall|r: int| 0 <= r < u.j ==> u.i < (#[trigger] self.m_ri_pub@[r])@.len()
            &&& u.si.wf()
            &&& u.ci.wf()
        }
    }

    /// The one-time pad of state `t + 1` matches the statements:
    /// `c_omega G = X_0 + Y + X_(t+1)`, partial sums not zero.
    pub open spec fn state_enc_ok(&self, t: int) -> bool {
        let lx = chain_log(self.x@[0].bytes@);
        let lw = chain_log(self.x@[t + 1].bytes@);
        let ly = chain_log(self.y_pub@[t].bytes@);
        let s1 = (lx + ly) % secp_order();
        &&& s1 != 0
        &&& (s1 + lw) % secp_order() != 0
        &&& self.c_omega@[t].value() == (s1 + lw) % secp_order()
    }

    /// The pre-signature of state `t + 1` verifies for `Y + X_0`.
    pub open spec fn state_presig_ok(&self, t: int) -> bool {
        let lx = chain_log(self.x@[0].bytes@);
        let ly = chain_log(self.y_pub@[t].bytes@);
        let v = (ly + lx) % secp_order();
        &&& v != 0
        &&& pre_verify_spec(self.vk.bytes@, self.tx@[t]@, self.sigma_tilde@[t].s.value(), self.sigma_tilde@[t].r.value(), v)
    }

    /// Every state before `n` checks out.
    pub open spec fn states_ok_upto(&self, n: int) -> bool {
        forall|t: int| 0 <= t < n ==> #[trigger] self.state_enc_ok(t) && self.state_presig_ok(t)
    }

    /// The opened unit `u` is at a set bit and its secret and coins give its
    /// ciphertext.
    pub open spec fn sop_unit_ok(&self, u: SopUnitIn) -> bool {
        &&& self.bits()[u.i as int]
        &&& self.m_cis@[u.j - 1]@[u.i as int].encrypts(
            prefix_log(self.pk.bytes@, strings_view(self.m@), u.j as int),
            u.ri.bytes@,
            u.rho.0.value(),
            u.rho.1@,
        )
    }

    /// The unopened unit `u` is at a clear bit and its shifted secret is the
    /// logarithm of the pad of its state plus the commitments it sums.
    pub open spec fn suop_unit_ok(&self, u: SuopUnitIn) -> bool {
        let v = (chain_log(self.y_pub@[u.j - 1].bytes@) + pub_acc(self.ri_pub_rows(), u.i as int, u.j as int)) % secp_order();
        &&& !self.bits()[u.i as int]
        &&& pub_acc_ok(self.ri_pub_rows(), u.i as int, u.j as int)
        &&& v != 0
        &&& u.si.value() == v
    }

    /// Every unit of the cut-and-choose proof checks out.
    pub open spec fn cut_and_choose_ok(&self) -> bool {
        &&& forall|k: int, t: int| 0 <= k < self.sop@.len() && 0 <= t < self.sop@[k]@.len() ==> self.sop_unit_ok(#[trigger] self.sop@[k]@[t])
        &&& forall|k: int, t: int| 0 <= k < self.suop@.len() && 0 <= t < self.suop@[k]@.len() ==> self.suop_unit_ok(#[trigger] self.suop@[k]@[t])
    }
}

impl CVESCiphertextIn {
    /// Verifies the ciphertext: for each state, the one-time pad and the
    /// pre-signature under `vk` on its payment; then the cut-and-choose proof
    /// against `pk` and the attestations. The first state that fails gives
    /// the error.
    pub fn verify(&self) -> (res: Result<(), CvesError>)
        requires
            self.wf(),
        ensures
            res is Ok <==> self.states_ok_upto(self.tx@.len() as int) && self.cut_and_choose_ok(),
            res is Ok ==> forall|k: int, t: int| 0 <= k < self.sop@.len() && 0 <= t < self.sop@[k]@.len() ==> {
                let u = #[trigger] self.sop@[k]@[t];
                &&& self.bits()[u.i as int]
                &&& self.m_cis@[u.j - 1]@[u.i as int].encrypts(
                    (g1_log(self.pk.bytes@) * hash_sum(strings_view(self.m@).take(u.j as int))) % bls_order(),
                    u.ri.bytes@, u.rho.0.value(), u.rho.1@)
            },
            res == Err::<(), CvesError>(CvesError::InvalidEncryption) <==> exists|t: int|
                0 <= t < self.tx@.len() && self.states_ok_upto(t) && !#[trigger] self.state_enc_ok(t),
            res == Err::<(), CvesError>(CvesError::InvalidPresignature) <==> exists|t: int|
                0 <= t < self.tx@.len() && self.states_ok_upto(t) && self.state_enc_ok(t) && !#[trigger] self.state_presig_ok(t),
            res == Err::<(), CvesError>(CvesError::InvalidCutAndChoose) <==> self.states_ok_upto(self.tx@.len() as int)
                && !self.cut_and_choose_ok(),
    {
        let l_tx = self.tx.len();
        let co_rows: Vec<Vec<ChainScalar>> = vec![self.c_omega.clone()];
        let yp_rows: Vec<Vec<ChainPoint>> = vec![self.y_pub.clone()];
        let st_rows: Vec<Vec<SchnorrPreSig>> = vec![self.sigma_tilde.clone()];
        proof {
            assert(co_rows@.map_values(|row: Vec<ChainScalar>| row@) =~= seq![self.c_omega@]);
            assert(yp_rows@.map_values(|row: Vec<ChainPoint>| row@) =~= seq![self.y_pub@]);
            assert(st_rows@.map_values(|row: Vec<SchnorrPreSig>| row@) =~= seq![self.sigma_tilde@]);
        }
        let bits = hash_to_bits_in(&self.m_cis, &self.m_ri_pub, &co_rows, &self.x, &yp_rows, &st_rows);
        assert(bits@ == self.bits()) by {
            reveal(CVESCiphertextIn::bits);
        }
        let mut t: usize = 0;
        while t < l_tx
            invariant
                self.wf(),
                l_tx == self.tx@.len(),
                t <= l_tx,
                self.states_ok_upto(t as int),
            decreases l_tx - t,
        {
            match self.check_state(t) {
                Ok(()) => {},
                Err(e) => {
                    proof {
                        assert(!self.states_ok_upto(l_tx as int));
                    }
                    return Err(e);
                },
            }
            t = t + 1;
        }
        let pairs = prefix_elements(&self.pk, &self.m, l_tx);
        if !self.check_units(&bits, &pairs) {
            return Err(CvesError::InvalidCutAndChoose);
        }
        proof {
            lemma_in_verified_opened(*self);
        }
        Ok(())
    }

    /// Checks the one-time pad and the pre-signature of state `t + 1`.
    fn check_state(&self, t: usize) -> (res: Result<(), CvesError>)
        requires
            self.wf(),
            t < self.tx@.len(),
        ensures
            res is Ok <==> self.state_enc_ok(t as int) && self.state_presig_ok(t as int),
            res == Err::<(), CvesError>(CvesError::InvalidEncryption) <==> !self.state_enc_ok(t as int),
            res == Err::<(), CvesError>(CvesError::InvalidPresignature) <==> self.state_enc_ok(t as int) && !self.state_presig_ok(t as int),
    {
        let n_x: usize = self.x.len();
        assert(t + 1 < n_x);
        let xa = &self.x[0];
        let xw = &self.x[t + 1];
        let y1 = &self.y_pub[t];
        let gc_omega = chain_base_mul(&self.c_omega[t]);
        let check = chain_point_add(xa, y1);
        let ghost s1 = (chain_log(xa.bytes@) + chain_log(y1.bytes@)) % secp_order();
        proof {
            lemma_chain_only(check.bytes@, s1, check.bytes@, s1);
        }
        if check.is_zero() {
            return Err(CvesError::InvalidEncryption);
        }
        let check = chain_point_add(&check, xw);
        let ghost s2 = (s1 + chain_log(xw.bytes@)) % secp_order();
        proof {
            lemma_chain_only(check.bytes@, s2, gc_omega.bytes@, self.c_omega@[t as int].value());
        }
        if check.is_zero() {
            return Err(CvesError::InvalidEncryption);
        }
        if !gc_omega.equals(&check) {
            return Err(CvesError::InvalidEncryption);
        }
        let y_tilde_pub = chain_point_add(y1, xa);
        let ghost v = (chain_log(y1.bytes@) + chain_log(xa.bytes@)) % secp_order();
        proof {
            lemma_chain_only(y_tilde_pub.bytes@, v, y_tilde_pub.bytes@, v);
        }
        if y_tilde_pub.is_zero() {
            return Err(CvesError::InvalidPresignature);
        }
        if !pre_verify(self.vk, self.tx[t].as_str(), &self.sigma_tilde[t], &y_tilde_pub) {
            return Err(CvesError::InvalidPresignature);
        }
        Ok(())
    }

    /// Checks every unit of the cut-and-choose proof.
    fn check_units(&self, bits: &Vec<bool>, pairs: &Vec<GtElem>) -> (ok: bool)
        requires
            self.wf(),
            bits@ == self.bits(),
            bits@.len() == 256,
            pairs@.len() == self.tx@.len(),
            forall|t: int| 0 <= t < self.tx@.len() ==> gt_only((#[trigger] pairs@[t])@, prefix_log(self.pk.bytes@, strings_view(self.m@), t + 1))
                && pairs@[t].wf(),
        ensures
            ok == self.cut_and_choose_ok(),
    {
        let mut k: usize = 0;
        while k < self.sop.len()
            invariant
                self.wf(),
                bits@ == self.bits(),
                bits@.len() == 256,
                pairs@.len() == self.tx@.len(),
                forall|t: int| 0 <= t < self.tx@.len() ==> gt_only((#[trigger] pairs@[t])@, prefix_log(self.pk.bytes@, strings_view(self.m@), t + 1))
                    && pairs@[t].wf(),
                k <= self.sop@.len(),
                forall|k2: int, t: int| 0 <= k2 < k && 0 <= t < self.sop@[k2]@.len() ==> self.sop_unit_ok(#[trigger] self.sop@[k2]@[t]),
            decreases self.sop@.len() - k,
        {
            let mut t: usize = 0;
            while t < self.sop[k].len()
                invariant
                    self.wf(),
                    bits@ == self.bits(),
                    bits@.len() == 256,
                    pairs@.len() == self.tx@.len(),
                    forall|t2: int| 0 <= t2 < self.tx@.len() ==> gt_only((#[trigger] pairs@[t2])@, prefix_log(self.pk.bytes@, strings_view(self.m@), t2 + 1))
                        && pairs@[t2].wf(),
                    k < self.sop@.len(),
                    t <= self.sop@[k as int]@.len(),
                    forall|k2: int, t2: int| 0 <= k2 < k && 0 <= t2 < self.sop@[k2]@.len() ==> self.sop_unit_ok(#[trigger] self.sop@[k2]@[t2]),
                    forall|t2: int| 0 <= t2 < t ==> self.sop_unit_ok(#[trigger] self.sop@[k as int]@[t2]),
                decreases self.sop@[k as int]@.len() - t,
            {
                if !self.check_sop_unit(bits, pairs, &self.sop[k][t]) {
                    return false;
                }
                t = t + 1;
            }
            k = k + 1;
        }
        let mut k: usize = 0;
        while k < self.suop.len()
            invariant
                self.wf(),
                bits@ == self.bits(),
                bits@.len() == 256,
                k <= self.suop@.len(),
                forall|k2: int, t: int| 0 <= k2 < self.sop@.len() && 0 <= t < self.sop@[k2]@.len() ==> self.sop_unit_ok(#[trigger] self.sop@[k2]@[t]),
                forall|k2: int, t: int| 0 <= k2 < k && 0 <= t < self.suop@[k2]@.len() ==> self.suop_unit_ok(#[trigger] self.suop@[k2]@[t]),
            decreases self.suop@.len() - k,
        {
            let mut t: usize = 0;
            while t < self.suop[k].len()
                invariant
                    self.wf(),
                    bits@ == self.bits(),
                    bits@.len() == 256,
                    k < self.suop@.len(),
                    t <= self.suop@[k as int]@.len(),
                    forall|k2: int, t2: int| 0 <= k2 < self.sop@.len() && 0 <= t2 < self.sop@[k2]@.len() ==> self.sop_unit_ok(#[trigger] self.sop@[k2]@[t2]),
                    forall|k2: int, t2: int| 0 <= k2 < k && 0 <= t2 < self.suop@[k2]@.len() ==> self.suop_unit_ok(#[trigger] self.suop@[k2]@[t2]),
                    forall|t2: int| 0 <= t2 < t ==> self.suop_unit_ok(#[trigger] self.suop@[k as int]@[t2]),
                decreases self.suop@[k as int]@.len() - t,
            {
                if !self.check_suop_unit(bits, &self.suop[k][t]) {
                    return false;
                }
                t = t + 1;
            }
            k = k + 1;
        }
        true
    }

    /// Checks an opened unit.
    fn check_sop_unit(&self, bits: &Vec<bool>, pairs: &Vec<GtElem>, u: &SopUnitIn) -> (ok: bool)
        requires
            self.wf(),
            bits@ == self.bits(),
            bits@.len() == 256,
            pairs@.len() == self.tx@.len(),
            forall|t: int| 0 <= t < self.tx@.len() ==> gt_only((#[trigger] pairs@[t])@, prefix_log(self.pk.bytes@, strings_view(self.m@), t + 1))
                && pairs@[t].wf(),
            1 <= u.j <= self.tx@.len(),
            u.i < 256,
            u.i < self.m_cis@[u.j - 1]@.len(),
            u.ri.wf(),
            u.rho.0.wf(),
            u.rho.1.wf(),
        ensures
            ok == self.sop_unit_ok(*u),
    {
        if !bits[u.i] {
            return false;
        }
        let my_pair = &pairs[u.j - 1];
        proof {
            crate::curve::lemma_gt_only(my_pair@, prefix_log(self.pk.bytes@, strings_view(self.m@), u.j as int), my_pair@, prefix_log(self.pk.bytes@, strings_view(self.m@), u.j as int));
        }
        let r = self.m_cis[u.j - 1][u.i].copy().reconstruct_vector_m(my_pair, u.ri, u.rho.0, &u.rho.1);
        r.is_ok()
    }

    /// Checks an unopened unit.
    fn check_suop_unit(&self, bits: &Vec<bool>, u: &SuopUnitIn) -> (ok: bool)
        requires
            self.wf(),
            bits@ == self.bits(),
            bits@.len() == 256,
            1 <= u.j <= self.tx@.len(),
            u.i < 256,
            forall|r: int| 0 <= r < u.j ==> u.i < (#[trigger] self.m_ri_pub@[r])@.len(),
            u.si.wf(),
        ensures
            ok == self.suop_unit_ok(*u),
    {
        if bits[u.i] {
            return false;
        }
        let ghost rows = self.ri_pub_rows();
        proof {
            assert(rows[0] == self.m_ri_pub@[0]@);
        }
        let gs = chain_base_mul(&u.si);
        let y_pub_i = &self.y_pub[u.j - 1];
        let mut ri_pub_acc = self.m_ri_pub[0][u.i];
        let mut idx: usize = 2;
        while idx < u.j
            invariant
                self.wf(),
                rows == self.ri_pub_rows(),
                2 <= idx,
                u.j > 2 ==> idx <= u.j,
                u.j <= 2 ==> idx == 2,
                1 <= u.j <= self.tx@.len(),
                forall|r: int| 0 <= r < u.j ==> u.i < (#[trigger] self.m_ri_pub@[r])@.len(),
                ri_pub_acc.wf(),
                is_multiple(ri_pub_acc.bytes@, pub_acc(rows, u.i as int, idx as int)),
                pub_acc_ok(rows, u.i as int, idx as int),
            decreases u.j - idx,
        {
            proof {
                assert(rows[idx - 1] == self.m_ri_pub@[idx - 1]@);
            }
            ri_pub_acc = chain_point_add(&ri_pub_acc, &self.m_ri_pub[idx - 1][u.i]);
            proof {
                lemma_chain_only(ri_pub_acc.bytes@, pub_acc(rows, u.i as int, idx + 1), ri_pub_acc.bytes@, pub_acc(rows, u.i as int, idx + 1));
            }
            if ri_pub_acc.is_zero() {
                proof {
                    if pub_acc_ok(rows, u.i as int, u.j as int) {
                        lemma_pub_acc_ok_mono(rows, u.i as int, (idx + 1) as int, u.j as int);
                    }
                }
                return false;
            }
            idx = idx + 1;
        }
        proof {
            if u.j <= 2 {
                assert(pub_acc(rows, u.i as int, u.j as int) == pub_acc(rows, u.i as int, 2));
            }
            lemma_chain_only(ri_pub_acc.bytes@, pub_acc(rows, u.i as int, u.j as int), ri_pub_acc.bytes@, pub_acc(rows, u.i as int, u.j as int));
        }
        let check = chain_point_add(y_pub_i, &ri_pub_acc);
        let ghost v = (chain_log(y_pub_i.bytes@) + pub_acc(rows, u.i as int, u.j as int)) % secp_order();
        proof {
            lemma_chain_only(check.bytes@, v, gs.bytes@, u.si.value());
        }
        if check.is_zero() {
            return false;
        }
        check.equals(&gs)
    }
}

/// The first unopened unit of state `state`, row by row, from unit `t` of
/// row `k` on.
pub open spec fn in_find(rows: Seq<Seq<SuopUnitIn>>, k: int, t: int, state: nat) -> Option<SuopUnitIn>
    decreases rows.len() - k, (if 0 <= k < rows.len() { rows[k].len() - t } else { 0 }),
{
    if k < 0 || k >= rows.len() {
        None
    } else if t < 0 || t >= rows[k].len() {
        in_find(rows, k + 1, 0, state)
    } else if rows[k][t].j == state {
        Some(rows[k][t])
    } else {
        in_find(rows, k, t + 1, state)
    }
}

/// What opening an unopened unit of ciphertext `ci` and shifted secret
/// `si` gives, with a signature of logarithm `sig_log`, the origin witness
/// `wa`, the one-time pad `c_omega` and the pre-signature of its
/// transition: the secret `c_omega - (y + w_a)` and the pre-signature
/// adapted with `y + w_a`, where `y = s_i - r_i`; `ZeroScalar` where one of
/// them is zero, `InvalidWitness` where the secret is not the logarithm of
/// the new state's statement `xw`.
pub open spec fn in_unit_outcome(ci: WESCiphertext, si: nat, sig_log: nat, wa: nat, c_omega: nat, presig: (nat, nat), xw: Seq<u8>)
    -> Result<(nat, (nat, nat)), CvesError>
{
    let r = wes_dec_spec(ci.c1.bytes@, ci.c2@, ci.c3@, sig_log);
    let y = sub_mod(si as int, r as int);
    let yt = (y + wa) % secp_order();
    let sec = sub_mod(c_omega as int, yt as int);
    let s2 = (presig.0 + yt) % secp_order();
    if r == 0 || y == 0 || yt == 0 || sec == 0 || s2 == 0 {
        Err(CvesError::ZeroScalar)
    } else if chain_point_enc(sec) != xw {
        Err(CvesError::InvalidWitness)
    } else {
        Ok((sec, (s2, presig.1)))
    }
}

impl CVESCiphertextIn {
    /// The rows of unopened units as sequences.
    pub open spec fn suop_rows(&self) -> Seq<Seq<SuopUnitIn>> {
        self.suop@.map_values(|row: Vec<SuopUnitIn>| row@)
    }

    /// What decrypting state `state` with a signature of logarithm `sig_log`
    /// and the origin witness `wa` gives: `WitnessMismatch` where `wa` is
    /// not the witness of the initial state; else the outcome of the first
    /// unopened unit of the state; `DecryptionFailed` where there is none.
    pub open spec fn dec_spec(&self, sig_log: nat, wa: nat, state: nat) -> Result<(nat, (nat, nat)), CvesError> {
        if chain_point_enc(wa) != self.x@[0].bytes@ {
            Err(CvesError::WitnessMismatch)
        } else {
            match in_find(self.suop_rows(), 0, 0, state) {
                None => Err(CvesError::DecryptionFailed),
                Some(u) => in_unit_outcome(
                    u.ci,
                    u.si.value(),
                    sig_log,
                    wa,
                    self.c_omega@[state - 1].value(),
                    self.sigma_tilde@[state - 1].values(),
                    self.x@[state as int].bytes@,
                ),
            }
        }
    }

    /// The row and the index of the first unopened unit of state `state`.
    pub fn find_unopened(&self, state: usize) -> (r: Option<(usize, usize)>)
        ensures
            r is None <==> in_find(self.suop_rows(), 0, 0, state as nat) is None,
            r matches Some((k, t)) ==> k < self.suop@.len() && t < self.suop@[k as int]@.len()
                && self.suop@[k as int]@[t as int].j == state
                && in_find(self.suop_rows(), 0, 0, state as nat) == Some(self.suop@[k as int]@[t as int]),
    {
        let ghost rows = self.suop_rows();
        let mut k: usize = 0;
        while k < self.suop.len()
            invariant
                rows == self.suop_rows(),
                k <= self.suop@.len(),
                in_find(rows, 0, 0, state as nat) == in_find(rows, k as int, 0, state as nat),
            decreases self.suop@.len() - k,
        {
            let mut t: usize = 0;
            while t < self.suop[k].len()
                invariant
                    rows == self.suop_rows(),
                    k < self.suop@.len(),
                    t <= self.suop@[k as int]@.len(),
                    in_find(rows, 0, 0, state as nat) == in_find(rows, k as int, t as int, state as nat),
                decreases self.suop@[k as int]@.len() - t,
            {
                proof {
                    assert(rows[k as int] == self.suop@[k as int]@);
                }
                if self.suop[k][t].j == state {
                    return Some((k, t));
                }
                t = t + 1;
            }
            proof {
                assert(rows[k as int] == self.suop@[k as int]@);
            }
            k = k + 1;
        }
        None
    }

    /// Opens the first unopened unit of state `state` (from 1) with the
    /// oracle's aggregate signature `sig` on the first `state` attestations
    /// and the witness `wa` of the initial state, where the state has an
    /// unopened unit, as `dec_spec` says: the secret recovered and the
    /// adapted payment signature, or the error met. Only for the first
    /// state is the secret the state's witness (`lemma_in_decrypts_first`).
    pub fn decrypt(&self, sig: G2Point, wa: ChainScalar, state: usize) -> (res: Result<(ChainScalar, SchnorrSig), CvesError>)
        requires
            self.wf(),
            sig.wf(),
            wa.wf(),
            1 <= state <= self.tx@.len(),
            chain_point_enc(wa.value()) == self.x@[0].bytes@,
            in_find(self.suop_rows(), 0, 0, state as nat) is Some,
        ensures
            dec_result_matches(res, self.dec_spec(g2_log(sig.bytes@), wa.value(), state as nat)),
    {
        match self.find_unopened(state) {
            Some((k, t)) => {
                let u = &self.suop[k][t];
                open_transition(&u.ci, &u.si, sig, &wa, &self.c_omega[state - 1], &self.sigma_tilde[state - 1], &self.x[state])
            },
            None => Err(CvesError::DecryptionFailed),
        }
    }

    /// Decrypts as `decrypt` does, after testing its conditions:
    /// `WitnessMismatch` where `wa` is not the witness of the initial state,
    /// `DecryptionFailed` where the state has no unopened unit.
    pub fn decrypt_checked(&self, sig: G2Point, wa: ChainScalar, state: usize)
        -> (res: Result<(ChainScalar, SchnorrSig), CvesError>)
        requires
            self.wf(),
            sig.wf(),
            wa.wf(),
            1 <= state <= self.tx@.len(),
        ensures
            dec_result_matches(res, self.dec_spec(g2_log(sig.bytes@), wa.value(), state as nat)),
    {
        let xa = chain_base_mul(&wa);
        if !xa.equals(&self.x[0]) {
            return Err(CvesError::WitnessMismatch);
        }
        if self.find_unopened(state).is_none() {
            return Err(CvesError::DecryptionFailed);
        }
        self.decrypt(sig, wa, state)
    }
}

/// Opens an unopened unit of ciphertext `ci` and shifted secret `si` for
/// the transition with one-time pad `c_omega` and pre-signature `presig`
/// to the state of statement `xw`.
pub(crate) fn open_transition(
    ci: &WESCiphertext,
    si: &ChainScalar,
    sig: G2Point,
    wa: &ChainScalar,
    c_omega: &ChainScalar,
    presig: &SchnorrPreSig,
    xw: &ChainPoint,
) -> (res: Result<(ChainScalar, SchnorrSig), CvesError>)
    requires
        ci.wf(),
        si.wf(),
        sig.wf(),
        wa.wf(),
        c_omega.wf(),
        presig.wf(),
    ensures
        dec_result_matches(res, in_unit_outcome(*ci, si.value(), g2_log(sig.bytes@), wa.value(), c_omega.value(), presig.values(), xw.bytes@)),
{
    let r = match ci.copy().decrypt(sig) {
        Some(r) => r,
        None => return Err(CvesError::ZeroScalar),
    };
    let y = chain_scalar_sub(si, &r);
    if y.is_zero() {
        return Err(CvesError::ZeroScalar);
    }
    let y_tilde = chain_scalar_add(&y, wa);
    if y_tilde.is_zero() {
        return Err(CvesError::ZeroScalar);
    }
    let sec = chain_scalar_sub(c_omega, &y_tilde);
    if sec.is_zero() {
        return Err(CvesError::ZeroScalar);
    }
    let sig_out = match adapt(presig, &y_tilde) {
        Some(s) => s,
        None => return Err(CvesError::ZeroScalar),
    };
    let gsec = chain_base_mul(&sec);
    if !gsec.equals(xw) {
        return Err(CvesError::InvalidWitness);
    }
    Ok((sec, sig_out))
}

/// `pub_acc_ok` of a later state implies it of an earlier one.
pub proof fn lemma_pub_acc_ok_mono(rows: Seq<Seq<ChainPoint>>, k: int, a: int, b: int)
    requires
        a <= b,
        pub_acc_ok(rows, k, b),
    ensures
        pub_acc_ok(rows, k, a),
    decreases b - a,
{
    if a < b {
        lemma_pub_acc_ok_mono(rows, k, a, b - 1);
    }
}

/// The conditions under which `in_made` describes an honest ciphertext: the
/// lists have their lengths, the witnesses, pads and nonces are canonical
/// and the precomputations honest.
pub open spec fn in_honest_inputs(
    gamma: nat,
    pk: G1Point,
    w: Seq<ChainScalar>,
    m: Seq<Seq<char>>,
    kp: SchnorrPair,
    tx: Seq<Seq<char>>,
    pv: Seq<Seq<PreComp>>,
    ys: Seq<ChainScalar>,
    ks: Seq<ChainScalar>,
) -> bool {
    &&& gamma <= 256
    &&& pk.wf()
    &&& kp.wf()
    &&& w.len() == tx.len() + 1
    &&& m.len() == tx.len()
    &&& ys.len() == tx.len()
    &&& ks.len() == tx.len()
    &&& forall|t: int| 0 <= t < w.len() ==> (#[trigger] w[t]).wf()
    &&& forall|t: int| 0 <= t < tx.len() ==> (#[trigger] ys[t]).wf() && ks[t].wf() && ks[t].value() != 0
    &&& precom_ok(pv, tx.len(), gamma)
    &&& forall|i: int, j: int| 0 <= i < tx.len() && 0 <= j < gamma ==> (#[trigger] pv[i][j]).honest()
}

/// The sum of the commitments that an unopened unit is checked against is
/// the sum of the secrets that it holds.
proof fn lemma_pub_acc_in_acc(rows: Seq<Seq<ChainPoint>>, pv: Seq<Seq<PreComp>>, k: int, j: int)
    requires
        1 <= j,
        forall|i: int| 0 <= i < j ==> 0 <= k < (#[trigger] rows[i]).len() && rows[i][k] == pv[i][k].ri_pub
            && pv[i][k].honest(),
    ensures
        pub_acc(rows, k, j) == in_acc(pv, k, j),
        pub_acc_ok(rows, k, j) == in_acc_ok(pv, k, j),
    decreases j,
{
    assert(rows[0][k] == pv[0][k].ri_pub && pv[0][k].honest());
    lemma_chain_only(rows[0][k].bytes@, pv[0][k].ri.value(), rows[0][k].bytes@, pv[0][k].ri.value());
    if j > 2 {
        lemma_pub_acc_in_acc(rows, pv, k, j - 1);
        assert(rows[j - 2][k] == pv[j - 2][k].ri_pub && pv[j - 2][k].honest());
        lemma_chain_only(rows[j - 2][k].bytes@, pv[j - 2][k].ri.value(), rows[j - 2][k].bytes@, pv[j - 2][k].ri.value());
    }
}

/// The opened units of honestly made rows index the ciphertexts.
proof fn lemma_in_sop_wf(c: CVESCiphertextIn, gamma: nat, l: nat, pv: Seq<Seq<PreComp>>, ys: Seq<ChainScalar>)
    requires
        gamma <= 256,
        c.m_cis@.len() == l,
        forall|i: int| #![trigger c.m_cis@[i]] #![trigger c.m_ri_pub@[i]] 0 <= i < l ==> c.m_cis@[i]@.len() == gamma && c.m_ri_pub@[i]@.len() == gamma,
        c.sop@.len() == gamma,
        forall|k: int| 0 <= k < gamma ==> #[trigger] row_made(c.sop@[k]@, c.suop@[k]@, c.bits()[k], l, pv, c.m_cis@, ys, k),
    ensures
        forall|k: int, t: int| 0 <= k < c.sop@.len() && 0 <= t < c.sop@[k]@.len() ==> {
            let u = #[trigger] c.sop@[k]@[t];
            &&& 1 <= u.j <= l
            &&& u.i < 256
            &&& u.i < c.m_cis@[u.j - 1]@.len()
            &&& u.ri.wf()
            &&& u.rho.0.wf()
            &&& u.rho.1.wf()
        },
{
    let bits = c.bits();
    assert forall|k: int, t: int| 0 <= k < c.sop@.len() && 0 <= t < c.sop@[k]@.len() implies {
        let u = #[trigger] c.sop@[k]@[t];
        &&& 1 <= u.j <= l
        &&& u.i < 256
        &&& u.i < c.m_cis@[u.j - 1]@.len()
        &&& u.ri.wf()
        &&& u.rho.0.wf()
        &&& u.rho.1.wf()
    } by {
        assert(row_made(c.sop@[k]@, c.suop@[k]@, bits[k], l, pv, c.m_cis@, ys, k));
        assert(sop_unit_made(c.sop@[k]@[t], pv, k, t));
    }
}

/// The unopened units of honestly made rows index the commitments.
proof fn lemma_in_suop_wf(c: CVESCiphertextIn, gamma: nat, l: nat, pv: Seq<Seq<PreComp>>, ys: Seq<ChainScalar>)
    requires
        gamma <= 256,
        c.m_ri_pub@.len() == l,
        forall|i: int| #![trigger c.m_cis@[i]] #![trigger c.m_ri_pub@[i]] 0 <= i < l ==> c.m_cis@[i]@.len() == gamma && c.m_ri_pub@[i]@.len() == gamma,
        c.suop@.len() == gamma,
        c.sop@.len() == gamma,
        forall|k: int| 0 <= k < gamma ==> #[trigger] row_made(c.sop@[k]@, c.suop@[k]@, c.bits()[k], l, pv, c.m_cis@, ys, k),
    ensures
        forall|k: int, t: int| 0 <= k < c.suop@.len() && 0 <= t < c.suop@[k]@.len() ==> {
            let u = #[trigger] c.suop@[k]@[t];
            &&& 1 <= u.j <= l
            &&& u.i < 256
            &&& forall|r: int| 0 <= r < u.j ==> u.i < (#[trigger] c.m_ri_pub@[r])@.len()
            &&& u.si.wf()
            &&& u.ci.wf()
        },
{
    let bits = c.bits();
    assert forall|k: int, t: int| 0 <= k < c.suop@.len() && 0 <= t < c.suop@[k]@.len() implies {
        let u = #[trigger] c.suop@[k]@[t];
        &&& 1 <= u.j <= l
        &&& u.i < 256
        &&& forall|r: int| 0 <= r < u.j ==> u.i < (#[trigger] c.m_ri_pub@[r])@.len()
        &&& u.si.wf()
        &&& u.ci.wf()
    } by {
        assert(row_made(c.sop@[k]@, c.suop@[k]@, bits[k], l, pv, c.m_cis@, ys, k));
        assert(suop_unit_made(c.suop@[k]@[t], pv, c.m_cis@[t]@[k], ys[t].value(), k, t));
    }
}

/// The points and scalars of an honestly made ciphertext are well formed.
proof fn lemma_in_parts_wf(
    c: CVESCiphertextIn, gamma: nat, pk: G1Point, w: Seq<ChainScalar>,
    kp: SchnorrPair, l: nat, pv: Seq<Seq<PreComp>>, ys: Seq<ChainScalar>,
)
    requires
        kp.wf(),
        c.vk.bytes@ == kp.public(),
        c.x@.len() == w.len(),
        forall|t: int| 0 <= t < w.len() ==> is_multiple((#[trigger] c.x@[t]).bytes@, w[t].value()),
        c.y_pub@.len() == l,
        forall|t: int| 0 <= t < l ==> is_multiple((#[trigger] c.y_pub@[t]).bytes@, ys[t].value()),
        c.m_ri_pub@.len() == l,
        forall|i: int| #![trigger c.m_cis@[i]] #![trigger c.m_ri_pub@[i]] 0 <= i < l ==> c.m_cis@[i]@.len() == gamma && c.m_ri_pub@[i]@.len() == gamma,
        forall|i: int, j: int| 0 <= i < l && 0 <= j < gamma ==> (#[trigger] c.m_ri_pub@[i]@[j]) == pv[i][j].ri_pub,
        forall|i: int, j: int| 0 <= i < l && 0 <= j < gamma ==> (#[trigger] pv[i][j]).honest(),
    ensures
        c.vk.wf(),
        forall|t: int| 0 <= t < c.x@.len() ==> (#[trigger] c.x@[t]).wf(),
        forall|t: int| 0 <= t < c.y_pub@.len() ==> (#[trigger] c.y_pub@[t]).wf(),
        forall|i: int, j: int| 0 <= i < c.m_ri_pub@.len() && 0 <= j < c.m_ri_pub@[i]@.len() ==> (#[trigger] c.m_ri_pub@[i]@[j]).wf(),
{
    assert(is_multiple(kp.public(), kp.secret()));
    assert forall|t: int| 0 <= t < c.x@.len() implies (#[trigger] c.x@[t]).wf() by {
        assert(is_multiple(c.x@[t].bytes@, w[t].value()));
    }
    assert forall|t: int| 0 <= t < c.y_pub@.len() implies (#[trigger] c.y_pub@[t]).wf() by {
        assert(is_multiple(c.y_pub@[t].bytes@, ys[t].value()));
    }
    assert forall|i: int, j: int| 0 <= i < c.m_ri_pub@.len() && 0 <= j < c.m_ri_pub@[i]@.len() implies (#[trigger] c.m_ri_pub@[i]@[j]).wf() by {
        assert(pv[i][j].honest());
        assert(is_multiple(c.m_ri_pub@[i]@[j].bytes@, pv[i][j].ri.value()));
    }
}

/// An honestly made ciphertext is well formed.
pub proof fn lemma_in_wf(
    c: CVESCiphertextIn, gamma: nat, pk: G1Point, w: Seq<ChainScalar>, m: Seq<Seq<char>>,
    kp: SchnorrPair, tx: Seq<Seq<char>>, pv: Seq<Seq<PreComp>>, ys: Seq<ChainScalar>, ks: Seq<ChainScalar>,
)
    requires
        in_made(c, gamma, pk, w, m, kp, tx, pv, ys, ks),
        in_honest_inputs(gamma, pk, w, m, kp, tx, pv, ys, ks),
    ensures
        c.wf(),
{
    let l = tx.len();
    assert(c.tx@.len() == strings_view(c.tx@).len());
    assert(c.m@.len() == strings_view(c.m@).len());
    lemma_in_parts_wf(c, gamma, pk, w, kp, l, pv, ys);
    lemma_in_sop_wf(c, gamma, l, pv, ys);
    lemma_in_suop_wf(c, gamma, l, pv, ys);
    assert forall|i: int, j: int| 0 <= i < c.m_cis@.len() && 0 <= j < c.m_cis@[i]@.len() implies (#[trigger] c.m_cis@[i]@[j]).wf() by {
        assert(cell_made(c.m_cis@[i]@[j], pv[i][j], prefix_log(pk.bytes@, m, i + 1)));
    }
    assert(c.m@.len() >= l);
    assert(c.c_omega@.len() >= l);
    assert(c.y_pub@.len() >= l);
    assert(c.sigma_tilde@.len() >= l);
    assert(c.x@.len() > l);
    assert(c.m_cis@.len() >= l);
    assert(c.m_ri_pub@.len() >= l);
    assert(c.pk.wf());
    assert(c.vk.wf());
    assert forall|t: int| 0 <= t < c.c_omega@.len() implies (#[trigger] c.c_omega@[t]).wf() && c.sigma_tilde@[t].wf() by {
        assert(is_multiple(c.y_pub@[t].bytes@, ys[t].value()));
    }
    assert forall|t: int| 0 <= t < c.sigma_tilde@.len() implies (#[trigger] c.sigma_tilde@[t]).wf() by {
        assert(is_multiple(c.y_pub@[t].bytes@, ys[t].value()));
    }
}

/// The states of an honestly made ciphertext all check out.
pub proof fn lemma_in_states_ok(
    c: CVESCiphertextIn, gamma: nat, pk: G1Point, w: Seq<ChainScalar>, m: Seq<Seq<char>>,
    kp: SchnorrPair, tx: Seq<Seq<char>>, pv: Seq<Seq<PreComp>>, ys: Seq<ChainScalar>, ks: Seq<ChainScalar>,
)
    requires
        in_made(c, gamma, pk, w, m, kp, tx, pv, ys, ks),
        in_honest_inputs(gamma, pk, w, m, kp, tx, pv, ys, ks),
    ensures
        c.states_ok_upto(tx.len() as int),
{
    let n = secp_order();
    assert forall|t: int| 0 <= t < tx.len() implies #[trigger] c.state_enc_ok(t) && c.state_presig_ok(t) by {
        let yt = (ys[t].value() + w[0].value()) % n;
        lemma_chain_only(c.x@[0].bytes@, w[0].value(), c.x@[t + 1].bytes@, w[t + 1].value());
        lemma_chain_only(c.y_pub@[t].bytes@, ys[t].value(), c.y_pub@[t].bytes@, ys[t].value());
        assert(!in_state_degenerate(w, kp, tx, ys, ks, t + 1));
        assert((w[0].value() + ys[t].value()) % n == yt);
        assert(c.state_enc_ok(t));
        assert(strings_view(c.tx@)[t] == c.tx@[t]@);
        lemma_pre_sign_then_pre_verify(kp, tx[t], yt, ks[t].value());
        assert(c.state_presig_ok(t));
    }
}

/// An opened unit of an honestly made row checks out.
proof fn lemma_in_sop_ok(c: CVESCiphertextIn, pk: G1Point, m: Seq<Seq<char>>, pv: Seq<Seq<PreComp>>, k: int, t: int)
    requires
        c.bits()[k],
        sop_unit_made(c.sop@[k]@[t], pv, k, t),
        cell_made(c.m_cis@[t]@[k], pv[t][k], prefix_log(pk.bytes@, m, t + 1)),
        pv[t][k].honest(),
        c.pk == pk,
        strings_view(c.m@) == m,
    ensures
        c.sop_unit_ok(c.sop@[k]@[t]),
{
}

/// An unopened unit of an honestly made row checks out.
proof fn lemma_in_suop_ok(c: CVESCiphertextIn, pv: Seq<Seq<PreComp>>, ys: Seq<ChainScalar>, k: int, t: int)
    requires
        !c.bits()[k],
        suop_unit_made(c.suop@[k]@[t], pv, c.m_cis@[t]@[k], ys[t].value(), k, t),
        is_multiple(c.y_pub@[t].bytes@, ys[t].value()),
        0 <= t < c.m_ri_pub@.len(),
        forall|i: int| 0 <= i < t + 1 ==> 0 <= k < (#[trigger] c.m_ri_pub@[i])@.len() && c.m_ri_pub@[i]@[k] == pv[i][k].ri_pub
            && pv[i][k].honest(),
    ensures
        c.suop_unit_ok(c.suop@[k]@[t]),
{
    let n = secp_order();
    let rows = c.ri_pub_rows();
    assert forall|i: int| 0 <= i < t + 1 implies 0 <= k < (#[trigger] rows[i]).len() && rows[i][k] == pv[i][k].ri_pub
        && pv[i][k].honest() by {
        assert(rows[i] == c.m_ri_pub@[i]@);
    }
    lemma_pub_acc_in_acc(rows, pv, k, t + 1);
    lemma_chain_only(c.y_pub@[t].bytes@, ys[t].value(), c.y_pub@[t].bytes@, ys[t].value());
    assert((ys[t].value() + in_acc(pv, k, t + 1)) % n == (in_acc(pv, k, t + 1) + ys[t].value()) % n);
}

/// The cut-and-choose proof of an honestly made ciphertext checks out.
pub proof fn lemma_in_cut_and_choose(
    c: CVESCiphertextIn, gamma: nat, pk: G1Point, w: Seq<ChainScalar>, m: Seq<Seq<char>>,
    kp: SchnorrPair, tx: Seq<Seq<char>>, pv: Seq<Seq<PreComp>>, ys: Seq<ChainScalar>, ks: Seq<ChainScalar>,
)
    requires
        in_made(c, gamma, pk, w, m, kp, tx, pv, ys, ks),
        in_honest_inputs(gamma, pk, w, m, kp, tx, pv, ys, ks),
    ensures
        c.cut_and_choose_ok(),
{
    let l = tx.len();
    let bits = c.bits();
    assert forall|k: int, t: int| 0 <= k < c.sop@.len() && 0 <= t < c.sop@[k]@.len() implies c.sop_unit_ok(#[trigger] c.sop@[k]@[t]) by {
        assert(row_made(c.sop@[k]@, c.suop@[k]@, bits[k], l, pv, c.m_cis@, ys, k));
        assert(pv[t][k].honest());
        assert(cell_made(c.m_cis@[t]@[k], pv[t][k], prefix_log(pk.bytes@, m, t + 1)));
        lemma_in_sop_ok(c, pk, m, pv, k, t);
    }
    assert forall|k: int, t: int| 0 <= k < c.suop@.len() && 0 <= t < c.suop@[k]@.len() implies c.suop_unit_ok(#[trigger] c.suop@[k]@[t]) by {
        assert(row_made(c.sop@[k]@, c.suop@[k]@, bits[k], l, pv, c.m_cis@, ys, k));
        assert forall|i: int| 0 <= i < t + 1 implies 0 <= k < (#[trigger] c.m_ri_pub@[i])@.len() && c.m_ri_pub@[i]@[k] == pv[i][k].ri_pub
            && pv[i][k].honest() by {
            assert(c.m_ri_pub@[i]@[k] == pv[i][k].ri_pub);
            assert(pv[i][k].honest());
        }
        lemma_in_suop_ok(c, pv, ys, k, t);
    }
}

/// Completeness: a ciphertext made honestly (from honest precomputations)
/// is well formed and passes verification.
pub proof fn lemma_in_verifies(
    c: CVESCiphertextIn, gamma: nat, pk: G1Point, w: Seq<ChainScalar>, m: Seq<Seq<char>>,
    kp: SchnorrPair, tx: Seq<Seq<char>>, pv: Seq<Seq<PreComp>>, ys: Seq<ChainScalar>, ks: Seq<ChainScalar>,
)
    requires
        in_made(c, gamma, pk, w, m, kp, tx, pv, ys, ks),
        in_honest_inputs(gamma, pk, w, m, kp, tx, pv, ys, ks),
    ensures
        c.wf(),
        c.states_ok_upto(c.tx@.len() as int),
        c.cut_and_choose_ok(),
{
    lemma_in_wf(c, gamma, pk, w, m, kp, tx, pv, ys, ks);
    lemma_in_states_ok(c, gamma, pk, w, m, kp, tx, pv, ys, ks);
    lemma_in_cut_and_choose(c, gamma, pk, w, m, kp, tx, pv, ys, ks);
    assert(c.tx@.len() == strings_view(c.tx@).len());
}

/// `in_find` gives a unit of the rows of the state sought, and gives one
/// wherever such a unit lies at or after the starting place.
pub proof fn lemma_in_find(rows: Seq<Seq<SuopUnitIn>>, k: int, t: int, state: nat)
    requires
        0 <= k,
        0 <= t,
    ensures
        in_find(rows, k, t, state) matches Some(u) ==> u.j == state
            && exists|a: int, b: int| 0 <= a < rows.len() && 0 <= b < rows[a].len() && #[trigger] rows[a][b] == u,
        (exists|a: int, b: int| k <= a < rows.len() && 0 <= b < rows[a].len() && (a > k || b >= t) && (#[trigger] rows[a][b]).j == state)
            ==> in_find(rows, k, t, state) is Some,
    decreases rows.len() - k, (if k < rows.len() { rows[k].len() - t } else { 0 }),
{
    if k >= rows.len() {
    } else if t >= rows[k].len() {
        lemma_in_find(rows, k + 1, 0, state);
        if exists|a: int, b: int| k <= a < rows.len() && 0 <= b < rows[a].len() && (a > k || b >= t) && (#[trigger] rows[a][b]).j == state {
            let (a, b) = choose|a: int, b: int| k <= a < rows.len() && 0 <= b < rows[a].len() && (a > k || b >= t) && (#[trigger] rows[a][b]).j == state;
            assert(a > k);
            assert(k + 1 <= a && (a > k + 1 || b >= 0) && rows[a][b].j == state);
        }
    } else if rows[k][t].j == state {
        assert(rows[k][t] == rows[k][t]);
    } else {
        lemma_in_find(rows, k, t + 1, state);
        if exists|a: int, b: int| k <= a < rows.len() && 0 <= b < rows[a].len() && (a > k || b >= t) && (#[trigger] rows[a][b]).j == state {
            let (a, b) = choose|a: int, b: int| k <= a < rows.len() && 0 <= b < rows[a].len() && (a > k || b >= t) && (#[trigger] rows[a][b]).j == state;
            assert(a > k || b >= t + 1);
        }
    }
}

/// The message element of the first attestation alone is that of a single
/// signature on it.
proof fn lemma_prefix_log_one(pk: Seq<u8>, x: nat, m: Seq<Seq<char>>)
    requires
        m.len() >= 1,
        g1_only(pk, x),
    ensures
        prefix_log(pk, m, 1) == (x * hash_log(m[0])) % bls_order(),
{
    let q = bls_order() as int;
    crate::curve::lemma_g1_only(pk, x, pk, x);
    assert(m.take(1).drop_last() =~= Seq::<Seq<char>>::empty());
    assert(hash_sum(m.take(1)) == (hash_sum(Seq::<Seq<char>>::empty()) + hash_log(m[0])) % bls_order());
    vstd::arithmetic::div_mod::lemma_mul_mod_noop_right(x as int, hash_log(m[0]) as int, q);
}

/// The first unopened unit of the first state is the first unit of the
/// first unopened row.
proof fn lemma_in_first_unit(c: CVESCiphertextIn, gamma: nat, l: nat, pv: Seq<Seq<PreComp>>, ys: Seq<ChainScalar>) -> (a: int)
    requires
        l >= 1,
        c.sop@.len() == gamma,
        c.suop@.len() == gamma,
        forall|k: int| 0 <= k < gamma ==> #[trigger] row_made(c.sop@[k]@, c.suop@[k]@, c.bits()[k], l, pv, c.m_cis@, ys, k),
        exists|k: int| 0 <= k < gamma && !c.bits()[k],
    ensures
        0 <= a < gamma,
        !c.bits()[a],
        in_find(c.suop_rows(), 0, 0, 1) == Some(c.suop@[a]@[0]),
        suop_unit_made(c.suop@[a]@[0], pv, c.m_cis@[0]@[a], ys[0].value(), a, 0),
{
    let bits = c.bits();
    let rows = c.suop_rows();
    let k0 = choose|k: int| 0 <= k < gamma && !c.bits()[k];
    assert(row_made(c.sop@[k0]@, c.suop@[k0]@, bits[k0], l, pv, c.m_cis@, ys, k0));
    assert(rows[k0] == c.suop@[k0]@);
    assert(suop_unit_made(rows[k0][0], pv, c.m_cis@[0]@[k0], ys[0].value(), k0, 0));
    assert(rows[k0][0].j == 1);
    lemma_in_find(rows, 0, 0, 1);
    let u = in_find(rows, 0, 0, 1).unwrap();
    let (a, b) = choose|a: int, b: int| 0 <= a < rows.len() && 0 <= b < rows[a].len() && #[trigger] rows[a][b] == u;
    assert(rows[a] == c.suop@[a]@);
    assert(row_made(c.sop@[a]@, c.suop@[a]@, bits[a], l, pv, c.m_cis@, ys, a));
    assert(!bits[a]);
    assert(suop_unit_made(u, pv, c.m_cis@[b]@[a], ys[b].value(), a, b));
    assert(b == 0);
    a
}

/// Opening an honestly made unopened unit, with a signature whose
/// logarithm is that of its message element, gives the witness `w1` of the
/// new state and the pre-signature adapted with the pad.
pub proof fn lemma_open_honest(
    ci_u: WESCiphertext, si: nat, ci: WESCiphertext, pre: PreComp, mlog: nat, sig: Seq<u8>,
    y0: nat, w0: nat, w1: nat, c_omega: nat, presig: (nat, nat), xw: Seq<u8>,
)
    requires
        pre.honest(),
        cell_made(ci, pre, mlog),
        mlog < bls_order(),
        g2_log(sig) == mlog,
        ci_u.c1 == ci.c1,
        ci_u.c2@ == ci.c2@,
        ci_u.c3 == ci.c3,
        si == (pre.ri.value() + y0) % secp_order(),
        0 < y0 < secp_order(),
        0 < w1 < secp_order(),
        w0 < secp_order(),
        (y0 + w0) % secp_order() != 0,
        c_omega == ((y0 + w0) % secp_order() + w1) % secp_order(),
        is_multiple(xw, w1),
    ensures
        in_unit_outcome(ci_u, si, g2_log(sig), w0, c_omega, presig, xw) == if (presig.0 + (y0 + w0) % secp_order()) % secp_order() == 0 {
            Err::<(nat, (nat, nat)), CvesError>(CvesError::ZeroScalar)
        } else {
            Ok::<(nat, (nat, nat)), CvesError>((w1, ((presig.0 + (y0 + w0) % secp_order()) % secp_order(), presig.1)))
        },
{
    let n = secp_order();
    let yt = (y0 + w0) % n;
    assert(ci.encrypts(mlog, pre.ri.bytes@, pre.r1.value(), pre.r2@));
    lemma_wes_dec_bytes(ci, mlog, pre.ri.bytes@, pre.r1.value(), pre.r2@, g2_log(sig));
    let ri = pre.ri.value();
    lemma_small_mod(ri, n);
    assert(wes_dec_spec(ci_u.c1.bytes@, ci_u.c2@, ci_u.c3@, g2_log(sig)) == ri);
    lemma_sub_summand(y0 as int, ri as int);
    lemma_small_mod(y0, n);
    assert((ri + y0) % n == (y0 + ri) % n);
    lemma_sub_summand(w1 as int, yt as int);
    lemma_small_mod(w1, n);
    assert((yt + w1) % n == (w1 + yt) % n);
}

/// Decryption of the first state: with the oracle's signature on the first
/// attestation under the key of logarithm `x`, and the witness `w[0]` of
/// the initial state, an honestly made ciphertext with an unopened position
/// gives back the witness `w[1]` of the first state and the first payment's
/// signature, which verifies under the payer's key (unless the adapted `s`
/// is zero).
pub proof fn lemma_in_decrypts_first(
    c: CVESCiphertextIn, gamma: nat, pk: G1Point, x: nat, w: Seq<ChainScalar>, m: Seq<Seq<char>>,
    kp: SchnorrPair, tx: Seq<Seq<char>>, pv: Seq<Seq<PreComp>>, ys: Seq<ChainScalar>, ks: Seq<ChainScalar>,
    sig: Seq<u8>,
)
    requires
        in_made(c, gamma, pk, w, m, kp, tx, pv, ys, ks),
        in_honest_inputs(gamma, pk, w, m, kp, tx, pv, ys, ks),
        tx.len() >= 1,
        g1_only(pk.bytes@, x),
        bls_verify_spec(x, m[0], sig),
        ys[0].value() != 0,
        w[1].value() != 0,
        exists|k: int| 0 <= k < gamma && !c.bits()[k],
    ensures
        ({
            let yt = (ys[0].value() + w[0].value()) % secp_order();
            let s2 = (c.sigma_tilde@[0].s.value() + yt) % secp_order();
            &&& c.dec_spec(g2_log(sig), w[0].value(), 1) == if s2 == 0 {
                Err::<(nat, (nat, nat)), CvesError>(CvesError::ZeroScalar)
            } else {
                Ok::<(nat, (nat, nat)), CvesError>((w[1].value(), (s2, c.sigma_tilde@[0].r.value())))
            }
            &&& verify_spec(kp.public(), tx[0], s2, c.sigma_tilde@[0].r.value())
        }),
{
    let n = secp_order();
    let yt = (ys[0].value() + w[0].value()) % n;
    assert(is_multiple(c.x@[0].bytes@, w[0].value()));
    assert(is_multiple(c.x@[1].bytes@, w[1].value()));
    assert(is_multiple(c.y_pub@[0].bytes@, ys[0].value()));
    let a = lemma_in_first_unit(c, gamma, tx.len(), pv, ys);
    let u = c.suop@[a]@[0];
    assert(pv[0][a].honest());
    assert(cell_made(c.m_cis@[0]@[a], pv[0][a], prefix_log(pk.bytes@, m, 1)));
    assert(!in_state_degenerate(w, kp, tx, ys, ks, 1));
    lemma_prefix_log_one(pk.bytes@, x, m);
    lemma_mod_bound((x * hash_log(m[0])) as int, bls_order() as int);
    lemma_open_honest(
        u.ci, u.si.value(), c.m_cis@[0]@[a], pv[0][a], prefix_log(pk.bytes@, m, 1), sig,
        ys[0].value(), w[0].value(), w[1].value(), c.c_omega@[0].value(), c.sigma_tilde@[0].values(), c.x@[1].bytes@,
    );
    lemma_pre_sign_then_pre_verify(kp, tx[0], yt, ks[0].value());
    assert(is_multiple(kp.public(), kp.secret()));
    lemma_chain_only(kp.public(), kp.secret(), kp.public(), kp.secret());
    lemma_adapt_then_verify(kp.public(), tx[0], c.sigma_tilde@[0].s.value(), c.sigma_tilde@[0].r.value(), yt);
}

/// The cells of the linear-graph scheme are vector WES encryptions: cell
/// `j` of row `i` of a ciphertext made as `in_made` says is what
/// `wes_enc_precom_vector` makes of the first `i + 1` attestations with the
/// coins of its precomputation, and with the oracle's aggregate signature
/// on those attestations WES decryption gives back the precomputation's
/// secret.
pub proof fn lemma_in_cells_vector(
    c: CVESCiphertextIn, gamma: nat, pk: G1Point, w: Seq<ChainScalar>, m: Seq<Seq<char>>, kp: SchnorrPair,
    tx: Seq<Seq<char>>, pv: Seq<Seq<PreComp>>, ys: Seq<ChainScalar>, ks: Seq<ChainScalar>, i: int, j: int,
    d: WESCiphertext, x: nat, sig: Seq<u8>,
)
    requires
        in_made(c, gamma, pk, w, m, kp, tx, pv, ys, ks),
        0 <= i < tx.len(),
        0 <= j < gamma,
        pv[i][j].honest(),
        d.c1 == pv[i][j].c1,
        d.c3 == pv[i][j].c3,
        gt_only(d.c2@, wes_c2_log((g1_log(pk.bytes@) * hash_sum(m.take(i + 1))) % bls_order(), pv[i][j].r1.value(),
            gt_log(pv[i][j].r2@))),
        g1_only(pk.bytes@, x),
        g2_log(sig) == (x * hash_sum(m.take(i + 1))) % bls_order(),
    ensures
        c.m_cis@[i]@[j].c1 == d.c1,
        c.m_cis@[i]@[j].c2@ == d.c2@,
        c.m_cis@[i]@[j].c3 == d.c3,
        crate::wes::wes_dec_bytes(d.c1.bytes@, d.c2@, d.c3@, g2_log(sig)) == pv[i][j].ri.bytes@,
{
    let pre = pv[i][j];
    let mlog = prefix_log(pk.bytes@, m, i + 1);
    let ci = c.m_cis@[i]@[j];
    assert(cell_made(ci, pre, mlog));
    crate::curve::lemma_gt_only(ci.c2@, wes_c2_log(mlog, pre.r1.value(), gt_log(pre.r2@)), d.c2@,
        wes_c2_log(mlog, pre.r1.value(), gt_log(pre.r2@)));
    crate::curve::lemma_g1_only(pk.bytes@, x, pk.bytes@, x);
    vstd::arithmetic::div_mod::lemma_mod_bound((g1_log(pk.bytes@) * hash_sum(m.take(i + 1))) as int, bls_order() as int);
    assert(d.encrypts(mlog, pre.ri.bytes@, pre.r1.value(), pre.r2@));
    assert(pre.ri.bytes@.len() == 32);
    crate::wes::lemma_wes_dec_bytes(d, mlog, pre.ri.bytes@, pre.r1.value(), pre.r2@, g2_log(sig));
}

/// Soundness of the cut-and-choose proof for the opened units: where it
/// checks out, every opened unit sits at a set challenge bit, and the
/// ciphertext of its state and position is the WES encryption of the unit's
/// secret with its coins, for the pairing of `pk` with the aggregate hash of
/// the first `u.j` attestations.
pub proof fn lemma_in_verified_opened(c: CVESCiphertextIn)
    requires
        c.cut_and_choose_ok(),
    ensures
        forall|k: int, t: int| 0 <= k < c.sop@.len() && 0 <= t < c.sop@[k]@.len() ==> {
            let u = #[trigger] c.sop@[k]@[t];
            &&& c.bits()[u.i as int]
            &&& c.m_cis@[u.j - 1]@[u.i as int].encrypts(
                (g1_log(c.pk.bytes@) * hash_sum(strings_view(c.m@).take(u.j as int))) % bls_order(),
                u.ri.bytes@, u.rho.0.value(), u.rho.1@)
        },
{
}

} // verus!
