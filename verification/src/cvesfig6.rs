//! CVES for a loan whose state may move from any earlier state to any later
//! one: the ciphertexts of each later state open with the oracle's
//! aggregate signature on the attestations up to it, and each earlier state
//! has its own pad and pre-signature towards it. The challenge of the
//! cut-and-choose proof hashes the parts of the last state.

use vstd::prelude::*;
use vstd::arithmetic::div_mod::lemma_mod_bound;
use crate::bytes::bits_of;
use crate::hashing::sha256_digest;
use crate::chain::{
    ChainScalar, ChainPoint, secp_order, chain_point_enc, chain_log, is_multiple, lemma_chain_only,
    chain_scalar_add, chain_base_mul, chain_point_add,
};
use crate::curve::{BlsScalar, G1Point, G2Point, GtElem, bls_order, g1_only, g2_only, g2_log, gt_only};
use crate::common::{hash_to_bits, challenge_data, sample_rand_chain_scalars};
use crate::wes::{WESCiphertext, PreComp};
use crate::signbls::{hash_sum, BLSKeyPair};
use crate::schnorradaptor::{
    SchnorrPair, SchnorrPreSig, SchnorrSig, pre_sign_spec, pre_verify_spec, verify_spec,
    lemma_pre_sign_then_pre_verify, lemma_adapt_then_verify, pre_verify,
};
use crate::cvesfig5::{fig5_pad, fig5_degenerate, dec_result_matches, CVESCiphertextFig5};
use crate::efficient::{
    strings_view, prefix_log, cell_made, precom_ok, precom_view, in_rows, in_unit_outcome,
    open_transition, statements, prefix_elements, lemma_open_honest,
};
use crate::cves::CvesError;

verus! {

/// A CVES ciphertext for the transitions from each state to each later one.
pub struct CVESCiphertextFig6 {
    pub m_cis: Vec<Vec<WESCiphertext>>,
    pub c_omega: Vec<Vec<ChainScalar>>,
    pub sop: Vec<Vec<SopUnitFig6>>,
    pub suop: Vec<Vec<SuopUnitFig6>>,
    pub m_ri_pub: Vec<Vec<ChainPoint>>,
    pub x: Vec<ChainPoint>,
    pub y_pub: Vec<Vec<ChainPoint>>,
    pub sigma_tilde: Vec<Vec<SchnorrPreSig>>,
    pub m: Vec<String>,
    pub pk: G1Point,
    pub tx: Vec<String>,
    pub vk: ChainPoint,
}

/// An opened position `i` of the ciphertext of state `j`.
pub struct SopUnitFig6 {
    pub i: usize,
    pub j: usize,
    pub ri: ChainScalar,
    pub rho: (BlsScalar, GtElem),
}

/// An unopened position `i` of the ciphertext of state `j`: its secret
/// shifted by the pad of each earlier state.
pub struct SuopUnitFig6 {
    pub i: usize,
    pub j: usize,
    pub si: Vec<ChainScalar>,
    pub ci: WESCiphertext,
}

/// Rows of scalars as sequences.
pub open spec fn scalar_rows(v: Seq<Vec<ChainScalar>>) -> Seq<Seq<ChainScalar>> {
    v.map_values(|r: Vec<ChainScalar>| r@)
}

/// Row `t` of `v` holds `t + 1` canonical scalars, for each of the `l`
/// rows; with `nonzero`, none of them is zero.
pub open spec fn triangle_ok(v: Seq<Seq<ChainScalar>>, l: nat, nonzero: bool) -> bool {
    &&& v.len() == l
    &&& forall|t: int| 0 <= t < l ==> (#[trigger] v[t]).len() == t + 1
    &&& forall|t: int, j: int| 0 <= j <= t < l ==> (#[trigger] v[t][j]).wf() && (nonzero ==> v[t][j].value() != 0)
}

/// Draws, for each of `l` states, a non-zero scalar for each state up to it.
pub fn sample_triangle(l: usize) -> (v: Vec<Vec<ChainScalar>>)
    ensures
        triangle_ok(scalar_rows(v@), l as nat, true),
{
    let mut v: Vec<Vec<ChainScalar>> = Vec::new();
    let mut t: usize = 0;
    while t < l
        invariant
            t <= l,
            v@.len() == t,
            forall|u: int| 0 <= u < t ==> (#[trigger] v@[u])@.len() == u + 1,
            forall|u: int, j: int| 0 <= j <= u < t ==> (#[trigger] v@[u]@[j]).wf() && v@[u]@[j].value() != 0,
        decreases l - t,
    {
        v.push(sample_rand_chain_scalars(t + 1));
        t = t + 1;
    }
    let ghost rows = scalar_rows(v@);
    assert forall|u: int, j: int| 0 <= j <= u < l implies (#[trigger] rows[u][j]).wf() && rows[u][j].value() != 0 by {
        assert(rows[u] == v@[u]@);
    }
    assert forall|u: int| 0 <= u < l implies (#[trigger] rows[u]).len() == u + 1 by {
        assert(rows[u] == v@[u]@);
    }
    v
}

/// The pad `y_pub`, pre-signature `sigma` and one-time pad `c_omega` of the
/// transition from the state of witness `wa` to that of witness `sec`, with
/// the pad `y` and the nonce `k`.
pub open spec fn fig6_pad_made(
    y_pub: ChainPoint,
    sigma: SchnorrPreSig,
    c_omega: ChainScalar,
    wa: ChainScalar,
    sec: ChainScalar,
    kp: SchnorrPair,
    tx: Seq<char>,
    y: ChainScalar,
    k: ChainScalar,
) -> bool {
    let yt = (y.value() + wa.value()) % secp_order();
    &&& is_multiple(y_pub.bytes@, y.value())
    &&& sigma.wf()
    &&& pre_sign_spec(kp.secret(), kp.public(), tx, yt, k.value()) == Some(sigma.values())
    &&& c_omega.wf()
    &&& c_omega.value() == (yt + sec.value()) % secp_order()
    &&& !fig5_degenerate(wa, sec, kp, tx, y, k)
}

/// The transition from state `j` to state `t + 1` meets a zero.
pub open spec fn fig6_degenerate(
    w: Seq<ChainScalar>,
    kp: SchnorrPair,
    tx: Seq<Seq<char>>,
    ys: Seq<Seq<ChainScalar>>,
    ks: Seq<Seq<ChainScalar>>,
    t: int,
    j: int,
) -> bool {
    fig5_degenerate(w[j], w[t + 1], kp, tx[t], ys[t][j], ks[t][j])
}

/// The pads of the transitions from each state `j <= t` to state `t + 1`.
fn fig6_pad_row(t: usize, w: &Vec<ChainScalar>, a_kp: &SchnorrPair, tx_t: &str, ys_t: &Vec<ChainScalar>, ks_t: &Vec<ChainScalar>)
    -> (res: Option<(Vec<ChainPoint>, Vec<SchnorrPreSig>, Vec<ChainScalar>)>)
    requires
        t + 1 < w@.len(),
        ys_t@.len() == t + 1,
        ks_t@.len() == t + 1,
        forall|u: int| 0 <= u < w@.len() ==> (#[trigger] w@[u]).wf(),
        forall|j: int| 0 <= j <= t ==> (#[trigger] ys_t@[j]).wf() && ks_t@[j].wf() && ks_t@[j].value() != 0,
        a_kp.wf(),
    ensures
        res is None <==> exists|j: int| 0 <= j <= t && #[trigger] fig5_degenerate(w@[j], w@[t + 1], *a_kp, tx_t@, ys_t@[j], ks_t@[j]),
        res matches Some((yp, sg, co)) ==> {
            &&& yp@.len() == t + 1
            &&& sg@.len() == t + 1
            &&& co@.len() == t + 1
            &&& forall|j: int| 0 <= j <= t ==> #[trigger] fig6_pad_made(yp@[j], sg@[j], co@[j], w@[j], w@[t + 1], *a_kp, tx_t@, ys_t@[j], ks_t@[j])
        },
{
    let n_w: usize = w.len();
    let mut yp: Vec<ChainPoint> = Vec::new();
    let mut sg: Vec<SchnorrPreSig> = Vec::new();
    let mut co: Vec<ChainScalar> = Vec::new();
    assert(forall|u: int| 0 <= u <= t ==> (#[trigger] ys_t@[u]).wf() && ks_t@[u].wf() && ks_t@[u].value() != 0);
    let mut j: usize = 0;
    while j <= t
        invariant
            n_w == w@.len(),
            t + 1 < w@.len(),
            ys_t@.len() == t + 1,
            ks_t@.len() == t + 1,
            forall|u: int| 0 <= u < w@.len() ==> (#[trigger] w@[u]).wf(),
            forall|u: int| 0 <= u <= t ==> (#[trigger] ys_t@[u]).wf() && ks_t@[u].wf() && ks_t@[u].value() != 0,
            a_kp.wf(),
            j <= t + 1,
            yp@.len() == j,
            sg@.len() == j,
            co@.len() == j,
            forall|u: int| 0 <= u < j ==> #[trigger] fig6_pad_made(yp@[u], sg@[u], co@[u], w@[u], w@[t + 1], *a_kp, tx_t@, ys_t@[u], ks_t@[u]),
            forall|u: int| 0 <= u < j ==> !#[trigger] fig5_degenerate(w@[u], w@[t + 1], *a_kp, tx_t@, ys_t@[u], ks_t@[u]),
        decreases t + 1 - j,
    {
        match fig5_pad(w[j], w[t + 1], a_kp, tx_t, ys_t[j], ks_t[j]) {
            Some((y_pub, _xa, _xw, sigma, c_omega)) => {
                yp.push(y_pub);
                sg.push(sigma);
                co.push(c_omega);
            },
            None => {
                return None;
            },
        }
        j = j + 1;
    }
    Some((yp, sg, co))
}

/// The pads of every transition to a later state, row by row.
fn fig6_pads(
    l: usize,
    w: &Vec<ChainScalar>,
    a_kp: &SchnorrPair,
    tx: &Vec<String>,
    ys: &Vec<Vec<ChainScalar>>,
    ks: &Vec<Vec<ChainScalar>>,
) -> (res: Option<(Vec<Vec<ChainPoint>>, Vec<Vec<SchnorrPreSig>>, Vec<Vec<ChainScalar>>)>)
    requires
        w@.len() == l + 1,
        tx@.len() == l,
        forall|u: int| 0 <= u < w@.len() ==> (#[trigger] w@[u]).wf(),
        triangle_ok(scalar_rows(ys@), l as nat, false),
        triangle_ok(scalar_rows(ks@), l as nat, true),
        a_kp.wf(),
    ensures
        res is None <==> exists|t: int, j: int| 0 <= j <= t < l
            && #[trigger] fig6_degenerate(w@, *a_kp, strings_view(tx@), scalar_rows(ys@), scalar_rows(ks@), t, j),
        res matches Some((yp, sg, co)) ==> {
            &&& yp@.len() == l
            &&& sg@.len() == l
            &&& co@.len() == l
            &&& forall|t: int| #![trigger yp@[t]] #![trigger sg@[t]] #![trigger co@[t]] 0 <= t < l
                ==> yp@[t]@.len() == t + 1 && sg@[t]@.len() == t + 1 && co@[t]@.len() == t + 1
            &&& forall|t: int, j: int| 0 <= j <= t < l ==> #[trigger] fig6_pad_made(
                yp@[t]@[j], sg@[t]@[j], co@[t]@[j], w@[j], w@[t + 1], *a_kp, tx@[t]@, ys@[t]@[j], ks@[t]@[j])
        },
{
    let ghost yr = scalar_rows(ys@);
    let ghost kr = scalar_rows(ks@);
    let ghost txv = strings_view(tx@);
    let mut yp: Vec<Vec<ChainPoint>> = Vec::new();
    let mut sg: Vec<Vec<SchnorrPreSig>> = Vec::new();
    let mut co: Vec<Vec<ChainScalar>> = Vec::new();
    let mut t: usize = 0;
    while t < l
        invariant
            w@.len() == l + 1,
            tx@.len() == l,
            forall|u: int| 0 <= u < w@.len() ==> (#[trigger] w@[u]).wf(),
            yr == scalar_rows(ys@),
            kr == scalar_rows(ks@),
            txv == strings_view(tx@),
            triangle_ok(yr, l as nat, false),
            triangle_ok(kr, l as nat, true),
            a_kp.wf(),
            t <= l,
            yp@.len() == t,
            sg@.len() == t,
            co@.len() == t,
            forall|u: int| #![trigger yp@[u]] #![trigger sg@[u]] #![trigger co@[u]] 0 <= u < t
                ==> yp@[u]@.len() == u + 1 && sg@[u]@.len() == u + 1 && co@[u]@.len() == u + 1,
            forall|u: int, j: int| 0 <= j <= u < t ==> #[trigger] fig6_pad_made(
                yp@[u]@[j], sg@[u]@[j], co@[u]@[j], w@[j], w@[u + 1], *a_kp, tx@[u]@, ys@[u]@[j], ks@[u]@[j]),
            forall|u: int, j: int| 0 <= j <= u < t ==> !#[trigger] fig6_degenerate(w@, *a_kp, txv, yr, kr, u, j),
        decreases l - t,
    {
        proof {
            assert(yr[t as int] == ys@[t as int]@);
            assert(kr[t as int] == ks@[t as int]@);
            assert(txv[t as int] == tx@[t as int]@);
            assert forall|j: int| 0 <= j <= t implies (#[trigger] ys@[t as int]@[j]).wf() && ks@[t as int]@[j].wf()
                && ks@[t as int]@[j].value() != 0 by {
                assert(yr[t as int][j] == ys@[t as int]@[j]);
                assert(kr[t as int][j] == ks@[t as int]@[j]);
            }
        }
        match fig6_pad_row(t, w, a_kp, tx[t].as_str(), &ys[t], &ks[t]) {
            Some((yp_t, sg_t, co_t)) => {
                yp.push(yp_t);
                sg.push(sg_t);
                co.push(co_t);
                proof {
                    assert forall|j: int| 0 <= j <= t implies !#[trigger] fig6_degenerate(w@, *a_kp, txv, yr, kr, t as int, j) by {
                        assert(fig6_pad_made(yp@[t as int]@[j], sg@[t as int]@[j], co@[t as int]@[j], w@[j], w@[t + 1], *a_kp, tx@[t as int]@, ys@[t as int]@[j], ks@[t as int]@[j]));
                    }
                }
            },
            None => {
                proof {
                    let j = choose|j: int| 0 <= j <= t && #[trigger] fig5_degenerate(w@[j], w@[t + 1], *a_kp, tx@[t as int]@, ys@[t as int]@[j], ks@[t as int]@[j]);
                    assert(fig6_degenerate(w@, *a_kp, txv, yr, kr, t as int, j));
                }
                return None;
            },
        }
        t = t + 1;
    }
    Some((yp, sg, co))
}

/// The shifted secrets `si` of an unopened unit are the pads `ys_t` of its
/// state, each plus the secret `ri`, none of them zero.
pub open spec fn fig6_si_ok(si: Seq<ChainScalar>, ys_t: Seq<ChainScalar>, ri: nat) -> bool {
    &&& si.len() == ys_t.len()
    &&& forall|j: int| 0 <= j < si.len() ==> (#[trigger] si[j]).wf() && si[j].value() == (ys_t[j].value() + ri) % secp_order()
        && si[j].value() != 0
}

/// A pad of `ys_t` plus the secret `ri` is zero.
pub open spec fn fig6_si_degenerate(ys_t: Seq<ChainScalar>, ri: nat) -> bool {
    exists|j: int| 0 <= j < ys_t.len() && ((#[trigger] ys_t[j]).value() + ri) % secp_order() == 0
}

/// The shifted secrets of an unopened unit with secret `ri`.
fn fig6_si(ys_t: &Vec<ChainScalar>, ri: &ChainScalar) -> (res: Option<Vec<ChainScalar>>)
    requires
        forall|j: int| 0 <= j < ys_t@.len() ==> (#[trigger] ys_t@[j]).wf(),
        ri.wf(),
    ensures
        res is None <==> fig6_si_degenerate(ys_t@, ri.value()),
        res matches Some(si) ==> fig6_si_ok(si@, ys_t@, ri.value()),
{
    let mut si: Vec<ChainScalar> = Vec::new();
    let mut j: usize = 0;
    while j < ys_t.len()
        invariant
            forall|u: int| 0 <= u < ys_t@.len() ==> (#[trigger] ys_t@[u]).wf(),
            ri.wf(),
            j <= ys_t@.len(),
            si@.len() == j,
            forall|u: int| 0 <= u < j ==> (#[trigger] si@[u]).wf() && si@[u].value() == (ys_t@[u].value() + ri.value()) % secp_order()
                && si@[u].value() != 0,
            forall|u: int| 0 <= u < j ==> ((#[trigger] ys_t@[u]).value() + ri.value()) % secp_order() != 0,
        decreases ys_t@.len() - j,
    {
        let s = chain_scalar_add(&ys_t[j], ri);
        if s.is_zero() {
            return None;
        }
        si.push(s);
        j = j + 1;
    }
    Some(si)
}

/// The opened unit `u` is position `k` of state `t + 1`, with the secret and
/// coins of its precomputation.
pub open spec fn sop_unit_made6(u: SopUnitFig6, pv: Seq<Seq<PreComp>>, k: int, t: int) -> bool {
    &&& u.i == k
    &&& u.j == t + 1
    &&& u.ri == pv[t][k].ri
    &&& u.rho.0 == pv[t][k].r1
    &&& u.rho.1@ == pv[t][k].r2@
    &&& u.ri.wf()
    &&& u.rho.0.wf()
    &&& u.rho.1.wf()
}

/// The unopened unit `u` is position `k` of state `t + 1`: its shifted
/// secrets are the pads `ys_t` of the state plus the secret of its
/// precomputation, and its ciphertext that of the position.
pub open spec fn suop_unit_made6(u: SuopUnitFig6, pv: Seq<Seq<PreComp>>, ci: WESCiphertext, ys_t: Seq<ChainScalar>, k: int, t: int) -> bool {
    &&& u.i == k
    &&& u.j == t + 1
    &&& fig6_si_ok(u.si@, ys_t, pv[t][k].ri.value())
    &&& u.ci.c1 == ci.c1
    &&& u.ci.c2@ == ci.c2@
    &&& u.ci.c3 == ci.c3
    &&& u.ci.wf()
}

/// The units of position `k` for the states 1 to `l`: all opened where its
/// bit is set, all unopened where it is not.
pub open spec fn row_made6(
    sop_row: Seq<SopUnitFig6>,
    suop_row: Seq<SuopUnitFig6>,
    bit: bool,
    l: nat,
    pv: Seq<Seq<PreComp>>,
    m_cis: Seq<Vec<WESCiphertext>>,
    ys: Seq<Seq<ChainScalar>>,
    k: int,
) -> bool {
    &&& bit ==> sop_row.len() == l && suop_row.len() == 0
    &&& !bit ==> sop_row.len() == 0 && suop_row.len() == l
    &&& bit ==> forall|t: int| 0 <= t < l ==> sop_unit_made6(#[trigger] sop_row[t], pv, k, t)
    &&& !bit ==> forall|t: int| 0 <= t < l ==> suop_unit_made6(#[trigger] suop_row[t], pv, m_cis[t]@[k], ys[t], k, t)
}

/// Some unopened unit of position `k` cannot be made.
pub open spec fn row_degenerate6(l: nat, pv: Seq<Seq<PreComp>>, ys: Seq<Seq<ChainScalar>>, k: int) -> bool {
    exists|t: int| 0 <= t < l && #[trigger] fig6_si_degenerate(ys[t], pv[t][k].ri.value())
}

/// The units of one position for the states 1 to `l`.
fn fig6_units_row(
    l: usize,
    k: usize,
    bit: bool,
    precom: &Vec<Vec<PreComp>>,
    m_cis: &Vec<Vec<WESCiphertext>>,
    ys: &Vec<Vec<ChainScalar>>,
) -> (res: Option<(Vec<SopUnitFig6>, Vec<SuopUnitFig6>)>)
    requires
        precom@.len() >= l,
        forall|t: int| 0 <= t < l ==> k < (#[trigger] precom@[t])@.len() && precom@[t]@[k as int].wf(),
        m_cis@.len() >= l,
        forall|t: int| 0 <= t < l ==> k < (#[trigger] m_cis@[t])@.len() && m_cis@[t]@[k as int].wf(),
        triangle_ok(scalar_rows(ys@), l as nat, false),
    ensures
        res is None <==> !bit && row_degenerate6(l as nat, precom_view(precom@), scalar_rows(ys@), k as int),
        res matches Some((sop_row, suop_row)) ==> row_made6(sop_row@, suop_row@, bit, l as nat, precom_view(precom@), m_cis@, scalar_rows(ys@), k as int),
{
    let ghost pv = precom_view(precom@);
    let ghost yr = scalar_rows(ys@);
    let mut sop_row: Vec<SopUnitFig6> = Vec::new();
    let mut suop_row: Vec<SuopUnitFig6> = Vec::new();
    let mut t: usize = 0;
    while t < l
        invariant
            t <= l,
            pv == precom_view(precom@),
            yr == scalar_rows(ys@),
            precom@.len() >= l,
            forall|u: int| 0 <= u < l ==> k < (#[trigger] precom@[u])@.len() && precom@[u]@[k as int].wf(),
            m_cis@.len() >= l,
            forall|u: int| 0 <= u < l ==> k < (#[trigger] m_cis@[u])@.len() && m_cis@[u]@[k as int].wf(),
            triangle_ok(yr, l as nat, false),
            bit ==> sop_row@.len() == t && suop_row@.len() == 0,
            !bit ==> sop_row@.len() == 0 && suop_row@.len() == t,
            bit ==> forall|u: int| 0 <= u < t ==> sop_unit_made6(#[trigger] sop_row@[u], pv, k as int, u),
            !bit ==> forall|u: int| 0 <= u < t ==> suop_unit_made6(#[trigger] suop_row@[u], pv, m_cis@[u]@[k as int], yr[u], k as int, u),
            !bit ==> forall|u: int| 0 <= u < t ==> !#[trigger] fig6_si_degenerate(yr[u], pv[u][k as int].ri.value()),
        decreases l - t,
    {
        proof {
            assert(pv[t as int] == precom@[t as int]@);
            assert(yr[t as int] == ys@[t as int]@);
        }
        if bit {
            let pre = &precom[t][k];
            let r2 = pre.r2.copy();
            sop_row.push(SopUnitFig6 { i: k, j: t + 1, ri: pre.ri, rho: (pre.r1, r2) });
        } else {
            proof {
                assert forall|j: int| 0 <= j < ys@[t as int]@.len() implies (#[trigger] ys@[t as int]@[j]).wf() by {
                    assert(yr[t as int][j] == ys@[t as int]@[j]);
                }
            }
            let si = match fig6_si(&ys[t], &precom[t][k].ri) {
                Some(si) => si,
                None => {
                    assert(fig6_si_degenerate(yr[t as int], pv[t as int][k as int].ri.value()));
                    return None;
                },
            };
            let ci = m_cis[t][k].copy();
            suop_row.push(SuopUnitFig6 { i: k, j: t + 1, si, ci });
        }
        t = t + 1;
    }
    Some((sop_row, suop_row))
}

/// The opened and unopened units of all positions below `gamma`, row by
/// row; `None` where an unopened unit cannot be made.
fn fig6_units(
    gamma: usize,
    l: usize,
    precom: &Vec<Vec<PreComp>>,
    m_cis: &Vec<Vec<WESCiphertext>>,
    bits: &Vec<bool>,
    ys: &Vec<Vec<ChainScalar>>,
) -> (res: Option<(Vec<Vec<SopUnitFig6>>, Vec<Vec<SuopUnitFig6>>)>)
    requires
        gamma <= 256,
        bits@.len() == 256,
        precom_ok(precom_view(precom@), l as nat, gamma as nat),
        m_cis@.len() >= l,
        forall|t: int| 0 <= t < l ==> (#[trigger] m_cis@[t])@.len() >= gamma,
        forall|t: int, k: int| 0 <= t < l && 0 <= k < gamma ==> (#[trigger] m_cis@[t]@[k]).wf(),
        triangle_ok(scalar_rows(ys@), l as nat, false),
    ensures
        res is None <==> exists|k: int| 0 <= k < gamma && !bits@[k] && #[trigger] row_degenerate6(l as nat, precom_view(precom@), scalar_rows(ys@), k),
        res matches Some((sop, suop)) ==> {
            &&& sop@.len() == gamma
            &&& suop@.len() == gamma
            &&& forall|k: int| 0 <= k < gamma ==> #[trigger] row_made6(sop@[k]@, suop@[k]@, bits@[k], l as nat, precom_view(precom@), m_cis@, scalar_rows(ys@), k)
        },
{
    let ghost pv = precom_view(precom@);
    let ghost yr = scalar_rows(ys@);
    let mut sop: Vec<Vec<SopUnitFig6>> = Vec::new();
    let mut suop: Vec<Vec<SuopUnitFig6>> = Vec::new();
    let mut k: usize = 0;
    while k < gamma
        invariant
            k <= gamma,
            gamma <= 256,
            bits@.len() == 256,
            pv == precom_view(precom@),
            yr == scalar_rows(ys@),
            precom_ok(pv, l as nat, gamma as nat),
            m_cis@.len() >= l,
            forall|t: int| 0 <= t < l ==> (#[trigger] m_cis@[t])@.len() >= gamma,
            forall|t: int, k2: int| 0 <= t < l && 0 <= k2 < gamma ==> (#[trigger] m_cis@[t]@[k2]).wf(),
            triangle_ok(yr, l as nat, false),
            sop@.len() == k,
            suop@.len() == k,
            forall|k2: int| 0 <= k2 < k ==> #[trigger] row_made6(sop@[k2]@, suop@[k2]@, bits@[k2], l as nat, pv, m_cis@, yr, k2),
            forall|k2: int| 0 <= k2 < k && !bits@[k2] ==> !#[trigger] row_degenerate6(l as nat, pv, yr, k2),
        decreases gamma - k,
    {
        proof {
            assert forall|t: int| 0 <= t < l implies k < (#[trigger] precom@[t])@.len() && precom@[t]@[k as int].wf() by {
                assert(pv[t] == precom@[t]@);
                assert(pv[t][k as int] == precom@[t]@[k as int]);
            }
            assert forall|t: int| 0 <= t < l implies k < (#[trigger] m_cis@[t])@.len() && m_cis@[t]@[k as int].wf() by {
                assert(m_cis@[t]@[k as int].wf());
            }
        }
        match fig6_units_row(l, k, bits[k], precom, m_cis, ys) {
            Some((sop_row, suop_row)) => {
                sop.push(sop_row);
                suop.push(suop_row);
                proof {
                    assert(sop@[k as int]@ == sop_row@);
                    assert(suop@[k as int]@ == suop_row@);
                }
            },
            None => {
                return None;
            },
        }
        k = k + 1;
    }
    Some((sop, suop))
}

impl CVESCiphertextFig6 {
    /// The challenge bits of the cut-and-choose proof: they hash the
    /// ciphertexts and commitments of the last state, its first one-time
    /// pad, pad and pre-signature, and the statements of the last state but
    /// one and of the initial state.
    #[verifier::opaque]
    pub open spec fn bits(&self) -> Seq<bool> {
        let l = self.tx@.len();
        bits_of(sha256_digest(challenge_data(
            self.m_cis@[l - 1]@,
            self.m_ri_pub@[l - 1]@,
            self.c_omega@[l - 1]@[0],
            self.x@[l - 1],
            self.x@[0],
            self.y_pub@[l - 1]@[0],
            self.sigma_tilde@[l - 1]@[0],
        )))
    }
}

/// What `enc_cs_from_precom_with` makes: `c` encrypts the witness of each
/// state `t + 1` for the transition from each earlier state `j`, under the
/// oracle key `pk` and the first `t + 1` attestations, with the
/// precomputations `pv`, the pads `ys` and the pre-signature nonces `ks` of
/// the key pair `kp` on the payments `tx`.
pub open spec fn fig6_made(
    c: CVESCiphertextFig6,
    gamma: nat,
    pk: G1Point,
    w: Seq<ChainScalar>,
    m: Seq<Seq<char>>,
    kp: SchnorrPair,
    tx: Seq<Seq<char>>,
    pv: Seq<Seq<PreComp>>,
    ys: Seq<Seq<ChainScalar>>,
    ks: Seq<Seq<ChainScalar>>,
) -> bool {
    let l = tx.len();
    let bits = c.bits();
    &&& c.m_cis@.len() == l
    &&& c.m_ri_pub@.len() == l
    &&& forall|i: int| #![trigger c.m_cis@[i]] #![trigger c.m_ri_pub@[i]] 0 <= i < l
        ==> c.m_cis@[i]@.len() == gamma && c.m_ri_pub@[i]@.len() == gamma
    &&& forall|i: int, j: int| 0 <= i < l && 0 <= j < gamma ==> cell_made(
        #[trigger] c.m_cis@[i]@[j],
        pv[i][j],
        prefix_log(pk.bytes@, m, i + 1),
    )
    &&& forall|i: int, j: int| 0 <= i < l && 0 <= j < gamma ==> (#[trigger] c.m_ri_pub@[i]@[j]) == pv[i][j].ri_pub
    &&& c.x@.len() == w.len()
    &&& forall|t: int| 0 <= t < w.len() ==> is_multiple((#[trigger] c.x@[t]).bytes@, w[t].value())
    &&& c.y_pub@.len() == l
    &&& c.sigma_tilde@.len() == l
    &&& c.c_omega@.len() == l
    &&& forall|t: int| #![trigger c.y_pub@[t]] #![trigger c.sigma_tilde@[t]] #![trigger c.c_omega@[t]] 0 <= t < l
        ==> c.y_pub@[t]@.len() == t + 1 && c.sigma_tilde@[t]@.len() == t + 1 && c.c_omega@[t]@.len() == t + 1
    &&& forall|t: int, j: int| 0 <= j <= t < l ==> #[trigger] fig6_pad_made(
        c.y_pub@[t]@[j], c.sigma_tilde@[t]@[j], c.c_omega@[t]@[j], w[j], w[t + 1], kp, tx[t], ys[t][j], ks[t][j])
    &&& c.sop@.len() == gamma
    &&& c.suop@.len() == gamma
    &&& forall|k: int| 0 <= k < gamma ==> #[trigger] row_made6(c.sop@[k]@, c.suop@[k]@, bits[k], l, pv, c.m_cis@, ys, k)
    &&& strings_view(c.m@) == m
    &&& c.pk == pk
    &&& strings_view(c.tx@) == tx
    &&& c.vk.bytes@ == kp.public()
}

/// What encrypting with the pads `ys` and the nonces `ks` returns:
/// `ZeroScalar` where a transition's pad or
/// pre-signature meets a zero, or where an unopened unit does; a ciphertext
/// made as `fig6_made` says where none does.
pub open spec fn fig6_enc_result(
    res: Result<CVESCiphertextFig6, CvesError>,
    gamma: nat,
    pk: G1Point,
    w: Seq<ChainScalar>,
    m: Seq<String>,
    kp: SchnorrPair,
    tx: Seq<String>,
    pv: Seq<Seq<PreComp>>,
    ys: Seq<Seq<ChainScalar>>,
    ks: Seq<Seq<ChainScalar>>,
) -> bool {
    let l = tx.len();
    let state_deg = exists|t: int, j: int| 0 <= j <= t < l && #[trigger] fig6_degenerate(w, kp, strings_view(tx), ys, ks, t, j);
    let row_deg = exists|k: int| 0 <= k < gamma && #[trigger] row_degenerate6(l, pv, ys, k);
    &&& res matches Ok(c) ==> fig6_made(c, gamma, pk, w, strings_view(m), kp, strings_view(tx), pv, ys, ks)
    &&& res is Err ==> res == Err::<CVESCiphertextFig6, CvesError>(CvesError::ZeroScalar)
    &&& res == Err::<CVESCiphertextFig6, CvesError>(CvesError::ZeroScalar) ==> state_deg || row_deg
    &&& state_deg ==> res == Err::<CVESCiphertextFig6, CvesError>(CvesError::ZeroScalar)
    &&& !state_deg && !row_deg ==> res is Ok
}

impl CVESCiphertextFig6 {
    /// Draws `l` rows of precomputations of `gamma` WES ciphertexts.
    pub fn precompute(gamma: usize, l: usize) -> (vprecom: Vec<Vec<PreComp>>)
        ensures
            vprecom@.len() == l,
            forall|i: int| 0 <= i < l ==> (#[trigger] vprecom@[i])@.len() == gamma,
            forall|i: int, j: int| 0 <= i < l && 0 <= j < gamma ==> (#[trigger] vprecom@[i]@[j]).honest(),
    {
        let mut vprecom: Vec<Vec<PreComp>> = Vec::new();
        let mut i: usize = 0;
        while i < l
            invariant
                i <= l,
                vprecom@.len() == i,
                forall|t: int| 0 <= t < i ==> (#[trigger] vprecom@[t])@.len() == gamma,
                forall|t: int, j: int| 0 <= t < i && 0 <= j < gamma ==> (#[trigger] vprecom@[t]@[j]).honest(),
            decreases l - i,
        {
            vprecom.push(CVESCiphertextFig5::precompute(gamma));
            i = i + 1;
        }
        vprecom
    }

    /// Encrypts the witness of each state for each transition to it with the
    /// precomputations, the pads `ys` and the pre-signature nonces `ks`.
    pub fn enc_cs_from_precom_with(
        gamma: usize,
        pk: G1Point,
        w: Vec<ChainScalar>,
        m: Vec<String>,
        a_kp: SchnorrPair,
        tx: Vec<String>,
        precom: &Vec<Vec<PreComp>>,
        ys: &Vec<Vec<ChainScalar>>,
        ks: &Vec<Vec<ChainScalar>>,
    ) -> (res: Result<CVESCiphertextFig6, CvesError>)
        requires
            gamma <= 256,
            pk.wf(),
            a_kp.wf(),
            m@.len() == tx@.len(),
            w@.len() == tx@.len() + 1,
            tx@.len() >= 1,
            forall|t: int| 0 <= t < w@.len() ==> (#[trigger] w@[t]).wf(),
            precom_ok(precom_view(precom@), tx@.len(), gamma as nat),
            triangle_ok(scalar_rows(ys@), tx@.len(), false),
            triangle_ok(scalar_rows(ks@), tx@.len(), true),
        ensures
            fig6_enc_result(res, gamma as nat, pk, w@, m@, a_kp, tx@, precom_view(precom@), scalar_rows(ys@), scalar_rows(ks@)),
    {
        let vk = a_kp.public_key();
        let l_tx = tx.len();
        let (m_cis, m_ri_pub) = in_rows(gamma, l_tx, &pk, &m, precom);
        let (y_pub, sigma_tilde, c_omega) = match fig6_pads(l_tx, &w, &a_kp, &tx, ys, ks) {
            Some(p) => p,
            None => return Err(CvesError::ZeroScalar),
        };
        let x = statements(&w);
        let last: usize = l_tx - 1;
        let bits = hash_to_bits(
            &m_cis[last],
            m_ri_pub[last].clone(),
            c_omega[last][0],
            x[last],
            x[0],
            y_pub[last][0],
            &sigma_tilde[last][0],
        );
        let (sop, suop) = match fig6_units(gamma, l_tx, precom, &m_cis, &bits, ys) {
            Some(u) => u,
            None => return Err(CvesError::ZeroScalar),
        };
        let c = CVESCiphertextFig6 { m_cis, c_omega, sop, suop, m_ri_pub, x, y_pub, sigma_tilde, m, pk, tx, vk };
        assert(c.bits() == bits@) by {
            reveal(CVESCiphertextFig6::bits);
        }
        assert(strings_view(c.tx@) == strings_view(tx@));
        Ok(c)
    }

    /// Encrypts the witness of each state for each transition to it with the
    /// precomputations and a fresh pad and pre-signature nonce for each
    /// transition.
    pub fn enc_cs_from_precom(
        gamma: usize,
        pk: G1Point,
        w: Vec<ChainScalar>,
        m: Vec<String>,
        a_kp: SchnorrPair,
        tx: Vec<String>,
        precom: &Vec<Vec<PreComp>>,
    ) -> (res: Result<CVESCiphertextFig6, CvesError>)
        requires
            gamma <= 256,
            pk.wf(),
            a_kp.wf(),
            m@.len() == tx@.len(),
            w@.len() == tx@.len() + 1,
            tx@.len() >= 1,
            forall|t: int| 0 <= t < w@.len() ==> (#[trigger] w@[t]).wf(),
            precom_ok(precom_view(precom@), tx@.len(), gamma as nat),
        ensures
            exists|ys: Seq<Seq<ChainScalar>>, ks: Seq<Seq<ChainScalar>>| {
                &&& triangle_ok(ys, tx@.len(), true)
                &&& triangle_ok(ks, tx@.len(), true)
                &&& #[trigger] fig6_enc_result(res, gamma as nat, pk, w@, m@, a_kp, tx@, precom_view(precom@), ys, ks)
            },
    {
        let n: usize = tx.len();
        let ys = sample_triangle(n);
        let ks = sample_triangle(n);
        let res = CVESCiphertextFig6::enc_cs_from_precom_with(gamma, pk, w, m, a_kp, tx, precom, &ys, &ks);
        assert(fig6_enc_result(res, gamma as nat, pk, w@, m@, a_kp, tx@, precom_view(precom@), scalar_rows(ys@), scalar_rows(ks@)));
        res
    }
}

impl CVESCiphertextFig6 {
    /// Every part is canonical or a group element, the lists cover the
    /// transitions of the payments `tx` (at least one), and each unit's
    /// position and state index the ciphertexts, commitments and pads.
    pub open spec fn wf(&self) -> bool {
        let l = self.tx@.len();
        &&& l >= 1
        &&& self.m@.len() >= l
        &&& self.x@.len() > l
        &&& self.c_omega@.len() >= l
        &&& self.y_pub@.len() >= l
        &&& self.sigma_tilde@.len() >= l
        &&& forall|t: int| #![trigger self.c_omega@[t]] #![trigger self.y_pub@[t]] #![trigger self.sigma_tilde@[t]] 0 <= t < l
            ==> self.c_omega@[t]@.len() > t && self.y_pub@[t]@.len() > t && self.sigma_tilde@[t]@.len() > t
        &&& self.m_cis@.len() >= l
        &&& self.m_ri_pub@.len() >= l
        &&& self.pk.wf()
        &&& self.vk.wf()
        &&& forall|t: int, j: int| 0 <= t < self.c_omega@.len() && 0 <= j < self.c_omega@[t]@.len() ==> (#[trigger] self.c_omega@[t]@[j]).wf()
        &&& forall|t: int, j: int| 0 <= t < self.y_pub@.len() && 0 <= j < self.y_pub@[t]@.len() ==> (#[trigger] self.y_pub@[t]@[j]).wf()
        &&& forall|t: int, j: int| 0 <= t < self.sigma_tilde@.len() && 0 <= j < self.sigma_tilde@[t]@.len() ==> (#[trigger] self.sigma_tilde@[t]@[j]).wf()
        &&& forall|t: int| 0 <= t < self.x@.len() ==> (#[trigger] self.x@[t]).wf()
        &&& forall|i: int, j: int| 0 <= i < self.m_cis@.len() && 0 <= j < self.m_cis@[i]@.len() ==> (#[trigger] self.m_cis@[i]@[j]).wf()
        &&& forall|i: int, j: int| 0 <= i < self.m_ri_pub@.len() && 0 <= j < self.m_ri_pub@[i]@.len() ==> (#[trigger] self.m_ri_pub@[i]@[j]).wf()
        &&& forall|k: int, t: int| 0 <= k < self.sop@.len() && 0 <= t < self.sop@[k]@.len() ==> {
            let u = #[trigger] self.sop@[k]@[t];
            &&& 1 <= u.j <= l
            &&& u.i < self.m_cis@[u.j - 1]@.len()
            &&& u.ri.wf()
            &&& u.rho.0.wf()
            &&& u.rho.1.wf()
        }
        &&& forall|k: int, t: int| 0 <= k < self.suop@.len() && 0 <= t < self.suop@[k]@.len() ==> {
            let u = #[trigger] self.suop@[k]@[t];
            &&& 1 <= u.j <= l
            &&& u.i < self.m_ri_pub@[u.j - 1]@.len()
            &&& u.si@.len() + 1 >= u.j
            &&& forall|q: int| 0 <= q < u.si@.len() ==> (#[trigger] u.si@[q]).wf()
            &&& u.ci.wf()
        }
    }

    /// The one-time pad of the transition from state `j` to state `t + 1`
    /// matches the statements: `c_omega G = X_j + Y + X_(t+1)`, partial sums
    /// not zero.
    pub open spec fn pad_enc_ok(&self, t: int, j: int) -> bool {
        let lx = chain_log(self.x@[j].bytes@);
        let lw = chain_log(self.x@[t + 1].bytes@);
        let ly = chain_log(self.y_pub@[t]@[j].bytes@);
        let s1 = (lx + ly) % secp_order();
        &&& s1 != 0
        &&& (s1 + lw) % secp_order() != 0
        &&& self.c_omega@[t]@[j].value() == (s1 + lw) % secp_order()
    }

    /// The pre-signature of the transition from state `j` to state `t + 1`
    /// verifies for `Y + X_j`.
    pub open spec fn pad_presig_ok(&self, t: int, j: int) -> bool {
        let lx = chain_log(self.x@[j].bytes@);
        let ly = chain_log(self.y_pub@[t]@[j].bytes@);
        let v = (ly + lx) % secp_order();
        &&& v != 0
        &&& pre_verify_spec(self.vk.bytes@, self.tx@[t]@, self.sigma_tilde@[t]@[j].s.value(), self.sigma_tilde@[t]@[j].r.value(), v)
    }

    /// The transition from state `j` to state `t + 1` checks out.
    pub open spec fn pad_ok(&self, t: int, j: int) -> bool {
        self.pad_enc_ok(t, j) && self.pad_presig_ok(t, j)
    }

    /// Every transition before the one from `j` to `t + 1`, row by row,
    /// checks out.
    pub open spec fn pads_ok_before(&self, t: int, j: int) -> bool {
        forall|t2: int, j2: int| (0 <= j2 <= t2 < t || (t2 == t && 0 <= j2 < j)) ==> #[trigger] self.pad_ok(t2, j2)
    }

    /// The opened unit `u` gives its ciphertext from its secret and coins.
    pub open spec fn sop_unit_ok(&self, u: SopUnitFig6) -> bool {
        self.m_cis@[u.j - 1]@[u.i as int].encrypts(
            prefix_log(self.pk.bytes@, strings_view(self.m@), u.j as int),
            u.ri.bytes@,
            u.rho.0.value(),
            u.rho.1@,
        )
    }

    /// The shifted secret of the unopened unit `u` for state `q` is the
    /// logarithm of the pad of that state plus that of the unit's
    /// commitment, which is not zero.
    pub open spec fn suop_entry_ok(&self, u: SuopUnitFig6, q: int) -> bool {
        let v = (chain_log(self.y_pub@[u.j - 1]@[q].bytes@) + chain_log(self.m_ri_pub@[u.j - 1]@[u.i as int].bytes@)) % secp_order();
        &&& v != 0
        &&& u.si@[q].value() == v
    }

    /// The shifted secrets of the unopened unit `u` for the states before
    /// its own but one check out.
    pub open spec fn suop_unit_ok(&self, u: SuopUnitFig6) -> bool {
        forall|q: int| 0 <= q < u.j - 1 ==> #[trigger] self.suop_entry_ok(u, q)
    }

    /// Every unit at a position below `gamma` checks out: the opened ones
    /// at a set bit, the unopened ones at a clear bit.
    pub open spec fn cut_and_choose_ok(&self, gamma: nat) -> bool {
        &&& forall|k: int, t: int| 0 <= k < self.sop@.len() && 0 <= t < self.sop@[k]@.len() ==> {
            let u = #[trigger] self.sop@[k]@[t];
            u.i < gamma && self.bits()[u.i as int] ==> self.sop_unit_ok(u)
        }
        &&& forall|k: int, t: int| 0 <= k < self.suop@.len() && 0 <= t < self.suop@[k]@.len() ==> {
            let u = #[trigger] self.suop@[k]@[t];
            u.i < gamma && !self.bits()[u.i as int] ==> self.suop_unit_ok(u)
        }
    }

    /// What verification returns: `Ok` exactly where every transition and
    /// every unit below `gamma` checks out; otherwise the error of the first
    /// transition that fails, row by row (`InvalidEncryption` for its
    /// one-time pad, `InvalidPresignature` for its pre-signature), and
    /// `InvalidCutAndChoose` where only the units fail.
    pub open spec fn verify_result(&self, res: Result<(), CvesError>, gamma: nat) -> bool {
        let l = self.tx@.len() as int;
        &&& res is Ok <==> self.pads_ok_before(l, 0) && self.cut_and_choose_ok(gamma)
        &&& res == Err::<(), CvesError>(CvesError::InvalidEncryption) <==> exists|t: int, j: int|
            0 <= j <= t < l && self.pads_ok_before(t, j) && !#[trigger] self.pad_enc_ok(t, j)
        &&& res == Err::<(), CvesError>(CvesError::InvalidPresignature) <==> exists|t: int, j: int|
            0 <= j <= t < l && self.pads_ok_before(t, j) && self.pad_enc_ok(t, j) && !#[trigger] self.pad_presig_ok(t, j)
        &&& res == Err::<(), CvesError>(CvesError::InvalidCutAndChoose) <==> self.pads_ok_before(l, 0)
            && !self.cut_and_choose_ok(gamma)
    }

    /// Verifies the ciphertext: for each transition, row by row, the
    /// one-time pad and the pre-signature under `vk`; then the units of the
    /// cut-and-choose proof at the positions below `gamma`. The first
    /// transition that fails gives the error.
    pub fn verify(&self, gamma: usize) -> (res: Result<(), CvesError>)
        requires
            self.wf(),
            gamma <= 256,
        ensures
            self.verify_result(res, gamma as nat),
            res is Ok ==> forall|k: int, t: int| 0 <= k < self.sop@.len() && 0 <= t < self.sop@[k]@.len()
                && (#[trigger] self.sop@[k]@[t]).i < gamma as nat && self.bits()[self.sop@[k]@[t].i as int]
                ==> self.m_cis@[self.sop@[k]@[t].j - 1]@[self.sop@[k]@[t].i as int].encrypts(
                    (crate::curve::g1_log(self.pk.bytes@) * hash_sum(strings_view(self.m@).take(self.sop@[k]@[t].j as int)))
                        % bls_order(),
                    self.sop@[k]@[t].ri.bytes@, self.sop@[k]@[t].rho.0.value(), self.sop@[k]@[t].rho.1@),
    {
        let l_tx = self.tx.len();
        let last: usize = l_tx - 1;
        let bits = hash_to_bits(
            &self.m_cis[last],
            self.m_ri_pub[last].clone(),
            self.c_omega[last][0],
            self.x[last],
            self.x[0],
            self.y_pub[last][0],
            &self.sigma_tilde[last][0],
        );
        assert(bits@ == self.bits()) by {
            reveal(CVESCiphertextFig6::bits);
        }
        let mut t: usize = 0;
        while t < l_tx
            invariant
                self.wf(),
                l_tx == self.tx@.len(),
                t <= l_tx,
                self.pads_ok_before(t as int, 0),
            decreases l_tx - t,
        {
            let mut j: usize = 0;
            while j <= t
                invariant
                    self.wf(),
                    l_tx == self.tx@.len(),
                    t < l_tx,
                    j <= t + 1,
                    self.pads_ok_before(t as int, j as int),
                decreases t + 1 - j,
            {
                match self.check_pad(t, j) {
                    Ok(()) => {
                        proof {
                            self.lemma_pads_ok_step(t as int, j as int);
                        }
                    },
                    Err(e) => {
                        proof {
                            self.lemma_first_bad_pad(t as int, j as int, e, gamma as nat);
                        }
                        return Err(e);
                    },
                }
                j = j + 1;
            }
            proof {
                self.lemma_pads_ok_row(t as int);
            }
            t = t + 1;
        }
        proof {
            self.lemma_all_pads_ok();
        }
        let pairs = prefix_elements(&self.pk, &self.m, l_tx);
        if !self.check_units(gamma, &bits, &pairs) {
            return Err(CvesError::InvalidCutAndChoose);
        }
        proof {
            lemma_fig6_verified_opened(*self, gamma as nat, Ok(()));
        }
        Ok(())
    }

    /// One more transition that checks out extends the checked prefix.
    proof fn lemma_pads_ok_step(&self, t: int, j: int)
        requires
            self.pads_ok_before(t, j),
            self.pad_enc_ok(t, j) && self.pad_presig_ok(t, j),
        ensures
            self.pads_ok_before(t, j + 1),
    {
        assert forall|t2: int, j2: int| (0 <= j2 <= t2 < t || (t2 == t && 0 <= j2 < j + 1)) implies #[trigger] self.pad_ok(t2, j2) by {
            if t2 == t && j2 == j {
            } else {
                assert(self.pad_ok(t2, j2));
            }
        }
    }

    /// A full row of transitions that check out moves the checked prefix
    /// to the next row.
    proof fn lemma_pads_ok_row(&self, t: int)
        requires
            self.pads_ok_before(t, t + 1),
        ensures
            self.pads_ok_before(t + 1, 0),
    {
        assert forall|t2: int, j2: int| (0 <= j2 <= t2 < t + 1 || (t2 == t + 1 && 0 <= j2 < 0)) implies #[trigger] self.pad_ok(t2, j2) by {
            assert(0 <= j2 <= t2 < t || (t2 == t && 0 <= j2 < t + 1));
        }
    }

    /// Where every transition checks out, none fails.
    proof fn lemma_all_pads_ok(&self)
        requires
            self.pads_ok_before(self.tx@.len() as int, 0),
        ensures
            forall|t: int, j: int| 0 <= j <= t < self.tx@.len() ==> #[trigger] self.pad_enc_ok(t, j),
            forall|t: int, j: int| 0 <= j <= t < self.tx@.len() ==> #[trigger] self.pad_presig_ok(t, j),
    {
        assert forall|t: int, j: int| 0 <= j <= t < self.tx@.len() implies #[trigger] self.pad_enc_ok(t, j) by {
            assert(self.pad_ok(t, j));
        }
        assert forall|t: int, j: int| 0 <= j <= t < self.tx@.len() implies #[trigger] self.pad_presig_ok(t, j) by {
            assert(self.pad_ok(t, j));
        }
    }

    /// The first transition that fails gives verification its error.
    proof fn lemma_first_bad_pad(&self, t: int, j: int, e: CvesError, gamma: nat)
        requires
            0 <= j <= t < self.tx@.len(),
            self.pads_ok_before(t, j),
            e == CvesError::InvalidEncryption <==> !self.pad_enc_ok(t, j),
            e == CvesError::InvalidPresignature <==> self.pad_enc_ok(t, j) && !self.pad_presig_ok(t, j),
            e == CvesError::InvalidEncryption || e == CvesError::InvalidPresignature,
        ensures
            self.verify_result(Err(e), gamma),
    {
        let l = self.tx@.len() as int;
        assert forall|t2: int, j2: int| 0 <= j2 <= t2 < l && self.pads_ok_before(t2, j2) && !#[trigger] self.pad_ok(t2, j2)
            implies t2 == t && j2 == j by {
            if t2 < t || (t2 == t && j2 < j) {
                assert(self.pad_ok(t2, j2));
            } else if t2 > t || (t2 == t && j2 > j) {
                assert(self.pad_ok(t, j));
            }
        }
        assert(!self.pads_ok_before(l, 0)) by {
            assert(!self.pad_ok(t, j));
        }
        if e == CvesError::InvalidEncryption {
            assert(0 <= j <= t < l && self.pads_ok_before(t, j) && !self.pad_enc_ok(t, j));
            assert forall|t2: int, j2: int| 0 <= j2 <= t2 < l && self.pads_ok_before(t2, j2) && self.pad_enc_ok(t2, j2)
                implies #[trigger] self.pad_presig_ok(t2, j2) by {
                if !self.pad_presig_ok(t2, j2) {
                    assert(!self.pad_ok(t2, j2));
                }
            }
        } else {
            assert(0 <= j <= t < l && self.pads_ok_before(t, j) && self.pad_enc_ok(t, j) && !self.pad_presig_ok(t, j));
            assert forall|t2: int, j2: int| 0 <= j2 <= t2 < l && self.pads_ok_before(t2, j2)
                implies #[trigger] self.pad_enc_ok(t2, j2) by {
                if !self.pad_enc_ok(t2, j2) {
                    assert(!self.pad_ok(t2, j2));
                }
            }
        }
    }

    /// Checks the one-time pad and the pre-signature of the transition from
    /// state `j` to state `t + 1`.
    fn check_pad(&self, t: usize, j: usize) -> (res: Result<(), CvesError>)
        requires
            self.wf(),
            j <= t < self.tx@.len(),
        ensures
            res is Ok <==> self.pad_enc_ok(t as int, j as int) && self.pad_presig_ok(t as int, j as int),
            res == Err::<(), CvesError>(CvesError::InvalidEncryption) <==> !self.pad_enc_ok(t as int, j as int),
            res == Err::<(), CvesError>(CvesError::InvalidPresignature) <==> self.pad_enc_ok(t as int, j as int)
                && !self.pad_presig_ok(t as int, j as int),
    {
        let n_x: usize = self.x.len();
        assert(t + 1 < n_x);
        let c_omega_ij = &self.c_omega[t][j];
        let xw = &self.x[t + 1];
        let xa = &self.x[j];
        let y1 = &self.y_pub[t][j];
        let gc_omega = chain_base_mul(c_omega_ij);
        let check = chain_point_add(xa, y1);
        let ghost s1 = (chain_log(xa.bytes@) + chain_log(y1.bytes@)) % secp_order();
        proof {
            lemma_chain_only(check.bytes@, s1, check.bytes@, s1);
        }
        if check.is_zero() {
            return Err(CvesError::InvalidEncryption);
        }
        let check = chain_point_add(&check, xw);
        let ghost s2 = (s1 + chain_log(xw.bytes@)) % secp_order();
        proof {
            lemma_chain_only(check.bytes@, s2, gc_omega.bytes@, c_omega_ij.value());
        }
        if check.is_zero() {
            return Err(CvesError::InvalidEncryption);
        }
        if !gc_omega.equals(&check) {
            return Err(CvesError::InvalidEncryption);
        }
        let y_tilde_pub = chain_point_add(y1, xa);
        let ghost v = (chain_log(y1.bytes@) + chain_log(xa.bytes@)) % secp_order();
        proof {
            lemma_chain_only(y_tilde_pub.bytes@, v, y_tilde_pub.bytes@, v);
        }
        if y_tilde_pub.is_zero() {
            return Err(CvesError::InvalidPresignature);
        }
        if !pre_verify(self.vk, self.tx[t].as_str(), &self.sigma_tilde[t][j], &y_tilde_pub) {
            return Err(CvesError::InvalidPresignature);
        }
        Ok(())
    }

    /// Checks every unit of the cut-and-choose proof at a position below
    /// `gamma`.
    fn check_units(&self, gamma: usize, bits: &Vec<bool>, pairs: &Vec<GtElem>) -> (ok: bool)
        requires
            self.wf(),
            gamma <= 256,
            bits@ == self.bits(),
            bits@.len() == 256,
            pairs@.len() == self.tx@.len(),
            forall|t: int| 0 <= t < self.tx@.len() ==> gt_only((#[trigger] pairs@[t])@, prefix_log(self.pk.bytes@, strings_view(self.m@), t + 1))
                && pairs@[t].wf(),
        ensures
            ok == self.cut_and_choose_ok(gamma as nat),
    {
        let mut k: usize = 0;
        while k < self.sop.len()
            invariant
                self.wf(),
                gamma <= 256,
                bits@ == self.bits(),
                bits@.len() == 256,
                pairs@.len() == self.tx@.len(),
                forall|t: int| 0 <= t < self.tx@.len() ==> gt_only((#[trigger] pairs@[t])@, prefix_log(self.pk.bytes@, strings_view(self.m@), t + 1))
                    && pairs@[t].wf(),
                k <= self.sop@.len(),
                forall|k2: int, t: int| 0 <= k2 < k && 0 <= t < self.sop@[k2]@.len() ==> {
                    let u = #[trigger] self.sop@[k2]@[t];
                    u.i < gamma && self.bits()[u.i as int] ==> self.sop_unit_ok(u)
                },
            decreases self.sop@.len() - k,
        {
            let mut t: usize = 0;
            while t < self.sop[k].len()
                invariant
                    self.wf(),
                    gamma <= 256,
                    bits@ == self.bits(),
                    bits@.len() == 256,
                    pairs@.len() == self.tx@.len(),
                    forall|t2: int| 0 <= t2 < self.tx@.len() ==> gt_only((#[trigger] pairs@[t2])@, prefix_log(self.pk.bytes@, strings_view(self.m@), t2 + 1))
                        && pairs@[t2].wf(),
                    k < self.sop@.len(),
                    t <= self.sop@[k as int]@.len(),
                    forall|k2: int, t2: int| 0 <= k2 < k && 0 <= t2 < self.sop@[k2]@.len() ==> {
                        let u = #[trigger] self.sop@[k2]@[t2];
                        u.i < gamma && self.bits()[u.i as int] ==> self.sop_unit_ok(u)
                    },
                    forall|t2: int| 0 <= t2 < t ==> {
                        let u = #[trigger] self.sop@[k as int]@[t2];
                        u.i < gamma && self.bits()[u.i as int] ==> self.sop_unit_ok(u)
                    },
                decreases self.sop@[k as int]@.len() - t,
            {
                let u = &self.sop[k][t];
                if u.i < gamma && bits[u.i] {
                    let my_pair = &pairs[u.j - 1];
                    proof {
                        crate::curve::lemma_gt_only(my_pair@, prefix_log(self.pk.bytes@, strings_view(self.m@), u.j as int), my_pair@, prefix_log(self.pk.bytes@, strings_view(self.m@), u.j as int));
                    }
                    let r = self.m_cis[u.j - 1][u.i].copy().reconstruct_vector_m(my_pair, u.ri, u.rho.0, &u.rho.1);
                    if r.is_err() {
                        return false;
                    }
                }
                t = t + 1;
            }
            k = k + 1;
        }
        let mut k: usize = 0;
        while k < self.suop.len()
            invariant
                self.wf(),
                gamma <= 256,
                bits@ == self.bits(),
                bits@.len() == 256,
                k <= self.suop@.len(),
                forall|k2: int, t: int| 0 <= k2 < self.sop@.len() && 0 <= t < self.sop@[k2]@.len() ==> {
                    let u = #[trigger] self.sop@[k2]@[t];
                    u.i < gamma && self.bits()[u.i as int] ==> self.sop_unit_ok(u)
                },
                forall|k2: int, t: int| 0 <= k2 < k && 0 <= t < self.suop@[k2]@.len() ==> {
                    let u = #[trigger] self.suop@[k2]@[t];
                    u.i < gamma && !self.bits()[u.i as int] ==> self.suop_unit_ok(u)
                },
            decreases self.suop@.len() - k,
        {
            let mut t: usize = 0;
            while t < self.suop[k].len()
                invariant
                    self.wf(),
                    gamma <= 256,
                    bits@ == self.bits(),
                    bits@.len() == 256,
                    k < self.suop@.len(),
                    t <= self.suop@[k as int]@.len(),
                    forall|k2: int, t2: int| 0 <= k2 < self.sop@.len() && 0 <= t2 < self.sop@[k2]@.len() ==> {
                        let u = #[trigger] self.sop@[k2]@[t2];
                        u.i < gamma && self.bits()[u.i as int] ==> self.sop_unit_ok(u)
                    },
                    forall|k2: int, t2: int| 0 <= k2 < k && 0 <= t2 < self.suop@[k2]@.len() ==> {
                        let u = #[trigger] self.suop@[k2]@[t2];
                        u.i < gamma && !self.bits()[u.i as int] ==> self.suop_unit_ok(u)
                    },
                    forall|t2: int| 0 <= t2 < t ==> {
                        let u = #[trigger] self.suop@[k as int]@[t2];
                        u.i < gamma && !self.bits()[u.i as int] ==> self.suop_unit_ok(u)
                    },
                decreases self.suop@[k as int]@.len() - t,
            {
                let u = &self.suop[k][t];
                if u.i < gamma && !bits[u.i] {
                    if !self.check_suop_unit(u) {
                        return false;
                    }
                }
                t = t + 1;
            }
            k = k + 1;
        }
        true
    }

    /// Checks the shifted secrets of an unopened unit.
    fn check_suop_unit(&self, u: &SuopUnitFig6) -> (ok: bool)
        requires
            self.wf(),
            1 <= u.j <= self.tx@.len(),
            u.i < self.m_ri_pub@[u.j - 1]@.len(),
            u.si@.len() + 1 >= u.j,
            forall|q: int| 0 <= q < u.si@.len() ==> (#[trigger] u.si@[q]).wf(),
        ensures
            ok == self.suop_unit_ok(*u),
    {
        let ri_pub = &self.m_ri_pub[u.j - 1][u.i];
        let mut q: usize = 0;
        while q < u.j - 1
            invariant
                self.wf(),
                1 <= u.j <= self.tx@.len(),
                u.i < self.m_ri_pub@[u.j - 1]@.len(),
                u.si@.len() + 1 >= u.j,
                forall|q2: int| 0 <= q2 < u.si@.len() ==> (#[trigger] u.si@[q2]).wf(),
                *ri_pub == self.m_ri_pub@[u.j - 1]@[u.i as int],
                q <= u.j - 1,
                forall|q2: int| 0 <= q2 < q ==> #[trigger] self.suop_entry_ok(*u, q2),
            decreases u.j - 1 - q,
        {
            let si = &u.si[q];
            let gs = chain_base_mul(si);
            let y_pub_ij = &self.y_pub[u.j - 1][q];
            let check = chain_point_add(y_pub_ij, ri_pub);
            let ghost v = (chain_log(y_pub_ij.bytes@) + chain_log(ri_pub.bytes@)) % secp_order();
            proof {
                lemma_chain_only(check.bytes@, v, gs.bytes@, si.value());
            }
            assert(*y_pub_ij == self.y_pub@[u.j - 1]@[q as int]);
            if check.is_zero() {
                assert(!self.suop_entry_ok(*u, q as int));
                return false;
            }
            if !check.equals(&gs) {
                assert(!self.suop_entry_ok(*u, q as int));
                return false;
            }
            assert(self.suop_entry_ok(*u, q as int));
            q = q + 1;
        }
        true
    }
}

/// The first unopened unit of state `state`, row by row, from unit `t` of
/// row `k` on.
pub open spec fn fig6_find(rows: Seq<Seq<SuopUnitFig6>>, k: int, t: int, state: nat) -> Option<SuopUnitFig6>
    decreases rows.len() - k, (if 0 <= k < rows.len() { rows[k].len() - t } else { 0 }),
{
    if k < 0 || k >= rows.len() {
        None
    } else if t < 0 || t >= rows[k].len() {
        fig6_find(rows, k + 1, 0, state)
    } else if rows[k][t].j == state {
        Some(rows[k][t])
    } else {
        fig6_find(rows, k, t + 1, state)
    }
}

impl CVESCiphertextFig6 {
    /// The rows of unopened units as sequences.
    pub open spec fn suop_rows(&self) -> Seq<Seq<SuopUnitFig6>> {
        self.suop@.map_values(|row: Vec<SuopUnitFig6>| row@)
    }

    /// What decrypting the transition from state `origin` to state
    /// `state + 1` with a signature of logarithm `sig_log` and the origin
    /// witness `wa` gives: `WitnessMismatch` where `wa` is not the witness
    /// of the origin; else the outcome of the first unopened unit of the
    /// new state, with its shifted secret for the origin;
    /// `DecryptionFailed` where there is none.
    pub open spec fn dec_spec(&self, sig_log: nat, wa: nat, origin: nat, state: nat) -> Result<(nat, (nat, nat)), CvesError> {
        if chain_point_enc(wa) != self.x@[origin as int].bytes@ {
            Err(CvesError::WitnessMismatch)
        } else {
            match fig6_find(self.suop_rows(), 0, 0, state + 1) {
                None => Err(CvesError::DecryptionFailed),
                Some(u) => in_unit_outcome(
                    u.ci,
                    u.si@[origin as int].value(),
                    sig_log,
                    wa,
                    self.c_omega@[state as int]@[origin as int].value(),
                    self.sigma_tilde@[state as int]@[origin as int].values(),
                    self.x@[state + 1 as int].bytes@,
                ),
            }
        }
    }

    /// The row and the index of the first unopened unit of state `target`.
    pub fn find_unopened(&self, target: usize) -> (r: Option<(usize, usize)>)
        ensures
            r is None <==> fig6_find(self.suop_rows(), 0, 0, target as nat) is None,
            r matches Some((k, t)) ==> k < self.suop@.len() && t < self.suop@[k as int]@.len()
                && self.suop@[k as int]@[t as int].j == target
                && fig6_find(self.suop_rows(), 0, 0, target as nat) == Some(self.suop@[k as int]@[t as int]),
    {
        let ghost rows = self.suop_rows();
        let mut k: usize = 0;
        while k < self.suop.len()
            invariant
                rows == self.suop_rows(),
                k <= self.suop@.len(),
                fig6_find(rows, 0, 0, target as nat) == fig6_find(rows, k as int, 0, target as nat),
            decreases self.suop@.len() - k,
        {
            let mut t: usize = 0;
            while t < self.suop[k].len()
                invariant
                    rows == self.suop_rows(),
                    k < self.suop@.len(),
                    t <= self.suop@[k as int]@.len(),
                    fig6_find(rows, 0, 0, target as nat) == fig6_find(rows, k as int, t as int, target as nat),
                decreases self.suop@[k as int]@.len() - t,
            {
                proof {
                    assert(rows[k as int] == self.suop@[k as int]@);
                }
                if self.suop[k][t].j == target {
                    return Some((k, t));
                }
                t = t + 1;
            }
            proof {
                assert(rows[k as int] == self.suop@[k as int]@);
            }
            k = k + 1;
        }
        None
    }

    /// Decrypts the witness of state `state + 1` for the transition from
    /// state `origin` with the oracle's aggregate signature `sig` on the
    /// first `state + 1` attestations and the witness `wa` of the origin,
    /// where the new state has an unopened unit; gives the new witness and
    /// the payment signature of the transition.
    pub fn decrypt(&self, sig: G2Point, wa: ChainScalar, origin: usize, state: usize)
        -> (res: Result<(ChainScalar, SchnorrSig), CvesError>)
        requires
            self.wf(),
            sig.wf(),
            wa.wf(),
            origin < state,
            state < self.tx@.len(),
            chain_point_enc(wa.value()) == self.x@[origin as int].bytes@,
            fig6_find(self.suop_rows(), 0, 0, (state + 1) as nat) is Some,
        ensures
            dec_result_matches(res, self.dec_spec(g2_log(sig.bytes@), wa.value(), origin as nat, state as nat)),
    {
        let n_tx: usize = self.tx.len();
        match self.find_unopened(state + 1) {
            Some((k, t)) => {
                let u = &self.suop[k][t];
                assert(u.si@.len() > origin);
                open_transition(&u.ci, &u.si[origin], sig, &wa, &self.c_omega[state][origin], &self.sigma_tilde[state][origin], &self.x[state + 1])
            },
            None => Err(CvesError::DecryptionFailed),
        }
    }

    /// Decrypts as `decrypt` does, after testing its conditions:
    /// `WitnessMismatch` where `wa` is not the witness of the origin,
    /// `DecryptionFailed` where the new state has no unopened unit.
    pub fn decrypt_checked(&self, sig: G2Point, wa: ChainScalar, origin: usize, state: usize)
        -> (res: Result<(ChainScalar, SchnorrSig), CvesError>)
        requires
            self.wf(),
            sig.wf(),
            wa.wf(),
            origin < state,
            state < self.tx@.len(),
        ensures
            dec_result_matches(res, self.dec_spec(g2_log(sig.bytes@), wa.value(), origin as nat, state as nat)),
    {
        let xa = chain_base_mul(&wa);
        if !xa.equals(&self.x[origin]) {
            return Err(CvesError::WitnessMismatch);
        }
        let n_tx: usize = self.tx.len();
        if self.find_unopened(state + 1).is_none() {
            return Err(CvesError::DecryptionFailed);
        }
        self.decrypt(sig, wa, origin, state)
    }
}

/// The conditions under which `fig6_made` describes an honest ciphertext:
/// the lists have their lengths, the witnesses, pads and nonces are
/// canonical and the precomputations honest.
pub open spec fn fig6_honest_inputs(
    gamma: nat,
    pk: G1Point,
    w: Seq<ChainScalar>,
    m: Seq<Seq<char>>,
    kp: SchnorrPair,
    tx: Seq<Seq<char>>,
    pv: Seq<Seq<PreComp>>,
    ys: Seq<Seq<ChainScalar>>,
    ks: Seq<Seq<ChainScalar>>,
) -> bool {
    &&& gamma <= 256
    &&& pk.wf()
    &&& kp.wf()
    &&& tx.len() >= 1
    &&& w.len() == tx.len() + 1
    &&& m.len() == tx.len()
    &&& forall|t: int| 0 <= t < w.len() ==> (#[trigger] w[t]).wf()
    &&& triangle_ok(ys, tx.len(), false)
    &&& triangle_ok(ks, tx.len(), true)
    &&& precom_ok(pv, tx.len(), gamma)
    &&& forall|i: int, j: int| 0 <= i < tx.len() && 0 <= j < gamma ==> (#[trigger] pv[i][j]).honest()
}

/// The pads, pre-signatures and one-time pads of an honestly made
/// ciphertext are well formed.
proof fn lemma_fig6_pads_wf(
    c: CVESCiphertextFig6, w: Seq<ChainScalar>, kp: SchnorrPair, tx: Seq<Seq<char>>,
    ys: Seq<Seq<ChainScalar>>, ks: Seq<Seq<ChainScalar>>,
)
    requires
        c.y_pub@.len() == tx.len(),
        c.sigma_tilde@.len() == tx.len(),
        c.c_omega@.len() == tx.len(),
        forall|t: int| #![trigger c.y_pub@[t]] #![trigger c.sigma_tilde@[t]] #![trigger c.c_omega@[t]] 0 <= t < tx.len()
            ==> c.y_pub@[t]@.len() == t + 1 && c.sigma_tilde@[t]@.len() == t + 1 && c.c_omega@[t]@.len() == t + 1,
        forall|t: int, j: int| 0 <= j <= t < tx.len() ==> #[trigger] fig6_pad_made(
            c.y_pub@[t]@[j], c.sigma_tilde@[t]@[j], c.c_omega@[t]@[j], w[j], w[t + 1], kp, tx[t], ys[t][j], ks[t][j]),
    ensures
        forall|t: int, j: int| 0 <= t < c.c_omega@.len() && 0 <= j < c.c_omega@[t]@.len() ==> (#[trigger] c.c_omega@[t]@[j]).wf(),
        forall|t: int, j: int| 0 <= t < c.y_pub@.len() && 0 <= j < c.y_pub@[t]@.len() ==> (#[trigger] c.y_pub@[t]@[j]).wf(),
        forall|t: int, j: int| 0 <= t < c.sigma_tilde@.len() && 0 <= j < c.sigma_tilde@[t]@.len() ==> (#[trigger] c.sigma_tilde@[t]@[j]).wf(),
{
    assert forall|t: int, j: int| 0 <= t < c.c_omega@.len() && 0 <= j < c.c_omega@[t]@.len() implies (#[trigger] c.c_omega@[t]@[j]).wf() by {
        assert(fig6_pad_made(c.y_pub@[t]@[j], c.sigma_tilde@[t]@[j], c.c_omega@[t]@[j], w[j], w[t + 1], kp, tx[t], ys[t][j], ks[t][j]));
    }
    assert forall|t: int, j: int| 0 <= t < c.y_pub@.len() && 0 <= j < c.y_pub@[t]@.len() implies (#[trigger] c.y_pub@[t]@[j]).wf() by {
        assert(fig6_pad_made(c.y_pub@[t]@[j], c.sigma_tilde@[t]@[j], c.c_omega@[t]@[j], w[j], w[t + 1], kp, tx[t], ys[t][j], ks[t][j]));
        assert(is_multiple(c.y_pub@[t]@[j].bytes@, ys[t][j].value()));
    }
    assert forall|t: int, j: int| 0 <= t < c.sigma_tilde@.len() && 0 <= j < c.sigma_tilde@[t]@.len() implies (#[trigger] c.sigma_tilde@[t]@[j]).wf() by {
        assert(fig6_pad_made(c.y_pub@[t]@[j], c.sigma_tilde@[t]@[j], c.c_omega@[t]@[j], w[j], w[t + 1], kp, tx[t], ys[t][j], ks[t][j]));
    }
}

/// The units of honestly made rows index the ciphertexts, commitments and
/// pads.
proof fn lemma_fig6_units_wf(c: CVESCiphertextFig6, gamma: nat, l: nat, pv: Seq<Seq<PreComp>>, ys: Seq<Seq<ChainScalar>>)
    requires
        c.m_cis@.len() == l,
        c.m_ri_pub@.len() == l,
        forall|i: int| #![trigger c.m_cis@[i]] #![trigger c.m_ri_pub@[i]] 0 <= i < l
            ==> c.m_cis@[i]@.len() == gamma && c.m_ri_pub@[i]@.len() == gamma,
        triangle_ok(ys, l, false),
        c.sop@.len() == gamma,
        c.suop@.len() == gamma,
        forall|k: int| 0 <= k < gamma ==> #[trigger] row_made6(c.sop@[k]@, c.suop@[k]@, c.bits()[k], l, pv, c.m_cis@, ys, k),
    ensures
        forall|k: int, t: int| 0 <= k < c.sop@.len() && 0 <= t < c.sop@[k]@.len() ==> {
            let u = #[trigger] c.sop@[k]@[t];
            &&& 1 <= u.j <= l
            &&& u.i < c.m_cis@[u.j - 1]@.len()
            &&& u.ri.wf()
            &&& u.rho.0.wf()
            &&& u.rho.1.wf()
        },
        forall|k: int, t: int| 0 <= k < c.suop@.len() && 0 <= t < c.suop@[k]@.len() ==> {
            let u = #[trigger] c.suop@[k]@[t];
            &&& 1 <= u.j <= l
            &&& u.i < c.m_ri_pub@[u.j - 1]@.len()
            &&& u.si@.len() + 1 >= u.j
            &&& forall|q: int| 0 <= q < u.si@.len() ==> (#[trigger] u.si@[q]).wf()
            &&& u.ci.wf()
        },
{
    let bits = c.bits();
    assert forall|k: int, t: int| 0 <= k < c.sop@.len() && 0 <= t < c.sop@[k]@.len() implies {
        let u = #[trigger] c.sop@[k]@[t];
        &&& 1 <= u.j <= l
        &&& u.i < c.m_cis@[u.j - 1]@.len()
        &&& u.ri.wf()
        &&& u.rho.0.wf()
        &&& u.rho.1.wf()
    } by {
        assert(row_made6(c.sop@[k]@, c.suop@[k]@, bits[k], l, pv, c.m_cis@, ys, k));
        assert(sop_unit_made6(c.sop@[k]@[t], pv, k, t));
        assert(c.m_cis@[t]@.len() == gamma);
    }
    assert forall|k: int, t: int| 0 <= k < c.suop@.len() && 0 <= t < c.suop@[k]@.len() implies {
        let u = #[trigger] c.suop@[k]@[t];
        &&& 1 <= u.j <= l
        &&& u.i < c.m_ri_pub@[u.j - 1]@.len()
        &&& u.si@.len() + 1 >= u.j
        &&& forall|q: int| 0 <= q < u.si@.len() ==> (#[trigger] u.si@[q]).wf()
        &&& u.ci.wf()
    } by {
        assert(row_made6(c.sop@[k]@, c.suop@[k]@, bits[k], l, pv, c.m_cis@, ys, k));
        assert(suop_unit_made6(c.suop@[k]@[t], pv, c.m_cis@[t]@[k], ys[t], k, t));
        assert(c.m_ri_pub@[t]@.len() == gamma);
        assert(ys[t].len() == t + 1);
    }
}

/// An honestly made ciphertext is well formed.
pub proof fn lemma_fig6_wf(
    c: CVESCiphertextFig6, gamma: nat, pk: G1Point, w: Seq<ChainScalar>, m: Seq<Seq<char>>,
    kp: SchnorrPair, tx: Seq<Seq<char>>, pv: Seq<Seq<PreComp>>, ys: Seq<Seq<ChainScalar>>, ks: Seq<Seq<ChainScalar>>,
)
    requires
        fig6_made(c, gamma, pk, w, m, kp, tx, pv, ys, ks),
        fig6_honest_inputs(gamma, pk, w, m, kp, tx, pv, ys, ks),
    ensures
        c.wf(),
{
    let l = tx.len();
    assert(c.tx@.len() == strings_view(c.tx@).len());
    assert(c.m@.len() == strings_view(c.m@).len());
    lemma_fig6_pads_wf(c, w, kp, tx, ys, ks);
    lemma_fig6_units_wf(c, gamma, l, pv, ys);
    assert(is_multiple(kp.public(), kp.secret()));
    assert forall|t: int| 0 <= t < c.x@.len() implies (#[trigger] c.x@[t]).wf() by {
        assert(is_multiple(c.x@[t].bytes@, w[t].value()));
    }
    assert forall|i: int, j: int| 0 <= i < c.m_cis@.len() && 0 <= j < c.m_cis@[i]@.len() implies (#[trigger] c.m_cis@[i]@[j]).wf() by {
        assert(cell_made(c.m_cis@[i]@[j], pv[i][j], prefix_log(pk.bytes@, m, i + 1)));
    }
    assert forall|i: int, j: int| 0 <= i < c.m_ri_pub@.len() && 0 <= j < c.m_ri_pub@[i]@.len() implies (#[trigger] c.m_ri_pub@[i]@[j]).wf() by {
        assert(c.m_ri_pub@[i]@.len() == gamma);
        assert(pv[i][j].honest());
        assert(is_multiple(c.m_ri_pub@[i]@[j].bytes@, pv[i][j].ri.value()));
    }
}

/// Every transition of an honestly made ciphertext checks out.
pub proof fn lemma_fig6_pads_ok(
    c: CVESCiphertextFig6, gamma: nat, pk: G1Point, w: Seq<ChainScalar>, m: Seq<Seq<char>>,
    kp: SchnorrPair, tx: Seq<Seq<char>>, pv: Seq<Seq<PreComp>>, ys: Seq<Seq<ChainScalar>>, ks: Seq<Seq<ChainScalar>>,
)
    requires
        fig6_made(c, gamma, pk, w, m, kp, tx, pv, ys, ks),
        fig6_honest_inputs(gamma, pk, w, m, kp, tx, pv, ys, ks),
    ensures
        c.pads_ok_before(tx.len() as int, 0),
{
    let n = secp_order();
    assert forall|t: int, j: int| (0 <= j <= t < tx.len() || (t == tx.len() && 0 <= j < 0)) implies #[trigger] c.pad_ok(t, j) by {
        let y = ys[t][j];
        let k = ks[t][j];
        let yt = (y.value() + w[j].value()) % n;
        assert(fig6_pad_made(c.y_pub@[t]@[j], c.sigma_tilde@[t]@[j], c.c_omega@[t]@[j], w[j], w[t + 1], kp, tx[t], y, k));
        assert(y.wf() && k.wf() && k.value() != 0);
        lemma_chain_only(c.x@[j].bytes@, w[j].value(), c.x@[t + 1].bytes@, w[t + 1].value());
        lemma_chain_only(c.y_pub@[t]@[j].bytes@, y.value(), c.y_pub@[t]@[j].bytes@, y.value());
        assert((w[j].value() + y.value()) % n == yt);
        assert(c.pad_enc_ok(t, j));
        assert(strings_view(c.tx@)[t] == c.tx@[t]@);
        lemma_pre_sign_then_pre_verify(kp, tx[t], yt, k.value());
        assert(c.pad_presig_ok(t, j));
    }
}

/// An unopened unit of an honestly made row checks out.
proof fn lemma_fig6_suop_ok(c: CVESCiphertextFig6, pv: Seq<Seq<PreComp>>, ys: Seq<Seq<ChainScalar>>, k: int, t: int)
    requires
        suop_unit_made6(c.suop@[k]@[t], pv, c.m_cis@[t]@[k], ys[t], k, t),
        ys[t].len() == t + 1,
        c.m_ri_pub@[t]@[k] == pv[t][k].ri_pub,
        pv[t][k].honest(),
        forall|j: int| 0 <= j <= t ==> is_multiple((#[trigger] c.y_pub@[t]@[j]).bytes@, ys[t][j].value()),
    ensures
        c.suop_unit_ok(c.suop@[k]@[t]),
{
    let u = c.suop@[k]@[t];
    let n = secp_order();
    let ri = pv[t][k].ri.value();
    lemma_chain_only(c.m_ri_pub@[t]@[k].bytes@, ri, c.m_ri_pub@[t]@[k].bytes@, ri);
    assert forall|q: int| 0 <= q < u.j - 1 implies #[trigger] c.suop_entry_ok(u, q) by {
        assert(is_multiple(c.y_pub@[t]@[q].bytes@, ys[t][q].value()));
        lemma_chain_only(c.y_pub@[t]@[q].bytes@, ys[t][q].value(), c.y_pub@[t]@[q].bytes@, ys[t][q].value());
        assert(u.si@[q].wf() && u.si@[q].value() == (ys[t][q].value() + ri) % n && u.si@[q].value() != 0);
    }
}

/// The cut-and-choose proof of an honestly made ciphertext checks out.
#[verifier::spinoff_prover]
pub proof fn lemma_fig6_cut_and_choose(
    c: CVESCiphertextFig6, gamma: nat, pk: G1Point, w: Seq<ChainScalar>, m: Seq<Seq<char>>,
    kp: SchnorrPair, tx: Seq<Seq<char>>, pv: Seq<Seq<PreComp>>, ys: Seq<Seq<ChainScalar>>, ks: Seq<Seq<ChainScalar>>,
)
    requires
        fig6_made(c, gamma, pk, w, m, kp, tx, pv, ys, ks),
        fig6_honest_inputs(gamma, pk, w, m, kp, tx, pv, ys, ks),
    ensures
        c.cut_and_choose_ok(gamma),
{
    let l = tx.len();
    let bits = c.bits();
    assert forall|k: int, t: int| 0 <= k < c.sop@.len() && 0 <= t < c.sop@[k]@.len() implies {
        let u = #[trigger] c.sop@[k]@[t];
        u.i < gamma && c.bits()[u.i as int] ==> c.sop_unit_ok(u)
    } by {
        assert(row_made6(c.sop@[k]@, c.suop@[k]@, bits[k], l, pv, c.m_cis@, ys, k));
        assert(sop_unit_made6(c.sop@[k]@[t], pv, k, t));
        assert(pv[t][k].honest());
        assert(cell_made(c.m_cis@[t]@[k], pv[t][k], prefix_log(pk.bytes@, m, t + 1)));
    }
    assert forall|k: int, t: int| 0 <= k < c.suop@.len() && 0 <= t < c.suop@[k]@.len() implies {
        let u = #[trigger] c.suop@[k]@[t];
        u.i < gamma && !c.bits()[u.i as int] ==> c.suop_unit_ok(u)
    } by {
        assert(row_made6(c.sop@[k]@, c.suop@[k]@, bits[k], l, pv, c.m_cis@, ys, k));
        assert(c.m_ri_pub@[t]@[k] == pv[t][k].ri_pub);
        assert(pv[t][k].honest());
        assert(ys[t].len() == t + 1);
        assert forall|j: int| 0 <= j <= t implies is_multiple((#[trigger] c.y_pub@[t]@[j]).bytes@, ys[t][j].value()) by {
            assert(fig6_pad_made(c.y_pub@[t]@[j], c.sigma_tilde@[t]@[j], c.c_omega@[t]@[j], w[j], w[t + 1], kp, tx[t], ys[t][j], ks[t][j]));
        }
        lemma_fig6_suop_ok(c, pv, ys, k, t);
    }
}

/// Completeness: a ciphertext made honestly (from honest precomputations)
/// is well formed and passes verification.
pub proof fn lemma_fig6_verifies(
    c: CVESCiphertextFig6, gamma: nat, pk: G1Point, w: Seq<ChainScalar>, m: Seq<Seq<char>>,
    kp: SchnorrPair, tx: Seq<Seq<char>>, pv: Seq<Seq<PreComp>>, ys: Seq<Seq<ChainScalar>>, ks: Seq<Seq<ChainScalar>>,
)
    requires
        fig6_made(c, gamma, pk, w, m, kp, tx, pv, ys, ks),
        fig6_honest_inputs(gamma, pk, w, m, kp, tx, pv, ys, ks),
    ensures
        c.wf(),
        c.pads_ok_before(c.tx@.len() as int, 0),
        c.cut_and_choose_ok(gamma),
{
    lemma_fig6_wf(c, gamma, pk, w, m, kp, tx, pv, ys, ks);
    lemma_fig6_pads_ok(c, gamma, pk, w, m, kp, tx, pv, ys, ks);
    lemma_fig6_cut_and_choose(c, gamma, pk, w, m, kp, tx, pv, ys, ks);
    assert(c.tx@.len() == strings_view(c.tx@).len());
}

/// `fig6_find` gives a unit of the rows of the state sought, and gives one
/// wherever such a unit lies at or after the starting place.
pub proof fn lemma_fig6_find(rows: Seq<Seq<SuopUnitFig6>>, k: int, t: int, state: nat)
    requires
        0 <= k,
        0 <= t,
    ensures
        fig6_find(rows, k, t, state) matches Some(u) ==> u.j == state
            && exists|a: int, b: int| 0 <= a < rows.len() && 0 <= b < rows[a].len() && #[trigger] rows[a][b] == u,
        (exists|a: int, b: int| k <= a < rows.len() && 0 <= b < rows[a].len() && (a > k || b >= t) && (#[trigger] rows[a][b]).j == state)
            ==> fig6_find(rows, k, t, state) is Some,
    decreases rows.len() - k, (if k < rows.len() { rows[k].len() - t } else { 0 }),
{
    if k >= rows.len() {
    } else if t >= rows[k].len() {
        lemma_fig6_find(rows, k + 1, 0, state);
        if exists|a: int, b: int| k <= a < rows.len() && 0 <= b < rows[a].len() && (a > k || b >= t) && (#[trigger] rows[a][b]).j == state {
            let (a, b) = choose|a: int, b: int| k <= a < rows.len() && 0 <= b < rows[a].len() && (a > k || b >= t) && (#[trigger] rows[a][b]).j == state;
            assert(k + 1 <= a && (a > k + 1 || b >= 0) && rows[a][b].j == state);
        }
    } else if rows[k][t].j == state {
        assert(rows[k][t] == rows[k][t]);
    } else {
        lemma_fig6_find(rows, k, t + 1, state);
        if exists|a: int, b: int| k <= a < rows.len() && 0 <= b < rows[a].len() && (a > k || b >= t) && (#[trigger] rows[a][b]).j == state {
            let (a, b) = choose|a: int, b: int| k <= a < rows.len() && 0 <= b < rows[a].len() && (a > k || b >= t) && (#[trigger] rows[a][b]).j == state;
            assert(a > k || b >= t + 1);
        }
    }
}

/// The first unopened unit of state `state + 1` is unit `state` of the
/// first unopened row.
proof fn lemma_fig6_first_unit(c: CVESCiphertextFig6, gamma: nat, l: nat, pv: Seq<Seq<PreComp>>, ys: Seq<Seq<ChainScalar>>, state: int) -> (a: int)
    requires
        0 <= state < l,
        c.sop@.len() == gamma,
        c.suop@.len() == gamma,
        forall|k: int| 0 <= k < gamma ==> #[trigger] row_made6(c.sop@[k]@, c.suop@[k]@, c.bits()[k], l, pv, c.m_cis@, ys, k),
        exists|k: int| 0 <= k < gamma && !c.bits()[k],
    ensures
        0 <= a < gamma,
        !c.bits()[a],
        fig6_find(c.suop_rows(), 0, 0, (state + 1) as nat) == Some(c.suop@[a]@[state]),
        suop_unit_made6(c.suop@[a]@[state], pv, c.m_cis@[state]@[a], ys[state], a, state),
{
    let bits = c.bits();
    let rows = c.suop_rows();
    let k0 = choose|k: int| 0 <= k < gamma && !c.bits()[k];
    assert(row_made6(c.sop@[k0]@, c.suop@[k0]@, bits[k0], l, pv, c.m_cis@, ys, k0));
    assert(rows[k0] == c.suop@[k0]@);
    assert(suop_unit_made6(rows[k0][state], pv, c.m_cis@[state]@[k0], ys[state], k0, state));
    assert(rows[k0][state].j == state + 1);
    lemma_fig6_find(rows, 0, 0, (state + 1) as nat);
    let u = fig6_find(rows, 0, 0, (state + 1) as nat).unwrap();
    let (a, b) = choose|a: int, b: int| 0 <= a < rows.len() && 0 <= b < rows[a].len() && #[trigger] rows[a][b] == u;
    assert(rows[a] == c.suop@[a]@);
    assert(row_made6(c.sop@[a]@, c.suop@[a]@, bits[a], l, pv, c.m_cis@, ys, a));
    assert(!bits[a]);
    assert(suop_unit_made6(u, pv, c.m_cis@[b]@[a], ys[b], a, b));
    assert(b == state);
    a
}

/// Decryption: with the oracle's aggregate signature on the first
/// `state + 1` attestations under the key of logarithm `x`, and the witness
/// `w[origin]` of an earlier state, an honestly made ciphertext with an
/// unopened position gives back the witness `w[state + 1]` and the payment's
/// signature for the transition, which verifies under the payer's key
/// (unless the adapted `s` is zero).
pub proof fn lemma_fig6_decrypts(
    c: CVESCiphertextFig6, gamma: nat, pk: G1Point, x: nat, w: Seq<ChainScalar>, m: Seq<Seq<char>>,
    kp: SchnorrPair, tx: Seq<Seq<char>>, pv: Seq<Seq<PreComp>>, ys: Seq<Seq<ChainScalar>>, ks: Seq<Seq<ChainScalar>>,
    sig: Seq<u8>, origin: int, state: int,
)
    requires
        fig6_made(c, gamma, pk, w, m, kp, tx, pv, ys, ks),
        fig6_honest_inputs(gamma, pk, w, m, kp, tx, pv, ys, ks),
        0 <= origin < state < tx.len(),
        g1_only(pk.bytes@, x),
        g2_log(sig) == (x * hash_sum(m.take(state + 1))) % bls_order(),
        ys[state][origin].value() != 0,
        w[state + 1].value() != 0,
        exists|k: int| 0 <= k < gamma && !c.bits()[k],
    ensures
        ({
            let yt = (ys[state][origin].value() + w[origin].value()) % secp_order();
            let presig = c.sigma_tilde@[state]@[origin];
            let s2 = (presig.s.value() + yt) % secp_order();
            &&& c.dec_spec(g2_log(sig), w[origin].value(), origin as nat, state as nat) == if s2 == 0 {
                Err::<(nat, (nat, nat)), CvesError>(CvesError::ZeroScalar)
            } else {
                Ok::<(nat, (nat, nat)), CvesError>((w[state + 1].value(), (s2, presig.r.value())))
            }
            &&& verify_spec(kp.public(), tx[state], s2, presig.r.value())
        }),
{
    let n = secp_order();
    let y = ys[state][origin];
    let k = ks[state][origin];
    let yt = (y.value() + w[origin].value()) % n;
    let presig = c.sigma_tilde@[state]@[origin];
    assert(is_multiple(c.x@[origin].bytes@, w[origin].value()));
    assert(is_multiple(c.x@[state + 1].bytes@, w[state + 1].value()));
    assert(fig6_pad_made(c.y_pub@[state]@[origin], presig, c.c_omega@[state]@[origin], w[origin], w[state + 1], kp, tx[state], y, k));
    assert(y.wf() && k.wf() && k.value() != 0);
    let a = lemma_fig6_first_unit(c, gamma, tx.len(), pv, ys, state);
    let u = c.suop@[a]@[state];
    assert(pv[state][a].honest());
    assert(cell_made(c.m_cis@[state]@[a], pv[state][a], prefix_log(pk.bytes@, m, state + 1)));
    crate::curve::lemma_g1_only(pk.bytes@, x, pk.bytes@, x);
    lemma_mod_bound((x * hash_sum(m.take(state + 1))) as int, bls_order() as int);
    assert(u.si@[origin].value() == (y.value() + pv[state][a].ri.value()) % n);
    assert((y.value() + pv[state][a].ri.value()) % n == (pv[state][a].ri.value() + y.value()) % n);
    lemma_open_honest(
        u.ci, u.si@[origin].value(), c.m_cis@[state]@[a], pv[state][a], prefix_log(pk.bytes@, m, state + 1), sig,
        y.value(), w[origin].value(), w[state + 1].value(), c.c_omega@[state]@[origin].value(), presig.values(), c.x@[state + 1].bytes@,
    );
    lemma_pre_sign_then_pre_verify(kp, tx[state], yt, k.value());
    assert(is_multiple(kp.public(), kp.secret()));
    lemma_chain_only(kp.public(), kp.secret(), kp.public(), kp.secret());
    lemma_adapt_then_verify(kp.public(), tx[state], presig.s.value(), presig.r.value(), yt);
}

/// The whole flow of the scheme: a ciphertext that encryption gives from
/// honest inputs is well formed and passes verification; with the oracle's
/// aggregate signature (as `agg_sign` makes it) on the first `state + 1`
/// attestations and the witness of an earlier state `origin`, where it has
/// an unopened position, decryption gives back the witness of state
/// `state + 1` and the payment's signature, which verifies under the
/// payer's key (unless the adapted `s` is zero).
pub proof fn lemma_fig6_flow(
    res: Result<CVESCiphertextFig6, CvesError>, gamma: nat, pk: G1Point, w: Seq<ChainScalar>, m: Seq<String>,
    kp: SchnorrPair, tx: Seq<String>, pv: Seq<Seq<PreComp>>, ys: Seq<Seq<ChainScalar>>, ks: Seq<Seq<ChainScalar>>,
    oracle: BLSKeyPair, sig: Seq<u8>, origin: int, state: int,
)
    requires
        fig6_enc_result(res, gamma, pk, w, m, kp, tx, pv, ys, ks),
        fig6_honest_inputs(gamma, pk, w, strings_view(m), kp, strings_view(tx), pv, ys, ks),
        res is Ok,
        oracle.wf(),
        pk.bytes@ == oracle.public(),
        g2_only(sig, (hash_sum(strings_view(m).take(state + 1)) * oracle.secret()) % bls_order()),
        0 <= origin < state < tx.len(),
        ys[state][origin].value() != 0,
        w[state + 1].value() != 0,
        exists|k: int| 0 <= k < gamma && !(res->Ok_0).bits()[k],
    ensures
        (res->Ok_0).wf(),
        forall|r: Result<(), CvesError>| (res->Ok_0).verify_result(r, gamma) ==> r is Ok,
        ({
            let c = res->Ok_0;
            let yt = (ys[state][origin].value() + w[origin].value()) % secp_order();
            let presig = c.sigma_tilde@[state]@[origin];
            let s2 = (presig.s.value() + yt) % secp_order();
            &&& c.dec_spec(g2_log(sig), w[origin].value(), origin as nat, state as nat) == if s2 == 0 {
                Err::<(nat, (nat, nat)), CvesError>(CvesError::ZeroScalar)
            } else {
                Ok::<(nat, (nat, nat)), CvesError>((w[state + 1].value(), (s2, presig.r.value())))
            }
            &&& verify_spec(kp.public(), strings_view(tx)[state], s2, presig.r.value())
        }),
{
    let c = res->Ok_0;
    let ms = strings_view(m);
    let x = oracle.secret();
    lemma_fig6_verifies(c, gamma, pk, w, ms, kp, strings_view(tx), pv, ys, ks);
    vstd::arithmetic::mul::lemma_mul_is_commutative(hash_sum(ms.take(state + 1)) as int, x as int);
    assert(g2_only(sig, g2_log(sig)));
    assert(g2_log(sig) == (x * hash_sum(ms.take(state + 1))) % bls_order());
    lemma_fig6_decrypts(c, gamma, pk, x, w, ms, kp, strings_view(tx), pv, ys, ks, sig, origin, state);
}

/// What encryption gives from honest inputs: for each transition to state
/// `i + 1`, the commitments are those of the precomputations; with the
/// oracle's aggregate signature on the first `i + 1` attestations, WES
/// decryption of each of its ciphertexts gives back the precomputation's
/// secret; and the pre-signature of the transition from each earlier state
/// `j` verifies under the payer's key for the statement `Y + X_j`.
pub proof fn lemma_fig6_encryption(
    res: Result<CVESCiphertextFig6, CvesError>, gamma: nat, pk: G1Point, w: Seq<ChainScalar>, m: Seq<String>,
    kp: SchnorrPair, tx: Seq<String>, pv: Seq<Seq<PreComp>>, ys: Seq<Seq<ChainScalar>>, ks: Seq<Seq<ChainScalar>>,
    x: nat, sig: Seq<u8>, i: int,
)
    requires
        fig6_enc_result(res, gamma, pk, w, m, kp, tx, pv, ys, ks),
        fig6_honest_inputs(gamma, pk, w, strings_view(m), kp, strings_view(tx), pv, ys, ks),
        res is Ok,
        g1_only(pk.bytes@, x),
        0 <= i < tx.len(),
        g2_log(sig) == (x * hash_sum(strings_view(m).take(i + 1))) % bls_order(),
    ensures
        forall|k: int| 0 <= k < gamma ==> (#[trigger] (res->Ok_0).m_ri_pub@[i]@[k]) == pv[i][k].ri_pub,
        forall|k: int| 0 <= k < gamma ==> crate::wes::wes_dec_bytes(
            (#[trigger] (res->Ok_0).m_cis@[i]@[k]).c1.bytes@,
            (res->Ok_0).m_cis@[i]@[k].c2@,
            (res->Ok_0).m_cis@[i]@[k].c3@,
            g2_log(sig),
        ) == pv[i][k].ri.bytes@,
        (res->Ok_0).vk.bytes@ == kp.public(),
        forall|j: int| 0 <= j <= i ==> #[trigger] (res->Ok_0).pad_presig_ok(i, j),
{
    let c = res->Ok_0;
    let ms = strings_view(m);
    lemma_fig6_verifies(c, gamma, pk, w, ms, kp, strings_view(tx), pv, ys, ks);
    crate::curve::lemma_g1_only(pk.bytes@, x, pk.bytes@, x);
    lemma_mod_bound((crate::curve::g1_log(pk.bytes@) * hash_sum(ms.take(i + 1))) as int, bls_order() as int);
    assert forall|k: int| 0 <= k < gamma implies crate::wes::wes_dec_bytes(
        (#[trigger] c.m_cis@[i]@[k]).c1.bytes@, c.m_cis@[i]@[k].c2@, c.m_cis@[i]@[k].c3@, g2_log(sig)) == pv[i][k].ri.bytes@ by {
        let pre = pv[i][k];
        let mlog = prefix_log(pk.bytes@, ms, i + 1);
        assert(cell_made(c.m_cis@[i]@[k], pre, mlog));
        assert(pre.honest());
        assert(c.m_cis@[i]@[k].encrypts(mlog, pre.ri.bytes@, pre.r1.value(), pre.r2@));
        assert(pre.ri.bytes@.len() == 32);
        crate::wes::lemma_wes_dec_bytes(c.m_cis@[i]@[k], mlog, pre.ri.bytes@, pre.r1.value(), pre.r2@, g2_log(sig));
    }
    assert forall|j: int| 0 <= j <= i implies #[trigger] c.pad_presig_ok(i, j) by {
        assert(c.pad_ok(i, j));
    }
}

/// Soundness of verification for the opened units: where verification
/// for `gamma` positions succeeds, every opened unit at a position below
/// `gamma` whose challenge bit is set gives its ciphertext: the ciphertext
/// of its state and position is the WES encryption of the unit's secret
/// with its coins, for the pairing of `pk` with the aggregate hash of the
/// first `u.j` attestations.
pub proof fn lemma_fig6_verified_opened(c: CVESCiphertextFig6, gamma: nat, res: Result<(), CvesError>)
    requires
        c.verify_result(res, gamma),
        res is Ok,
    ensures
        forall|k: int, t: int| 0 <= k < c.sop@.len() && 0 <= t < c.sop@[k]@.len()
            && (#[trigger] c.sop@[k]@[t]).i < gamma && c.bits()[c.sop@[k]@[t].i as int]
            ==> c.m_cis@[c.sop@[k]@[t].j - 1]@[c.sop@[k]@[t].i as int].encrypts(
                (crate::curve::g1_log(c.pk.bytes@) * hash_sum(strings_view(c.m@).take(c.sop@[k]@[t].j as int)))
                    % bls_order(),
                c.sop@[k]@[t].ri.bytes@, c.sop@[k]@[t].rho.0.value(), c.sop@[k]@[t].rho.1@),
{
    assert(c.cut_and_choose_ok(gamma));
}

} // verus!
