//! A loan whose ciphertexts each secure one transition, made with
//! `CVESCiphertextFig5`: preparing, verifying and decrypting them.

use vstd::prelude::*;
use crate::chain::ChainScalar;
use crate::curve::{G1Point, G2Point, g2_log};
use crate::wes::PreComp;
use crate::schnorradaptor::{SchnorrPair, SchnorrSig};
use crate::cvesfig5::{
    CVESCiphertextFig5, fig5_dec_spec, dec_result_matches, fig5_encrypts, fig5_opens, lemma_fig5_encrypts_message,
    lemma_fig5_encrypts_decrypts, fig5_made, fig5_degenerate, fig5_refused,
};
use crate::chain::{secp_order, is_multiple};
use crate::curve::g1_only;
use crate::signbls::bls_verify_spec;
use crate::cves::CvesError;
use crate::common::{
    MessagesAL, message_creator, loan_pairs, condition_made, lemma_loan_pairs_len, lemma_loan_pairs_bounds,
    loan_prepared, loan_verified, encrypt_condition, sample_rand_chain_scalar, sample_rand_chain_scalars, conditions_ok,
    origin_witness, loan_encrypted, pads_ok, lemma_encrypted_prepared, lemma_loan_origins,
};

verus! {

/// The conditions of a loan of `n` installments as `message_creator`
/// makes them, with `gamma` precomputations each.
pub open spec fn loan_conditions_made(conds: Seq<MessagesAL>, n: nat, gamma: nat) -> bool {
    &&& conds.len() == loan_pairs(n).len()
    &&& forall|t: int| 0 <= t < conds.len() ==> condition_made(#[trigger] conds[t], loan_pairs(n)[t], gamma)
}

/// What preparing a loan of `n` installments gives with the initial
/// witness `w0` and the fresh precomputations `precoms`: the conditions as
/// `message_creator` makes them and a ciphertext for each, as
/// `loan_prepared` says; `None` only where an encryption met a zero.
pub open spec fn loan_made(
    res: Option<(Vec<CVESCiphertextFig5>, Vec<MessagesAL>, ChainScalar)>,
    gamma: nat,
    n: nat,
    pk: G1Point,
    kp: SchnorrPair,
    w0: ChainScalar,
    precoms: Seq<Seq<PreComp>>,
) -> bool {
    &&& w0.wf() && w0.value() != 0
    &&& forall|t: int, j: int| 0 <= t < precoms.len() && 0 <= j < gamma ==> (#[trigger] precoms[t][j]).honest()
    &&& forall|t: int| 0 <= t < precoms.len() ==> (#[trigger] precoms[t]).len() == gamma
    &&& res matches Some((cts, conds, w)) ==> {
        &&& w == w0
        &&& precoms.len() == loan_pairs(n).len()
        &&& loan_conditions_made(conds@, n, gamma)
        &&& loan_prepared(Some(cts), gamma, conds@, pk, kp, w0, precoms)
    }
    &&& res is None ==> exists|conds: Seq<MessagesAL>| {
        &&& loan_conditions_made(conds, n, gamma)
        &&& #[trigger] loan_prepared(None, gamma, conds, pk, kp, w0, precoms)
    }
}

/// The precomputations, one list of at least `gamma` well-formed ones for
/// each of `n` conditions, as sequences.
pub open spec fn precoms_ok(precoms: Seq<Vec<PreComp>>, n: nat, gamma: nat) -> bool {
    &&& precoms.len() == n
    &&& forall|t: int| 0 <= t < n ==> (#[trigger] precoms[t])@.len() >= gamma
    &&& forall|t: int, j: int| 0 <= t < n && 0 <= j < gamma ==> (#[trigger] precoms[t]@[j]).wf()
}

/// The rows of a list of precomputations, as sequences.
pub open spec fn precom_rows(precoms: Seq<Vec<PreComp>>) -> Seq<Seq<PreComp>> {
    precoms.map_values(|p: Vec<PreComp>| p@)
}

/// Encrypts the witness of each condition for its transition with the
/// precomputations `precoms[t]`, the initial witness `w0`, and the pad
/// `ys[t]` and nonce `ks[t]` of the condition.
pub fn prepare_loan_with(
    gamma: usize,
    conditions: &Vec<MessagesAL>,
    precoms: &Vec<Vec<PreComp>>,
    pk: G1Point,
    bank_kp: SchnorrPair,
    w0: ChainScalar,
    ys: &Vec<ChainScalar>,
    ks: &Vec<ChainScalar>,
) -> (res: Option<Vec<CVESCiphertextFig5>>)
    requires
        gamma <= 256,
        pk.wf(),
        bank_kp.wf(),
        w0.wf(),
        conditions_ok(conditions@, 0),
        precoms_ok(precoms@, conditions@.len(), gamma as nat),
        pads_ok(ys@, ks@, conditions@.len()),
    ensures
        loan_encrypted(res, gamma as nat, conditions@, pk, bank_kp, w0, precom_rows(precoms@), ys@, ks@),
        res matches Some(cts) ==> forall|t: int| 0 <= t < conditions@.len() ==> {
                let w = if conditions@[t].origin == 0 { w0 } else { conditions@[conditions@[t].origin as int].witness };
                &&& is_multiple((#[trigger] cts@[t]).xa.bytes@, w.value())
                &&& cts@[t].c_omega.value() == ((ys@[t].value() + w.value()) % secp_order() + conditions@[t].witness.value()) % secp_order()
            },
{
    let ghost pv = precom_rows(precoms@);
    let mut cts: Vec<CVESCiphertextFig5> = Vec::new();
    let mut t: usize = 0;
    while t < conditions.len()
        invariant
            gamma <= 256,
            pk.wf(),
            bank_kp.wf(),
            w0.wf(),
            conditions_ok(conditions@, 0),
            precoms_ok(precoms@, conditions@.len(), gamma as nat),
            pads_ok(ys@, ks@, conditions@.len()),
            pv == precom_rows(precoms@),
            t <= conditions@.len(),
            cts@.len() == t,
            forall|u: int| 0 <= u < t ==> (#[trigger] cts@[u]).wf(gamma as nat) && fig5_made(cts@[u], gamma as nat, pk,
                origin_witness(conditions@, u, w0), conditions@[u].transition@, conditions@[u].witness, bank_kp,
                conditions@[u].state@, pv[u], ys@[u], ks@[u]),
            forall|u: int| 0 <= u < t ==> !#[trigger] fig5_degenerate(origin_witness(conditions@, u, w0),
                conditions@[u].witness, bank_kp, conditions@[u].state@, ys@[u], ks@[u]),
        decreases conditions@.len() - t,
    {
        assert(pv[t as int] == precoms@[t as int]@);
        let ct = encrypt_condition(gamma, conditions, t, pk, bank_kp, w0, &precoms[t], ys[t], ks[t]);
        match ct {
            Some(ct) => {
                cts.push(ct);
            },
            None => {
                let r: Option<Vec<CVESCiphertextFig5>> = None;
                assert(fig5_refused(origin_witness(conditions@, t as int, w0), conditions@[t as int].witness, bank_kp,
                    conditions@[t as int].state@, pv[t as int], gamma as nat, ys@[t as int], ks@[t as int]));
                return r;
            },
        }
        t = t + 1;
    }
    proof {
        lemma_loan_origins(cts, gamma as nat, conditions@, pk, bank_kp, w0, pv, ys@, ks@);
    }
    Some(cts)
}

/// What preparing a loan of `n` installments gives with the initial
/// witness `w0`, the fresh precomputations `precoms`, and the pads `ys` and
/// nonces `ks`: the conditions as `message_creator` makes them and the
/// ciphertexts as `loan_encrypted` says.
pub open spec fn loan_made_with(
    res: Option<(Vec<CVESCiphertextFig5>, Vec<MessagesAL>, ChainScalar)>,
    gamma: nat,
    n: nat,
    pk: G1Point,
    kp: SchnorrPair,
    w0: ChainScalar,
    precoms: Seq<Seq<PreComp>>,
    ys: Seq<ChainScalar>,
    ks: Seq<ChainScalar>,
) -> bool {
    &&& w0.wf() && w0.value() != 0
    &&& precoms.len() == loan_pairs(n).len()
    &&& forall|t: int, j: int| 0 <= t < precoms.len() && 0 <= j < gamma ==> (#[trigger] precoms[t][j]).honest()
    &&& forall|t: int| 0 <= t < precoms.len() ==> (#[trigger] precoms[t]).len() == gamma
    &&& pads_ok(ys, ks, loan_pairs(n).len())
    &&& forall|t: int| 0 <= t < loan_pairs(n).len() ==> (#[trigger] ys[t]).value() != 0
    &&& res matches Some((cts, conds, w)) ==> {
        &&& w == w0
        &&& loan_conditions_made(conds@, n, gamma)
        &&& loan_encrypted(Some(cts), gamma, conds@, pk, kp, w0, precoms, ys, ks)
    }
    &&& res is None ==> exists|conds: Seq<MessagesAL>| {
        &&& loan_conditions_made(conds, n, gamma)
        &&& #[trigger] loan_encrypted(None, gamma, conds, pk, kp, w0, precoms, ys, ks)
    }
}

/// Prepares a loan of `installments` installments: makes the conditions,
/// draws the initial witness, fresh precomputations and a pad and a nonce
/// for each condition, and encrypts the witness of each condition for its
/// transition (`prepare_loan_with`); gives the ciphertexts, the conditions
/// and the initial witness.
pub fn prepare_loan(gamma: usize, installments: usize, pk: G1Point, bank_kp: SchnorrPair)
    -> (res: Option<(Vec<CVESCiphertextFig5>, Vec<MessagesAL>, ChainScalar)>)
    requires
        gamma <= 256,
        pk.wf(),
        bank_kp.wf(),
    ensures
        exists|w0: ChainScalar, precoms: Seq<Seq<PreComp>>, ys: Seq<ChainScalar>, ks: Seq<ChainScalar>|
            #[trigger] loan_made_with(res, gamma as nat, installments as nat, pk, bank_kp, w0, precoms, ys, ks),
        exists|w0: ChainScalar, precoms: Seq<Seq<PreComp>>| #[trigger] loan_made(res, gamma as nat, installments as nat, pk, bank_kp, w0, precoms),
{
    let conditions = message_creator(installments, gamma);
    let w0 = sample_rand_chain_scalar();
    let ghost n = installments as nat;
    let len: usize = conditions.len();
    proof {
        lemma_loan_pairs_len(n);
        lemma_loan_pairs_bounds(n);
        assert forall|t: int| 0 <= t < conditions@.len() implies {
            &&& (#[trigger] conditions@[t]).witness.wf()
            &&& conditions@[t].precomp@.len() >= 0
            &&& forall|j: int| 0 <= j < 0 ==> (#[trigger] conditions@[t].precomp@[j]).wf()
            &&& (conditions@[t].origin == 0 || conditions@[t].origin < conditions@.len())
        } by {
            assert(condition_made(conditions@[t], loan_pairs(n)[t], gamma as nat));
        }
    }
    let mut precoms: Vec<Vec<PreComp>> = Vec::new();
    let mut t: usize = 0;
    while t < len
        invariant
            t <= len,
            precoms@.len() == t,
            forall|u: int, j: int| 0 <= u < t && 0 <= j < gamma ==> (#[trigger] precoms@[u]@[j]).honest(),
            forall|u: int| 0 <= u < t ==> (#[trigger] precoms@[u])@.len() == gamma,
        decreases len - t,
    {
        precoms.push(CVESCiphertextFig5::precompute(gamma));
        t = t + 1;
    }
    let ys = sample_rand_chain_scalars(len);
    let ks = sample_rand_chain_scalars(len);
    let ghost pv = precom_rows(precoms@);
    proof {
        assert forall|u: int, j: int| 0 <= u < len && 0 <= j < gamma implies (#[trigger] precoms@[u]@[j]).wf() by {
            assert(precoms@[u]@[j].honest());
        }
        assert forall|u: int, j: int| 0 <= u < pv.len() && 0 <= j < gamma implies (#[trigger] pv[u][j]).honest() by {
            assert(pv[u] == precoms@[u]@);
        }
        assert forall|u: int| 0 <= u < pv.len() implies (#[trigger] pv[u]).len() == gamma by {
            assert(pv[u] == precoms@[u]@);
        }
    }
    let cts = prepare_loan_with(gamma, &conditions, &precoms, pk, bank_kp, w0, &ys, &ks);
    proof {
        lemma_encrypted_prepared(cts, gamma as nat, conditions@, pk, bank_kp, w0, pv, ys@, ks@);
    }
    match cts {
        Some(cts) => {
            let r = Some((cts, conditions, w0));
            assert(loan_made_with(r, gamma as nat, n, pk, bank_kp, w0, pv, ys@, ks@));
            assert(loan_made(r, gamma as nat, n, pk, bank_kp, w0, pv));
            r
        },
        None => {
            let r: Option<(Vec<CVESCiphertextFig5>, Vec<MessagesAL>, ChainScalar)> = None;
            assert(loan_made_with(r, gamma as nat, n, pk, bank_kp, w0, pv, ys@, ks@));
            assert(loan_made(r, gamma as nat, n, pk, bank_kp, w0, pv));
            r
        },
    }
}

/// Verifies each ciphertext of a loan for `gamma` positions.
pub fn verify_loan(gamma: usize, cves: Vec<CVESCiphertextFig5>) -> (res: Result<(), CvesError>)
    requires
        forall|t: int| 0 <= t < cves@.len() ==> (#[trigger] cves@[t]).wf(gamma as nat),
    ensures
        loan_verified(res, cves@, gamma as nat),
{
    crate::common::verify_loan(gamma, cves)
}

/// The first ciphertext, from position `j` on, whose attestation is `m`;
/// the length where none is.
pub open spec fn first_for_message(cves: Seq<CVESCiphertextFig5>, m: Seq<char>, j: int) -> int
    decreases cves.len() - j,
{
    if j < 0 || j >= cves.len() {
        cves.len() as int
    } else if cves[j].m@ == m {
        j
    } else {
        first_for_message(cves, m, j + 1)
    }
}

/// Decrypts the state that the attestation `m` opens, where some
/// ciphertext is for `m`: with the oracle's signature `sig` on `m` and the
/// witness `wa` of the origin, the first ciphertext for `m` gives the new
/// witness and the payment signature.
pub fn decrypt_state(cves: Vec<CVESCiphertextFig5>, sig: G2Point, m: &str, wa: ChainScalar)
    -> (res: Result<(ChainScalar, SchnorrSig), CvesError>)
    requires
        forall|t: int| 0 <= t < cves@.len() ==> (#[trigger] cves@[t]).wf(0),
        sig.wf(),
        wa.wf(),
        first_for_message(cves@, m@, 0) < cves@.len(),
    ensures
        ({
            let t = first_for_message(cves@, m@, 0);
            dec_result_matches(res, fig5_dec_spec(cves@[t].suop@, cves@[t].v_ri_pub@, cves@[t].c_omega.value(),
                cves@[t].sigma_tilde.values(), g2_log(sig.bytes@), wa.value()))
        }),
{
    let target = m.to_owned();
    let mut j: usize = 0;
    while j < cves.len()
        invariant
            forall|t: int| 0 <= t < cves@.len() ==> (#[trigger] cves@[t]).wf(0),
            sig.wf(),
            wa.wf(),
            target@ == m@,
            j <= cves@.len(),
            first_for_message(cves@, m@, 0) == first_for_message(cves@, m@, j as int),
        decreases cves@.len() - j,
    {
        if cves[j].m == target {
            return cves[j].decrypt(sig, wa);
        }
        j = j + 1;
    }
    Err(CvesError::DecryptionFailed)
}

/// Decryption of a prepared loan: with the oracle's signature on an
/// attestation `m` under the key of logarithm `x`, and the witness of the
/// origin of the first ciphertext for `m`, a loan prepared from honest
/// precomputations gives back the witness of that transition's condition and
/// a signature on its payment that verifies under the bank's key (unless
/// the adapted `s` is zero), where the ciphertext has an unopened position
/// and the witness does not sum to zero with that of its origin.
pub proof fn lemma_loan_decrypts(
    cts: Vec<CVESCiphertextFig5>,
    gamma: nat,
    conds: Seq<MessagesAL>,
    pk: G1Point,
    x: nat,
    kp: SchnorrPair,
    w0: ChainScalar,
    precoms: Seq<Seq<PreComp>>,
    m: Seq<char>,
    sig: Seq<u8>,
)
    requires
        loan_prepared(Some(cts), gamma, conds, pk, kp, w0, precoms),
        conditions_ok(conds, 0),
        precoms.len() == conds.len(),
        forall|t: int, j: int| 0 <= t < precoms.len() && 0 <= j < gamma ==> (#[trigger] precoms[t][j]).honest(),
        kp.wf(),
        w0.wf(),
        g1_only(pk.bytes@, x),
        bls_verify_spec(x, m, sig),
        first_for_message(cts@, m, 0) < cts@.len(),
        ({
            let t = first_for_message(cts@, m, 0);
            &&& cts@[t].suop@.len() > 0
            &&& conds[t].witness.value() != 0
            &&& (origin_witness(conds, t, w0).value() + conds[t].witness.value()) % secp_order() != 0
        }),
    ensures
        ({
            let t = first_for_message(cts@, m, 0);
            let c = cts@[t];
            fig5_opens(
                fig5_dec_spec(c.suop@, c.v_ri_pub@, c.c_omega.value(), c.sigma_tilde.values(), g2_log(sig),
                    origin_witness(conds, t, w0).value()),
                conds[t].witness.value(), kp, conds[t].state@)
        }),
{
    let t = first_for_message(cts@, m, 0);
    lemma_first_for_message(cts@, m, 0);
    let c = cts@[t];
    let wa = origin_witness(conds, t, w0);
    assert(fig5_encrypts(c, gamma, pk, wa, conds[t].transition@, conds[t].witness, kp, conds[t].state@, precoms[t]));
    assert(conds[t].witness.wf());
    if conds[t].origin != 0 {
        assert(conds[conds[t].origin as int].witness.wf());
    }
    assert forall|j: int| 0 <= j < gamma implies (#[trigger] precoms[t][j]).honest() by {}
    lemma_fig5_encrypts_message(c, gamma, pk, wa, conds[t].transition@, conds[t].witness, kp, conds[t].state@, precoms[t]);
    lemma_fig5_encrypts_decrypts(c, gamma, pk, x, wa, m, conds[t].witness, kp, conds[t].state@, precoms[t], sig);
}

/// The first ciphertext for `m` from `j` on, where there is one, is for `m`.
pub proof fn lemma_first_for_message(cves: Seq<CVESCiphertextFig5>, m: Seq<char>, j: int)
    requires
        0 <= j <= cves.len(),
    ensures
        j <= first_for_message(cves, m, j) <= cves.len(),
        first_for_message(cves, m, j) < cves.len() ==> cves[first_for_message(cves, m, j)].m@ == m,
    decreases cves.len() - j,
{
    if j < cves.len() && cves[j].m@ != m {
        lemma_first_for_message(cves, m, j + 1);
    }
}

} // verus!
