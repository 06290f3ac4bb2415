use atomic_loans::atomicloan::{
    decrypt_state, prepare_loan as prepare_loan_fig5, prepare_loan_with as prepare_loan_with_fig5, verify_loan as verify_loan_fig5,
};
use atomic_loans::chain::ChainScalar;
use atomic_loans::common::{message_creator, message_creator_involved_oracle, prepare_loan, prepare_loan_with, verify_loan};
use atomic_loans::cvesfig5::CVESCiphertextFig5;
use atomic_loans::cves::CvesError;
use atomic_loans::cvesfig6::CVESCiphertextFig6;
use atomic_loans::efficient::{statements, CVESCiphertextIn};
use atomic_loans::schnorradaptor::{kgen, verify};
use atomic_loans::signbls::BLSKeyPair;

const GAMMA: usize = 16;

fn scalar(v: u64) -> ChainScalar {
    let mut bytes = [0u8; 32];
    bytes[24..].copy_from_slice(&v.to_be_bytes());
    ChainScalar { bytes }
}

#[test]
fn conditions_of_a_loan() {
    let conds = message_creator(2, 1);
    let got: Vec<(usize, usize, String, String)> =
        conds.iter().map(|c| (c.origin, c.end, c.transition.clone(), c.state.clone())).collect();
    assert_eq!(
        got,
        vec![
            (0, 1, "transition 0-1".to_string(), "state 1".to_string()),
            (0, 2, "transition 0-2".to_string(), "state 2".to_string()),
            (1, 2, "transition 1-2".to_string(), "state 2".to_string()),
        ]
    );
    for c in &conds {
        assert_eq!(c.precomp.len(), 1);
        assert_eq!(statements(&vec![c.witness])[0].bytes.to_vec(), c.statement.bytes.to_vec());
    }
    assert!(message_creator(0, 4).is_empty());
}

#[test]
fn conditions_with_involved_oracle() {
    let c = message_creator_involved_oracle(3);
    assert_eq!(c.state, vec!["state 1", "state 2", "state 3"]);
    assert_eq!(c.transition, vec!["transition passing 1", "transition passing 2", "transition passing 3"]);
    assert_eq!(c.witness.len(), 4);
    assert_eq!(c.statement.len(), 4);
    for i in 0..4 {
        assert_eq!(statements(&vec![c.witness[i]])[0].bytes.to_vec(), c.statement[i].bytes.to_vec());
    }
}

#[test]
fn loan_with_precomputed_conditions() {
    let oracle = BLSKeyPair::new();
    let bank = kgen();
    let conds = message_creator(1, GAMMA);
    let (cts, w0) = prepare_loan(GAMMA, conds, oracle.public_key(), bank).unwrap();
    assert_eq!(cts.len(), 1);
    assert_eq!(cts[0].m, "transition 0-1");
    assert_eq!(cts[0].tx, "state 1");
    assert_eq!(cts[0].xa.bytes.to_vec(), statements(&vec![w0])[0].bytes.to_vec());
    assert_eq!(verify_loan(GAMMA, cts), Ok(()));
}

#[test]
fn loan_of_one_transition() {
    let oracle = BLSKeyPair::new();
    let bank = kgen();
    let (cts, conds, w0) = prepare_loan_fig5(GAMMA, 1, oracle.public_key(), bank).unwrap();
    assert_eq!(verify_loan_fig5(GAMMA, cts.iter().map(copy_fig5).collect()), Ok(()));
    let sig = oracle.sign("transition 0-1");
    let (sec, pay) = decrypt_state(cts.iter().map(copy_fig5).collect(), sig, "transition 0-1", w0).unwrap();
    assert_eq!(sec.bytes, conds[0].witness.bytes);
    assert!(verify(bank.public_key(), "state 1", pay));
}

fn copy_fig5(c: &atomic_loans::cvesfig5::CVESCiphertextFig5) -> atomic_loans::cvesfig5::CVESCiphertextFig5 {
    atomic_loans::cvesfig5::CVESCiphertextFig5 {
        cis: c.cis.iter().map(|x| x.copy()).collect(),
        c_omega: c.c_omega,
        sop: c.sop.iter().map(|u| atomic_loans::cvesfig5::SopUnitFig5 { i: u.i, ri: u.ri, rho: (u.rho.0, u.rho.1.copy()) }).collect(),
        suop: c.suop.iter().map(|u| atomic_loans::cvesfig5::SuopUnitFig5 { i: u.i, si: u.si, ci: u.ci.copy() }).collect(),
        v_ri_pub: c.v_ri_pub.clone(),
        xa: c.xa,
        xw: c.xw,
        y_pub: c.y_pub,
        sigma_tilde: c.sigma_tilde,
        m: c.m.clone(),
        pk: c.pk,
        tx: c.tx.clone(),
        vk: c.vk,
    }
}

#[test]
fn involved_oracle_first_state() {
    let oracle = BLSKeyPair::new();
    let bank = kgen();
    let details = message_creator_involved_oracle(2);
    let precom = CVESCiphertextIn::precompute(GAMMA, 2);
    let c = CVESCiphertextIn::enc_cs_from_precom(GAMMA, oracle.public_key(), details.witness.clone(), details.transition.clone(),
        bank, details.state.clone(), &precom).unwrap();
    assert_eq!(c.verify(), Ok(()));
    let sig = oracle.sign("transition passing 1");
    let (sec, pay) = c.decrypt(sig, details.witness[0], 1).unwrap();
    assert_eq!(sec.bytes, details.witness[1].bytes);
    assert!(verify(bank.public_key(), "state 1", pay));
    assert_eq!(c.decrypt_checked(sig, details.witness[1], 1).err(), Some(CvesError::WitnessMismatch));
}

#[test]
fn involved_oracle_second_state_does_not_open() {
    // the unopened secrets of later states accumulate the secrets of the
    // earlier rows, which their own ciphertext does not remove
    let oracle = BLSKeyPair::new();
    let bank = kgen();
    let details = message_creator_involved_oracle(2);
    let precom = CVESCiphertextIn::precompute(GAMMA, 2);
    let c = CVESCiphertextIn::enc_cs_from_precom(GAMMA, oracle.public_key(), details.witness.clone(), details.transition.clone(),
        bank, details.state.clone(), &precom).unwrap();
    let agg = oracle.agg_sign(details.transition.clone());
    assert_eq!(c.decrypt(agg, details.witness[0], 2).err(), Some(CvesError::InvalidWitness));
}

#[test]
fn involved_oracle_zeros() {
    let oracle = BLSKeyPair::new();
    let bank = kgen();
    let precom = CVESCiphertextIn::precompute(2, 1);
    let n_minus_one: [u8; 32] = [
        0xFF, 0xFF, 0xFF, 0xFF, 0xFF, 0xFF, 0xFF, 0xFF, 0xFF, 0xFF, 0xFF, 0xFF, 0xFF, 0xFF, 0xFF, 0xFE, 0xBA, 0xAE,
        0xDC, 0xE6, 0xAF, 0x48, 0xA0, 0x3B, 0xBF, 0xD2, 0x5E, 0x8C, 0xD0, 0x36, 0x41, 0x40,
    ];
    let r = CVESCiphertextIn::enc_cs_from_precom_with(2, oracle.public_key(), vec![scalar(1), scalar(2)], vec!["m".to_string()],
        bank, vec!["s".to_string()], &precom, &vec![ChainScalar { bytes: n_minus_one }], &vec![scalar(3)]);
    assert_eq!(r.err(), Some(CvesError::ZeroScalar));
}

#[test]
fn any_transition_opens_with_the_aggregate() {
    let oracle = BLSKeyPair::new();
    let bank = kgen();
    let details = message_creator_involved_oracle(2);
    let precom = CVESCiphertextFig6::precompute(GAMMA, 2);
    let c = CVESCiphertextFig6::enc_cs_from_precom(GAMMA, oracle.public_key(), details.witness.clone(), details.transition.clone(),
        bank, details.state.clone(), &precom).unwrap();
    assert_eq!(c.verify(GAMMA), Ok(()));
    let agg = oracle.agg_sign(details.transition.clone());
    let (sec, pay) = c.decrypt(agg, details.witness[0], 0, 1).unwrap();
    assert_eq!(sec.bytes, details.witness[2].bytes);
    assert!(verify(bank.public_key(), "state 2", pay));
    assert_eq!(c.decrypt_checked(agg, details.witness[1], 0, 1).err(), Some(CvesError::WitnessMismatch));
}

#[test]
fn any_transition_errors() {
    let oracle = BLSKeyPair::new();
    let bank = kgen();
    let details = message_creator_involved_oracle(2);
    let precom = CVESCiphertextFig6::precompute(GAMMA, 2);
    let mut c = CVESCiphertextFig6::enc_cs_from_precom(GAMMA, oracle.public_key(), details.witness.clone(), details.transition.clone(),
        bank, details.state.clone(), &precom).unwrap();
    let keep = c.c_omega[1][0];
    c.c_omega[1][0] = scalar(5);
    assert_eq!(c.verify(GAMMA), Err(CvesError::InvalidEncryption));
    c.c_omega[1][0] = keep;
    let keep = c.sigma_tilde[1][1].s;
    c.sigma_tilde[1][1].s = scalar(5);
    assert_eq!(c.verify(GAMMA), Err(CvesError::InvalidPresignature));
    c.sigma_tilde[1][1].s = keep;
    assert_eq!(c.verify(GAMMA), Ok(()));
}

const N_MINUS_ONE: [u8; 32] = [
    0xFF, 0xFF, 0xFF, 0xFF, 0xFF, 0xFF, 0xFF, 0xFF, 0xFF, 0xFF, 0xFF, 0xFF, 0xFF, 0xFF, 0xFF, 0xFE, 0xBA, 0xAE, 0xDC, 0xE6,
    0xAF, 0x48, 0xA0, 0x3B, 0xBF, 0xD2, 0x5E, 0x8C, 0xD0, 0x36, 0x41, 0x40,
];

#[test]
fn loan_with_given_pads() {
    let oracle = BLSKeyPair::new();
    let bank = kgen();
    let conds = message_creator(1, GAMMA);
    let cts = prepare_loan_with(GAMMA, &conds, oracle.public_key(), bank, scalar(3), &vec![scalar(5)], &vec![scalar(7)]).unwrap();
    assert_eq!(cts.len(), 1);
    assert_eq!(cts[0].xa.bytes.to_vec(), statements(&vec![scalar(3)])[0].bytes.to_vec());
    assert_eq!(cts[0].y_pub.bytes.to_vec(), statements(&vec![scalar(5)])[0].bytes.to_vec());
    assert_eq!(cts[0].xw.bytes.to_vec(), conds[0].statement.bytes.to_vec());
    assert_eq!(verify_loan(GAMMA, cts), Ok(()));
    // the pad cancels the initial witness: the shifted statement is zero
    let none = prepare_loan_with(GAMMA, &conds, oracle.public_key(), bank, scalar(1), &vec![ChainScalar { bytes: N_MINUS_ONE }],
        &vec![scalar(7)]);
    assert!(none.is_none());
}

#[test]
fn loan_with_given_precomputations() {
    let oracle = BLSKeyPair::new();
    let bank = kgen();
    let conds = message_creator(1, 0);
    let precoms = vec![CVESCiphertextFig5::precompute(GAMMA)];
    let cts = prepare_loan_with_fig5(GAMMA, &conds, &precoms, oracle.public_key(), bank, scalar(3), &vec![scalar(5)],
        &vec![scalar(7)]).unwrap();
    assert_eq!(cts.len(), 1);
    assert_eq!(cts[0].y_pub.bytes.to_vec(), statements(&vec![scalar(5)])[0].bytes.to_vec());
    assert_eq!(cts[0].v_ri_pub.len(), GAMMA);
    assert_eq!(cts[0].v_ri_pub[0].bytes.to_vec(), precoms[0][0].ri_pub.bytes.to_vec());
    assert_eq!(verify_loan_fig5(GAMMA, cts.iter().map(copy_fig5).collect()), Ok(()));
    let sig = oracle.sign("transition 0-1");
    let (sec, _) = decrypt_state(cts, sig, "transition 0-1", scalar(3)).unwrap();
    assert_eq!(sec.bytes, conds[0].witness.bytes);
    let none = prepare_loan_with_fig5(GAMMA, &conds, &precoms, oracle.public_key(), bank, scalar(1),
        &vec![ChainScalar { bytes: N_MINUS_ONE }], &vec![scalar(7)]);
    assert!(none.is_none());
}

#[test]
fn no_positions_need_no_precomputations() {
    let oracle = BLSKeyPair::new();
    let bank = kgen();
    let w = vec![scalar(1), scalar(2), scalar(3)];
    let m = vec!["m1".to_string(), "m2".to_string()];
    let tx = vec!["t1".to_string(), "t2".to_string()];
    let c = CVESCiphertextFig6::enc_cs_from_precom(0, oracle.public_key(), w.clone(), m.clone(), bank, tx.clone(), &vec![]).unwrap();
    assert_eq!(c.x.len(), 3);
    assert_eq!(c.x[2].bytes.to_vec(), statements(&vec![scalar(3)])[0].bytes.to_vec());
    assert!(c.m_cis.iter().all(|row| row.is_empty()));
    assert_eq!(c.m_cis.len(), 2);
    assert!(c.sop.is_empty() && c.suop.is_empty());
    assert_eq!(c.c_omega[0].len(), 1);
    assert_eq!(c.c_omega[1].len(), 2);
    assert_eq!(c.verify(0), Ok(()));
    let c = CVESCiphertextIn::enc_cs_from_precom(0, oracle.public_key(), w, m, bank, tx, &vec![]).unwrap();
    assert_eq!(c.m_cis.len(), 2);
    assert!(c.m_cis.iter().all(|row| row.is_empty()));
    assert!(c.sop.is_empty() && c.suop.is_empty());
    assert_eq!(c.c_omega.len(), 2);
    assert_eq!(c.verify(), Ok(()));
}

#[test]
fn checked_decryption_without_unopened_units() {
    let oracle = BLSKeyPair::new();
    let bank = kgen();
    let details = message_creator_involved_oracle(2);
    let precom = CVESCiphertextIn::precompute(GAMMA, 2);
    let mut c = CVESCiphertextIn::enc_cs_from_precom(GAMMA, oracle.public_key(), details.witness.clone(), details.transition.clone(),
        bank, details.state.clone(), &precom).unwrap();
    let sig = oracle.sign("transition passing 1");
    c.suop.clear();
    assert_eq!(c.decrypt_checked(sig, details.witness[0], 1).err(), Some(CvesError::DecryptionFailed));
    let precom = CVESCiphertextFig6::precompute(GAMMA, 2);
    let mut c = CVESCiphertextFig6::enc_cs_from_precom(GAMMA, oracle.public_key(), details.witness.clone(), details.transition.clone(),
        bank, details.state.clone(), &precom).unwrap();
    c.suop.clear();
    let agg = oracle.agg_sign(details.transition.clone());
    assert_eq!(c.decrypt_checked(agg, details.witness[0], 0, 1).err(), Some(CvesError::DecryptionFailed));
}

#[test]
fn involved_oracle_cells_are_vector_encryptions() {
    let oracle = BLSKeyPair::new();
    let bank = kgen();
    let details = message_creator_involved_oracle(2);
    let precom = CVESCiphertextIn::precompute(2, 2);
    let c = CVESCiphertextIn::enc_cs_from_precom(2, oracle.public_key(), details.witness.clone(), details.transition.clone(),
        bank, details.state.clone(), &precom).unwrap();
    let first_2: Vec<String> = details.transition.iter().take(2).cloned().collect();
    let p = &precom[1][1];
    let d = atomic_loans::wes::wes_enc_precom_vector(oracle.public_key(), &first_2, p.r1, p.r2.copy(), p.c1, p.c3);
    assert!(c.m_cis[1][1].equals(&d));
    let agg = oracle.agg_sign(first_2);
    assert_eq!(d.decrypt(agg).unwrap().bytes, p.ri.bytes);
}
