use atomic_loans::chain::ChainScalar;
use atomic_loans::common::sample_rand_chain_scalar;
use atomic_loans::cves::{
    dec_cs, enc_cs, enc_cs_with_precomputation, enc_cs_with_precomputation_and_pad, enc_cs_with_precomputation_vector,
    enc_cs_with_precomputation_vector_and_pad, precompute_enc_cs, vf_enc_cs, CvesError,
};
use atomic_loans::cvesfig5::CVESCiphertextFig5;
use atomic_loans::efficient::statements;
use atomic_loans::schnorradaptor::{kgen, verify};
use atomic_loans::signbls::BLSKeyPair;

const GAMMA: usize = 16;

fn scalar(v: u64) -> ChainScalar {
    let mut bytes = [0u8; 32];
    bytes[24..].copy_from_slice(&v.to_be_bytes());
    ChainScalar { bytes }
}

#[test]
fn fig5_encrypt_verify_decrypt() {
    let oracle = BLSKeyPair::new();
    let bank = kgen();
    let wa = sample_rand_chain_scalar();
    let sec = sample_rand_chain_scalar();
    let precom = CVESCiphertextFig5::precompute(GAMMA);
    let c = CVESCiphertextFig5::enc_cs_from_precom(GAMMA, oracle.public_key(), wa, "transition 0-1", sec, bank, "state 1", &precom)
        .expect("random pads give a ciphertext");
    assert_eq!(c.verify(GAMMA), Ok(()));
    let sig = oracle.sign("transition 0-1");
    let (got, pay) = c.decrypt(sig, wa).expect("an unopened position decrypts");
    assert_eq!(got.bytes, sec.bytes);
    assert!(verify(bank.public_key(), "state 1", pay));
}

#[test]
fn fig5_errors() {
    let oracle = BLSKeyPair::new();
    let bank = kgen();
    let wa = sample_rand_chain_scalar();
    let sec = sample_rand_chain_scalar();
    let precom = CVESCiphertextFig5::precompute(GAMMA);
    let mut c = CVESCiphertextFig5::enc_cs_from_precom(GAMMA, oracle.public_key(), wa, "t", sec, bank, "s", &precom).unwrap();
    // a signature on another attestation opens nothing
    let wrong = oracle.sign("other");
    assert_eq!(c.decrypt(wrong, wa).err(), Some(CvesError::DecryptionFailed));
    let c_omega = c.c_omega;
    c.c_omega = scalar(5);
    assert_eq!(c.verify(GAMMA), Err(CvesError::InvalidEncryption));
    c.c_omega = c_omega;
    let s = c.sigma_tilde.s;
    c.sigma_tilde.s = scalar(5);
    assert_eq!(c.verify(GAMMA), Err(CvesError::InvalidPresignature));
    c.sigma_tilde.s = s;
    assert_eq!(c.verify(GAMMA), Ok(()));
    if !c.suop.is_empty() {
        c.suop[0].si = scalar(5);
    } else {
        c.sop[0].ri = scalar(5);
    }
    assert_eq!(c.verify(GAMMA), Err(CvesError::InvalidCutAndChoose));
}

#[test]
fn fig5_zero_pad_gives_none() {
    let oracle = BLSKeyPair::new();
    let bank = kgen();
    let precom = CVESCiphertextFig5::precompute(4);
    // y + wa is zero: y = n - 1, wa = 1
    let mut y = [0xffu8; 32];
    let n_minus_one: [u8; 32] = [
        0xFF, 0xFF, 0xFF, 0xFF, 0xFF, 0xFF, 0xFF, 0xFF, 0xFF, 0xFF, 0xFF, 0xFF, 0xFF, 0xFF, 0xFF, 0xFE, 0xBA, 0xAE,
        0xDC, 0xE6, 0xAF, 0x48, 0xA0, 0x3B, 0xBF, 0xD2, 0x5E, 0x8C, 0xD0, 0x36, 0x41, 0x40,
    ];
    y.copy_from_slice(&n_minus_one);
    let r = CVESCiphertextFig5::enc_cs_from_precom_with(4, oracle.public_key(), scalar(1), "t", scalar(9), bank, "s", &precom,
        ChainScalar { bytes: y }, scalar(3));
    assert!(r.is_none());
}

#[test]
fn cves_free_functions() {
    let oracle = BLSKeyPair::new();
    let bank = kgen();
    let wa = sample_rand_chain_scalar();
    let sec = sample_rand_chain_scalar();
    let c = enc_cs(GAMMA, oracle.public_key(), wa, "transition 0-1", sec, &bank, "state 1").unwrap();
    let xa = statements(&vec![wa])[0];
    let xw = statements(&vec![sec])[0];
    assert!(vf_enc_cs(GAMMA, oracle.public_key(), xa, xw, "transition 0-1", &c, bank.public_key(), "state 1"));
    assert!(!vf_enc_cs(GAMMA, oracle.public_key(), xw, xa, "transition 0-1", &c, bank.public_key(), "state 1"));
    let sig = oracle.sign("transition 0-1");
    let (got, pay) = dec_cs(&c, sig, wa).unwrap();
    assert_eq!(got.bytes, sec.bytes);
    assert!(verify(bank.public_key(), "state 1", pay));
    let wrong = oracle.sign("transition 0-2");
    assert_eq!(dec_cs(&c, wrong, wa).err(), Some(CvesError::DecryptionFailed));
}

#[test]
fn cves_with_precomputation() {
    let oracle = BLSKeyPair::new();
    let bank = kgen();
    let wa = sample_rand_chain_scalar();
    let sec = sample_rand_chain_scalar();
    let precom = precompute_enc_cs(GAMMA);
    let c = enc_cs_with_precomputation(GAMMA, oracle.public_key(), wa, "m", sec, &bank, "tx", &precom).unwrap();
    let xa = statements(&vec![wa])[0];
    let xw = statements(&vec![sec])[0];
    assert!(vf_enc_cs(GAMMA, oracle.public_key(), xa, xw, "m", &c, bank.public_key(), "tx"));
    assert!(!vf_enc_cs(GAMMA, oracle.public_key(), xa, xw, "m", &c, bank.public_key(), "other tx"));
    let (got, _) = dec_cs(&c, oracle.sign("m"), wa).unwrap();
    assert_eq!(got.bytes, sec.bytes);
}

#[test]
fn cves_vector_uses_the_aggregate() {
    let oracle = BLSKeyPair::new();
    let bank = kgen();
    let sec = sample_rand_chain_scalar();
    let precom = precompute_enc_cs(GAMMA);
    let m = vec!["a".to_string(), "b".to_string()];
    let c = enc_cs_with_precomputation_vector(GAMMA, oracle.public_key(), vec![], m.clone(), sec, &bank, "tx", &precom, 0).unwrap();
    assert_eq!(c.cis.len(), GAMMA);
    // the unopened secrets open with the aggregate signature of both
    let agg = oracle.agg_sign(m);
    if !c.suop.is_empty() {
        let u = &c.suop[0];
        let ri = atomic_loans::wes::wes_dec(agg, u.ci.copy());
        assert_eq!(statements(&vec![ri])[0].bytes.to_vec(), c.v_ri_pub[u.i].bytes.to_vec());
    }
}

#[test]
fn positions_past_the_lists_do_not_verify() {
    let oracle = BLSKeyPair::new();
    let bank = kgen();
    let wa = sample_rand_chain_scalar();
    let sec = sample_rand_chain_scalar();
    let precom = CVESCiphertextFig5::precompute(4);
    let c = CVESCiphertextFig5::enc_cs_from_precom(4, oracle.public_key(), wa, "m", sec, bank, "tx", &precom).unwrap();
    assert_eq!(c.verify(4), Ok(()));
    assert_eq!(c.verify(GAMMA), Err(CvesError::InvalidCutAndChoose));
    let precom = precompute_enc_cs(4);
    let c = enc_cs_with_precomputation(4, oracle.public_key(), wa, "m", sec, &bank, "tx", &precom).unwrap();
    let xa = statements(&vec![wa])[0];
    let xw = statements(&vec![sec])[0];
    assert!(vf_enc_cs(4, oracle.public_key(), xa, xw, "m", &c, bank.public_key(), "tx"));
    assert!(!vf_enc_cs(GAMMA, oracle.public_key(), xa, xw, "m", &c, bank.public_key(), "tx"));
}

#[test]
fn cves_with_given_pad() {
    let oracle = BLSKeyPair::new();
    let bank = kgen();
    let precom = precompute_enc_cs(GAMMA);
    let c = enc_cs_with_precomputation_and_pad(GAMMA, oracle.public_key(), scalar(3), "m", scalar(11), &bank, "tx", &precom,
        scalar(5), scalar(7)).unwrap();
    assert_eq!(c.y_pub.bytes.to_vec(), statements(&vec![scalar(5)])[0].bytes.to_vec());
    // one-time pad (y + wa) + sec
    assert_eq!(c.c_omega.bytes, scalar(19).bytes);
    let xa = statements(&vec![scalar(3)])[0];
    let xw = statements(&vec![scalar(11)])[0];
    assert!(vf_enc_cs(GAMMA, oracle.public_key(), xa, xw, "m", &c, bank.public_key(), "tx"));
    let m = vec!["a".to_string(), "b".to_string()];
    let v = enc_cs_with_precomputation_vector_and_pad(GAMMA, oracle.public_key(), &m, scalar(11), &bank, "tx", &precom,
        scalar(5), scalar(7)).unwrap();
    // the pad stands in for the origin's witness: (y + y) + sec
    assert_eq!(v.c_omega.bytes, scalar(21).bytes);
    assert_eq!(v.y_pub.bytes.to_vec(), statements(&vec![scalar(5)])[0].bytes.to_vec());
}
