use atomic_loans::bytes::{bytes_to_bits, xor32};
use atomic_loans::chain::ChainScalar;
use atomic_loans::common::{gt_to_bytes, hash_to_bits, push_decimal, sample_rand_chain_scalar, sample_rand_gt};
use atomic_loans::signbls::BLSKeyPair;
use atomic_loans::wes::{message_element, wes_dec, WESCiphertext, WesError};
use sha2::{Digest, Sha256};

fn scalar(v: u64) -> ChainScalar {
    let mut bytes = [0u8; 32];
    bytes[24..].copy_from_slice(&v.to_be_bytes());
    ChainScalar { bytes }
}

#[test]
fn bits_of_bytes_most_significant_first() {
    let bits = bytes_to_bits(&[0b1010_0000, 0x01]);
    assert_eq!(
        bits,
        vec![true, false, true, false, false, false, false, false, false, false, false, false, false, false, false, true]
    );
}

#[test]
fn xor_of_bytes() {
    let mut a = [0u8; 32];
    let mut b = [0u8; 32];
    a[0] = 0xf0;
    b[0] = 0x3c;
    b[31] = 7;
    let r = xor32(&a, &b);
    assert_eq!(r[0], 0xcc);
    assert_eq!(r[31], 7);
    assert_eq!(xor32(&r, &b), a);
}

#[test]
fn decimal_digits() {
    let mut s = "n=".to_string();
    push_decimal(&mut s, 0);
    assert_eq!(s, "n=0");
    let mut s = String::new();
    push_decimal(&mut s, 1234);
    assert_eq!(s, "1234");
    let mut s = String::new();
    push_decimal(&mut s, 10);
    assert_eq!(s, "10");
}

#[test]
fn key_of_gt_is_its_digest() {
    let e = sample_rand_gt();
    let expected: [u8; 32] = Sha256::digest(e.encoding()).into();
    assert_eq!(gt_to_bytes(&e), expected);
}

#[test]
fn challenge_bits_are_256_and_depend_on_the_input() {
    let a = hash_to_bits(&vec![], vec![], scalar(1), 
        atomic_loans::efficient::statements(&vec![scalar(2)])[0],
        atomic_loans::efficient::statements(&vec![scalar(3)])[0],
        atomic_loans::efficient::statements(&vec![scalar(4)])[0],
        &atomic_loans::schnorradaptor::SchnorrPreSig { s: scalar(5), r: scalar(6) });
    let b = hash_to_bits(&vec![], vec![], scalar(7),
        atomic_loans::efficient::statements(&vec![scalar(2)])[0],
        atomic_loans::efficient::statements(&vec![scalar(3)])[0],
        atomic_loans::efficient::statements(&vec![scalar(4)])[0],
        &atomic_loans::schnorradaptor::SchnorrPreSig { s: scalar(5), r: scalar(6) });
    assert_eq!(a.len(), 256);
    assert_eq!(b.len(), 256);
    assert_ne!(a, b);
}

#[test]
fn wes_round_trip() {
    let oracle = BLSKeyPair::new();
    let sec = sample_rand_chain_scalar();
    let (c, _r1, _r2) = WESCiphertext::new(oracle.public_key(), "loan repaid", sec);
    let sig = oracle.sign("loan repaid");
    let got = wes_dec(sig, c.copy());
    assert_eq!(got.bytes, sec.bytes);
    let via_method = c.copy().decrypt(sig).unwrap();
    assert_eq!(via_method.bytes, sec.bytes);
    let wrong = oracle.sign("loan defaulted");
    assert_ne!(wes_dec(wrong, c).bytes, sec.bytes);
}

#[test]
fn wes_reconstruct_checks_each_part() {
    let oracle = BLSKeyPair::new();
    let sec = scalar(42);
    let pk = oracle.public_key();
    let (c, r1, r2) = WESCiphertext::new(pk, "m", sec);
    let e = message_element(&pk, "m");
    assert_eq!(c.copy().reconstruct(&e, sec, r1, &r2), Ok(()));
    assert_eq!(c.copy().reconstruct(&e, scalar(43), r1, &r2), Err(WesError::InvalidC3));
    let other = message_element(&pk, "other");
    assert_eq!(c.copy().reconstruct(&other, sec, r1, &r2), Err(WesError::InvalidC2));
    let (_, r1b, _) = WESCiphertext::new(pk, "m", sec);
    assert_eq!(c.copy().reconstruct(&e, sec, r1b, &r2), Err(WesError::InvalidC1));
}

#[test]
fn precomputed_ciphertext_matches_fresh_one() {
    let oracle = BLSKeyPair::new();
    let pk = oracle.public_key();
    let pre = WESCiphertext::precompute();
    let ri = pre.ri;
    let e = message_element(&pk, "state 1");
    let c = WESCiphertext::new_from_precom(pre.copy(), &e);
    let sig = oracle.sign("state 1");
    assert_eq!(wes_dec(sig, c).bytes, ri.bytes);
}

#[test]
fn multi_row_challenge_reads_the_flattened_rows() {
    let a = vec![vec![scalar(1), scalar(2)], vec![scalar(3)]];
    let b = vec![vec![scalar(1)], vec![scalar(2), scalar(3)]];
    let c = vec![vec![scalar(3)], vec![scalar(2), scalar(1)]];
    let x = atomic_loans::efficient::statements(&vec![scalar(4)]);
    let bits_a = atomic_loans::common::hash_to_bits_in(&vec![], &vec![], &a, &x, &vec![], &vec![]);
    let bits_b = atomic_loans::common::hash_to_bits_in(&vec![], &vec![], &b, &x, &vec![], &vec![]);
    let bits_c = atomic_loans::common::hash_to_bits_in(&vec![], &vec![], &c, &x, &vec![], &vec![]);
    assert_eq!(bits_a, bits_b);
    assert_ne!(bits_a, bits_c);
}
