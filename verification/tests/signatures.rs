use atomic_loans::chain::{ChainPoint, ChainScalar};
use atomic_loans::common::{hash_to_g2, schnorr_hash};
use atomic_loans::curve::BlsScalar;
use atomic_loans::efficient::statements;
use atomic_loans::schnorradaptor::{
    adapt, keypair_from_secret, kgen, pre_sign, pre_sign_with_nonce, pre_verify, sign, sign_with_nonce, verify,
};
use atomic_loans::signbls::BLSKeyPair;
use sha2::{Digest, Sha256};

fn scalar(v: u64) -> ChainScalar {
    let mut bytes = [0u8; 32];
    bytes[24..].copy_from_slice(&v.to_be_bytes());
    ChainScalar { bytes }
}

fn point_of(v: u64) -> ChainPoint {
    statements(&vec![scalar(v)])[0]
}

const SECP_G: &str = "0279be667ef9dcbbac55a06295ce870b07029bfcdb2dce28d959f2815b16f81798";
const BLS_G1: &str = "97f1d3a73197d7942695638c4fa9ac0fc3688c4f9774b905a14e3a3f171bac586c55e83ff97a1aeffb3af00adb22c6bb";

fn hex(bytes: &[u8]) -> String {
    bytes.iter().map(|b| format!("{:02x}", b)).collect()
}

#[test]
fn public_key_of_one_is_the_generator() {
    let kp = keypair_from_secret(scalar(1));
    assert_eq!(hex(&kp.public_key().bytes), SECP_G);
    assert_eq!(hex(&point_of(1).bytes), SECP_G);
}

#[test]
fn sign_then_verify() {
    let kp = kgen();
    let sig = sign(&kp, "pay 100").expect("a fresh nonce gives a signature");
    assert!(verify(kp.public_key(), "pay 100", sig));
    assert!(!verify(kp.public_key(), "pay 101", sig));
    let other = kgen();
    assert!(!verify(other.public_key(), "pay 100", sig));
}

#[test]
fn sign_with_fixed_nonce_is_deterministic() {
    let kp = keypair_from_secret(scalar(7));
    let a = sign_with_nonce(&kp, "m", &scalar(11)).unwrap();
    let b = sign_with_nonce(&kp, "m", &scalar(11)).unwrap();
    assert_eq!(a.s().bytes, b.s().bytes);
    assert_eq!(a.r().bytes, b.r().bytes);
    assert!(verify(kp.public_key(), "m", a));
}

#[test]
fn schnorr_challenge_is_the_digest() {
    let pk = point_of(3);
    let rand = point_of(5);
    let r = schnorr_hash(&pk, rand, "message").unwrap();
    let mut h = Sha256::new();
    h.update(pk.bytes);
    h.update(rand.bytes);
    h.update("message".as_bytes());
    let d: [u8; 32] = h.finalize().into();
    // the digest is below the group order with overwhelming probability
    assert_eq!(r.bytes, d);
}

#[test]
fn pre_sign_adapt_verify() {
    let kp = kgen();
    let y = scalar(123456789);
    let y_pub = point_of(123456789);
    let pre = pre_sign(&kp, "tx", &y_pub).unwrap();
    assert!(pre_verify(kp.public_key(), "tx", &pre, &y_pub));
    assert!(!pre_verify(kp.public_key(), "tx", &pre, &point_of(5)));
    let sig = adapt(&pre, &y).unwrap();
    assert!(verify(kp.public_key(), "tx", sig));
    let wrong = adapt(&pre, &scalar(2)).unwrap();
    assert!(!verify(kp.public_key(), "tx", wrong));
}

#[test]
fn pre_sign_with_nonce_matches_adapted_sign() {
    // s' = k + r sk, adapted by y: the nonce point is (k + y) G
    let kp = keypair_from_secret(scalar(9));
    let pre = pre_sign_with_nonce(&kp, "a", &point_of(4), &scalar(6)).unwrap();
    let sig = adapt(&pre, &scalar(4)).unwrap();
    let direct = sign_with_nonce(&kp, "a", &scalar(10)).unwrap();
    assert_eq!(sig.s().bytes, direct.s().bytes);
    assert_eq!(sig.r().bytes, direct.r().bytes);
}

#[test]
fn bls_key_of_one_is_the_generator() {
    let mut bytes = [0u8; 32];
    bytes[0] = 1;
    let kp = BLSKeyPair::from_secret(BlsScalar { bytes });
    assert_eq!(hex(&kp.public_key().bytes), BLS_G1);
    // the signature of the key one is the hash point itself
    assert_eq!(kp.sign("attestation").bytes.to_vec(), hash_to_g2("attestation").bytes.to_vec());
}

#[test]
fn bls_sign_then_verify() {
    let kp = BLSKeyPair::new();
    let s = kp.sign("transition 0-1");
    assert!(kp.verify("transition 0-1", s));
    assert!(!kp.verify("transition 0-2", s));
}

#[test]
fn hash_to_g2_depends_on_the_message() {
    assert_eq!(hash_to_g2("a").bytes.to_vec(), hash_to_g2("a").bytes.to_vec());
    assert_ne!(hash_to_g2("a").bytes.to_vec(), hash_to_g2("b").bytes.to_vec());
}

#[test]
fn aggregate_of_one_is_the_signature() {
    let kp = BLSKeyPair::new();
    let agg = kp.agg_sign(vec!["m1".to_string()]);
    assert_eq!(agg.bytes.to_vec(), kp.sign("m1").bytes.to_vec());
    let agg2 = kp.agg_sign(vec!["m1".to_string(), "m2".to_string()]);
    assert_ne!(agg2.bytes.to_vec(), agg.bytes.to_vec());
}

#[test]
fn aggregate_does_not_depend_on_the_order() {
    let kp = BLSKeyPair::new();
    let ab = kp.agg_sign(vec!["a".to_string(), "b".to_string(), "c".to_string()]);
    let ba = kp.agg_sign(vec!["c".to_string(), "b".to_string(), "a".to_string()]);
    assert_eq!(ab.bytes.to_vec(), ba.bytes.to_vec());
}

#[test]
fn aggregate_encryption_does_not_depend_on_the_order() {
    let kp = BLSKeyPair::new();
    let pre = atomic_loans::wes::WESCiphertext::precompute();
    let c = atomic_loans::wes::wes_enc_precom_vector(kp.pk, &vec!["a".to_string(), "b".to_string()], pre.r1, pre.r2.copy(), pre.c1,
        pre.c3);
    let d = atomic_loans::wes::wes_enc_precom_vector(kp.pk, &vec!["b".to_string(), "a".to_string()], pre.r1, pre.r2.copy(), pre.c1,
        pre.c3);
    let three = atomic_loans::wes::wes_enc_precom_vector(kp.pk, &vec!["a".to_string(), "b".to_string(), "c".to_string()], pre.r1,
        pre.r2.copy(), pre.c1, pre.c3);
    let rotated = atomic_loans::wes::wes_enc_precom_vector(kp.pk, &vec!["b".to_string(), "c".to_string(), "a".to_string()], pre.r1,
        pre.r2.copy(), pre.c1, pre.c3);
    assert!(three.equals(&rotated));
    assert!(c.equals(&d));
    let e = atomic_loans::wes::wes_enc_precom_vector(kp.pk, &vec!["a".to_string()], pre.r1, pre.r2.copy(), pre.c1, pre.c3);
    assert!(!c.equals(&e));
}
