use atomic_loans::chain::ChainScalar;
use atomic_loans::common::{hash_to_g2, schnorr_hash};
use atomic_loans::curve::BlsScalar;
use atomic_loans::cvesfig5::open_unit;
use atomic_loans::efficient::statements;
use atomic_loans::schnorradaptor::{adapt, keypair_from_secret, sign_with_nonce, SchnorrPreSig};
use atomic_loans::signbls::BLSKeyPair;
use secp256kfun::marker::{Secret, Zero};

fn scalar(v: u64) -> ChainScalar {
    let mut bytes = [0u8; 32];
    bytes[24..].copy_from_slice(&v.to_be_bytes());
    ChainScalar { bytes }
}

#[test]
fn adapt_adds_the_witness() {
    let pre = SchnorrPreSig { s: scalar(5), r: scalar(6) };
    let sig = adapt(&pre, &scalar(7)).unwrap();
    assert_eq!(sig.s().bytes, scalar(12).bytes);
    assert_eq!(sig.r().bytes, scalar(6).bytes);
}

#[test]
fn opening_a_unit_subtracts_the_pads() {
    // y = 10 - 3, sec = 20 - 7, final = 13 - 4, y + wa = 11, s = 5 + 11
    let presig = SchnorrPreSig { s: scalar(5), r: scalar(6) };
    let (sec, sig) = open_unit(&scalar(10), &scalar(3), &scalar(20), &presig, &scalar(4)).unwrap();
    assert_eq!(sec.bytes, scalar(9).bytes);
    assert_eq!(sig.s().bytes, scalar(16).bytes);
    assert_eq!(sig.r().bytes, scalar(6).bytes);
}

#[test]
fn signature_is_nonce_plus_challenge_times_key() {
    let sk = scalar(1000);
    let k = scalar(77);
    let kp = keypair_from_secret(sk);
    let sig = sign_with_nonce(&kp, "pay", &k).unwrap();
    let r = schnorr_hash(&kp.public_key(), statements(&vec![k])[0], "pay").unwrap();
    let r_s = secp256kfun::Scalar::<Secret, Zero>::from_bytes(r.bytes).unwrap();
    let sk_s = secp256kfun::Scalar::<Secret, Zero>::from_bytes(sk.bytes).unwrap();
    let k_s = secp256kfun::Scalar::<Secret, Zero>::from_bytes(k.bytes).unwrap();
    let expected = secp256kfun::op::scalar_add(k_s, secp256kfun::op::scalar_mul(r_s, sk_s));
    assert_eq!(sig.s().bytes, expected.to_bytes());
    assert_eq!(sig.r().bytes, r.bytes);
}

#[test]
fn bls_signature_is_the_hash_times_the_key() {
    let mut bytes = [0u8; 32];
    bytes[0] = 2;
    let kp = BLSKeyPair::from_secret(BlsScalar { bytes });
    let h = bls12_381::G2Affine::from_compressed(&hash_to_g2("m").bytes).unwrap();
    let expected = bls12_381::G2Affine::from(h * bls12_381::Scalar::from(2u64)).to_compressed();
    assert_eq!(kp.sign("m").bytes.to_vec(), expected.to_vec());
}
