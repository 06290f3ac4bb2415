//! Cryptographic collateralized loans without smart contracts.
//!
//! The library implements verifiable witness encryption based on
//! signatures (VGES / CVES): a secret scalar of secp256k1 is encrypted
//! under a BLS attestation of an oracle and under a Schnorr adaptor
//! pre-signature, with a cut-and-choose proof of correct encryption.
//!
//! Group elements are held as their canonical byte encodings; the group
//! arithmetic is done by the `secp256kfun` and `bls12_381` crates.

pub mod bytes;
pub mod hashing;
pub mod chain;
pub mod curve;
pub mod common;
pub mod schnorradaptor;
pub mod signbls;
pub mod wes;
pub mod cves;
pub mod cvesfig5;
pub mod cvesfig6;
pub mod efficient;
pub mod atomicloan;
