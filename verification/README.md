# atomic_loans

Cryptographic collateralized loans without smart contracts: verifiable
encryption of a witness under a signature (VGES/CVES). The witness of a new
loan state is hidden so that the oracle's BLS attestation of a transition,
together with the witness of the state it leaves, opens it, and so that the
opening adapts the bank's Schnorr pre-signature on the payment into a valid
signature.

The library in `src/` is written in Verus. Group elements are held as their
canonical encodings, with the arithmetic of secp256k1 done by `secp256kfun`
and that of BLS12-381 by `bls12_381`, behind wrappers whose contracts state
the group laws. The modules:

- `bytes`, `hashing`, `chain`, `curve`: byte strings, SHA-256, and the two
  curves.
- `schnorradaptor`, `signbls`, `wes`: Schnorr adaptor signatures, BLS
  signatures, and witness encryption based on signatures.
- `cves`, `cvesfig5`, `cvesfig6`, `efficient`: the encryption schemes with
  their cut-and-choose proofs, for one transition, for transitions between
  any two states, and for transitions from the initial state.
- `common`, `atomicloan`: challenge bits, the conditions of a loan, and
  preparing, verifying and decrypting a loan.

Each scheme comes with proofs that an honestly made ciphertext verifies and
that the oracle's signature opens it; for the scheme with transitions from
the initial state, this holds of the first state only: the secret recovered
for a later state also holds the secrets of the earlier rows. `app/main.rs` times the schemes:

```
cargo run --release -- -g 256 -s 6
```
