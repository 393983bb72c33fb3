# slh_verify

Verified signature verification for SLH-DSA (FIPS 205) with the SHA2 hash
suite of security category 1, and a fixed entry point for the parameter set
SLH-DSA-SHA2-128s.

Every function of the verification path carries a contract that states its
result exactly, over specification functions that follow the algorithms of
FIPS 205. SHA-256 itself is the one thing not proved: it is computed by the
`sha2` crate, and its result is named (`sha256_digest`) rather than defined.

Layout of `src/`:

- `adrs.rs` — hash addresses and their 22-byte compressed form.
- `encoding.rs` — `toInt`, `toByte` and `base_2^b`.
- `oracle.rs` — the tweakable hashes `F`, `H`, `T_l` and the message hash
  `H_msg` (MGF1-SHA-256).
- `types.rs` — signature and public key structures.
- `wots.rs`, `xmss.rs`, `fors.rs`, `hypertree.rs` — the components.
- `slh.rs` — `slh_verify_internal` for any parameter set meeting
  `valid_params`, and `slh_verify_128s`.
- `correctness.rs` — signing over an arbitrary assignment of secret values,
  and the proofs that verification accepts every honestly produced WOTS+,
  XMSS, FORS, hypertree and SLH-DSA signature.

The tests compare the verifier with the `slh-dsa` crate on signatures that it
produces, and check each component on hand-built trees.
