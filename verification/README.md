# ferveo_tdec

Threshold decryption over the BLS12-381 pairing, verified with Verus.

A dealer shares a secret `f(0)` among participants with a random polynomial `f`; a
message is encrypted under the public key `[f(0)] G` with ChaCha20-Poly1305 keyed by a
pairing-derived secret, and any threshold of participants produce decryption shares that
combine, with Lagrange coefficients, into that secret.

Layout:

- `src/` — the verified library. Points and scalars are held as their canonical
  arkworks encodings; the group and field operations, hashing to G2, SHA-256, the AEAD and
  SCALE framing are calls into arkworks, `sha2`, `chacha20poly1305`, `parity-scale-codec`
  and `hex` behind small trusted wrappers whose contracts name their results. On top of
  them the library proves what it computes: ciphertext checks, encryption and decryption,
  share creation and verification, share combination, dealing, and the encodings.
  `src/interpolation.rs` proves Lagrange interpolation in the scalar field, and
  `src/threshold.rs` the laws that threshold shares of a dealt key recombine into the
  shared secret of an encryption under the dealt public key.
- `tests/` — executable tests against the real outside crates.
- `app/` — serde, bincode and error-display glue: copies of the library's values with
  arkworks fields that carry serde encodings, and the construction of the ChaCha20-Poly1305
  cipher from a shared secret.
