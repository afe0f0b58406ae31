# diegox

A lattice-based (LWE, negacyclic, n = 1024, q = 12289) encryption suite with
two-slot containers for plausible deniability, written in Verus.

- `src/` is the verified library: the ring arithmetic and the LWE
  correctness argument (`ring`, `lattice`), key derivation from a passphrase
  (`keys::derivation`), the binary and armored text forms of public keys
  (`keys::encoding`, `keys::armor`, `keys::structures`), the sealed payload
  frame (`engine::payload_builder`), dual encryption and blind decryption
  (`engine::crypto_core`) with the laws that relate them
  (`engine::correctness`), the interface's state decisions (`gui::state`)
  and what its background workers compute (`gui::worker`). Calls into argon2, sha2, base64, rand_chacha and ndarray
  stand behind small trusted wrappers (`kdf`, `digest`, `text`, `chacha`,
  `coeffs`) whose contracts name what those crates compute.
- `app/` is a command-line front end: argument handling, file I/O and the
  serde/bincode form of containers.
- `tests/` runs the library on concrete values with the real crates linked.
