//! The `.diegox` container type.
use crate::coeffs::CoeffVector;
use crate::config::DIMENSION;
use vstd::prelude::*;

verus! {

/// The `.diegox` container: two slots of identical form, each a KEM
/// ciphertext `(u, v)` and an encrypted sealed payload. Slot alpha carries
/// the real payload, slot beta the decoy (or noise for a ghost identity).
pub struct QuantumCapsule {
    pub kem_alpha: (CoeffVector, CoeffVector),
    pub block_alpha: Vec<u8>,
    pub kem_beta: (CoeffVector, CoeffVector),
    pub block_beta: Vec<u8>,
}

impl QuantumCapsule {
    /// Slot alpha as values: `(u, v, encrypted block)`.
    pub open spec fn alpha(&self) -> (Seq<i64>, Seq<i64>, Seq<u8>) {
        (self.kem_alpha.0@, self.kem_alpha.1@, self.block_alpha@)
    }

    /// Slot beta as values: `(u, v, encrypted block)`.
    pub open spec fn beta(&self) -> (Seq<i64>, Seq<i64>, Seq<u8>) {
        (self.kem_beta.0@, self.kem_beta.1@, self.block_beta@)
    }

    /// Both slots carry at least `n` coefficients of `u` and 256 of `v`, the
    /// ones decryption reads.
    pub open spec fn is_well_formed(&self) -> bool {
        &&& self.kem_alpha.0@.len() >= DIMENSION
        &&& self.kem_alpha.1@.len() >= 256
        &&& self.kem_beta.0@.len() >= DIMENSION
        &&& self.kem_beta.1@.len() >= 256
    }
}

} // verus!
