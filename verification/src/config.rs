//! Fixed parameters of the lattice scheme.
use vstd::prelude::*;

verus! {

/// Number of coefficients of every polynomial of the scheme (`n`).
pub const DIMENSION: usize = 1024;

/// Modulus of all polynomial arithmetic (`q`, a prime).
pub const MODULUS: i64 = 12289;

/// Amplitude that encodes a one bit: `q / 2`.
pub const DELTA: i64 = 6144;

} // verus!
