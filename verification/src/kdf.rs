//! Argon2id password stretching, through the `argon2` crate.
use vstd::prelude::*;

verus! {

/// The 32 bytes that `Argon2::default()` (Argon2id, version 0x13, default
/// cost parameters) derives from password `pwd` and salt `salt`.
pub uninterp spec fn argon2id_default_32(pwd: Seq<u8>, salt: Seq<u8>) -> Seq<u8>;

/// `Argon2::default().hash_password_into(pwd, salt, &mut out)` with a
/// 32-byte output: the bytes named by `argon2id_default_32`. The crate
/// returns an error only for a password longer than `0xFFFF_FFFF` bytes, a
/// salt shorter than 8 or longer than `0xFFFF_FFFF` bytes, or an output
/// length outside `[4, 0xFFFF_FFFF]`; `requires` rules these out.
#[verifier::external_body]
pub(crate) fn argon2id_hash_32(pwd: &[u8], salt: &[u8]) -> (out: [u8; 32])
    requires
        pwd@.len() <= 0xFFFF_FFFF,
        8 <= salt@.len() <= 0xFFFF_FFFF,
    ensures
        out@ == argon2id_default_32(pwd@, salt@),
{
    let mut out = [0u8; 32];
    argon2::Argon2::default().hash_password_into(pwd, salt, &mut out).expect(
        "Critical error in quantum KDF derivation",
    );
    out
}

} // verus!
