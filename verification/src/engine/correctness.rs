//! What encryption and blind decryption promise of each other.
use crate::chacha::{lemma_range_draws_bounds, lemma_range_draws_len, RngModel};
use crate::config::{DELTA, DIMENSION, MODULUS};
use crate::digest::sha256_spec;
use crate::engine::crypto_core::{
    blind_opened, decoded_bits, decrypted_block, encrypt_dual_spec, kem_block_spec, message_coeff,
    pack_prefix, packed_bytes, secret_products, seed_bits, stream_masked, xor_bytes,
};
use crate::engine::payload_builder::{lemma_seal_open_roundtrip, sealed_payload};
use crate::keys::derivation::{
    expand_poly, identity_drawn, identity_of_key, passphrase_key, residue,
};
use crate::lattice::{ints, is_binary, lemma_lwe_bit_correct, q, row_dot};
use crate::ring::is_unit_bounded;
use vstd::arithmetic::div_mod::{lemma_mod_bound, lemma_mod_twice};
use vstd::prelude::*;
use vstd::utf8::encode_utf8;

verus! {

/// Masking twice with the same keystream gives the block back.
pub proof fn lemma_xor_involutive(x: Seq<u8>, k: Seq<u8>)
    ensures
        xor_bytes(xor_bytes(x, k), k) == x,
{
    assert forall|i: int| 0 <= i < x.len() implies #[trigger] xor_bytes(xor_bytes(x, k), k)[i]
        == x[i] by {
        let a = x[i];
        let b = k[i];
        assert((a ^ b) ^ b == a) by (bit_vector);
    }
    assert(xor_bytes(xor_bytes(x, k), k) =~= x);
}

/// Unmasking with the same secret recovers a masked block.
pub proof fn lemma_stream_unmask(block: Seq<u8>, secret: Seq<u8>)
    ensures
        stream_masked(stream_masked(block, secret), secret) == block,
{
    let ks = crate::chacha::chacha20_byte_stream(sha256_spec(secret)@, block.len());
    assert(xor_bytes(block, ks).len() == block.len());
    lemma_xor_involutive(block, ks);
}

/// Packing the bits of a 32-byte secret gives the secret back.
pub proof fn lemma_pack_seed_bits(seed: Seq<u8>)
    requires
        seed.len() == 32,
    ensures
        packed_bytes(seed_bits(seed)) == seed,
{
    let bits = seed_bits(seed);
    assert forall|c: int| 0 <= c < 32 implies #[trigger] packed_bytes(bits)[c] == seed[c] by {
        let x = seed[c];
        assert forall|t: int| 0 <= t < 8 implies #[trigger] bits[8 * c + t] == (x >> (t as u8)) & 1u8 by {
            vstd::arithmetic::div_mod::lemma_fundamental_div_mod_converse(8 * c + t, 8, c, t);
        }
        reveal_with_fuel(pack_prefix, 9);
        let b0 = bits[8 * c];
        let b1 = bits[8 * c + 1];
        let b2 = bits[8 * c + 2];
        let b3 = bits[8 * c + 3];
        let b4 = bits[8 * c + 4];
        let b5 = bits[8 * c + 5];
        let b6 = bits[8 * c + 6];
        let b7 = bits[8 * c + 7];
        assert(b0 == (x >> 0u8) & 1u8);
        assert(b7 == (x >> 7u8) & 1u8);
        assert((((((((0u8 | (b0 << 0u8)) | (b1 << 1u8)) | (b2 << 2u8)) | (b3 << 3u8)) | (b4 << 4u8))
            | (b5 << 5u8)) | (b6 << 6u8)) | (b7 << 7u8) == x) by (bit_vector)
            requires
                b0 == (x >> 0u8) & 1u8,
                b1 == (x >> 1u8) & 1u8,
                b2 == (x >> 2u8) & 1u8,
                b3 == (x >> 3u8) & 1u8,
                b4 == (x >> 4u8) & 1u8,
                b5 == (x >> 5u8) & 1u8,
                b6 == (x >> 6u8) & 1u8,
                b7 == (x >> 7u8) & 1u8,
        ;
    }
    assert(packed_bytes(bits) =~= seed);
}

/// `residue(x)` is `x mod q`, as an integer.
proof fn lemma_residue(x: int)
    ensures
        residue(x) as int == x % q(),
        (residue(x) as int) % q() == x % q(),
{
    lemma_mod_bound(x, q());
    lemma_mod_twice(x, q());
}

/// Slot decryption with the matching secret reads back every bit of the
/// slot's secret, whatever the generator states behind the key pair and
/// behind the slot.
pub proof fn lemma_kem_bits(key_st: RngModel, st: RngModel, payload: Seq<u8>, ext: Seq<u8>)
    ensures
        ({
            let id = identity_drawn(key_st);
            let k = kem_block_spec(st, id.0, id.1, payload, ext);
            decoded_bits(k.1, secret_products(id.2, k.0)) == seed_bits(st.fill_draw().0)
        }),
{
    let n = DIMENSION as nat;
    let id = identity_drawn(key_st);
    let f = key_st.fill_draw();
    let sd = f.1.range_draws(0, 2, n);
    let ed = sd.1.range_draws(-1i64, 2, n);
    let k = kem_block_spec(st, id.0, id.1, payload, ext);
    let ff = st.fill_draw();
    let rd = ff.1.range_draws(0, 2, n);
    let ed2 = rd.1.range_draws(-1i64, 2, 2 * n);
    let bits = seed_bits(ff.0);
    let a = ints(expand_poly(id.0));
    let s = ints(id.2);
    let e = ints(ed.0);
    let b = ints(id.1);
    let r = ints(rd.0);
    let u = ints(k.0);
    let e1 = Seq::new(n, |t: int| ed2.0[2 * t] as int);
    lemma_range_draws_len(RngModel::seeded(id.0), 0, MODULUS, n);
    lemma_range_draws_bounds(f.1, 0, 2, n);
    lemma_range_draws_bounds(sd.1, -1i64, 2, n);
    lemma_range_draws_bounds(ff.1, 0, 2, n);
    lemma_range_draws_bounds(rd.1, -1i64, 2, 2 * n);
    assert(is_binary(s));
    assert(is_binary(r));
    assert(is_unit_bounded(e));
    assert forall|t: int| 0 <= t < n implies -1 <= #[trigger] e1[t] <= 1 by {
        assert(0 <= 2 * t < 2 * n);
    }
    assert forall|t: int| 0 <= t < n implies #[trigger] b[t] % q() == (row_dot(a, s, t, n) + e[t])
        % q() by {
        lemma_residue(row_dot(a, s, t, n) + e[t]);
    }
    assert forall|t: int| 0 <= t < n implies #[trigger] u[t] % q() == (row_dot(a, r, t, n) + e1[t])
        % q() by {
        lemma_residue(row_dot(a, r, t, n) + ed2.0[2 * t]);
    }
    let su = secret_products(id.2, k.0);
    assert forall|i: int| 0 <= i < 256 implies #[trigger] decoded_bits(k.1, su)[i] == bits[i] by {
        let m = bits[i];
        let x = ff.0[i / 8];
        let sh = (i % 8) as u8;
        assert(m == (x >> sh) & 1u8);
        assert((x >> sh) & 1u8 == 0 || (x >> sh) & 1u8 == 1) by (bit_vector);
        let e2 = ed2.0[2 * i + 1] as int;
        assert(0 <= 2 * i + 1 < 2 * n);
        let vi = k.1[i] as int;
        let sui = su[i] as int;
        assert(message_coeff(bits, i) == m as int * DELTA);
        lemma_residue(row_dot(b, r, i, n) + e2 + message_coeff(bits, i));
        lemma_residue(row_dot(s, u, i, n));
        lemma_lwe_bit_correct(a, s, e, b, r, e1, u, e2, m as int, vi, sui, i);
    }
    assert(decoded_bits(k.1, su) =~= bits);
}

/// Decrypting a slot with the secret of the key pair it was built for gives
/// back the payload and its extension, for every generator state behind
/// the key pair and behind the slot, whenever the extension's UTF-8 form is
/// shorter than 256 bytes.
pub proof fn lemma_kem_roundtrip(key_st: RngModel, st: RngModel, payload: Seq<u8>, ext: Seq<char>)
    requires
        encode_utf8(ext).len() < 256,
    ensures
        ({
            let id = identity_drawn(key_st);
            let k = kem_block_spec(st, id.0, id.1, payload, encode_utf8(ext));
            decrypted_block(k.0, k.1, k.2, id.2) == Some((payload, ext))
        }),
{
    let id = identity_drawn(key_st);
    let k = kem_block_spec(st, id.0, id.1, payload, encode_utf8(ext));
    let secret = st.fill_draw().0;
    lemma_kem_bits(key_st, st, payload, encode_utf8(ext));
    lemma_pack_seed_bits(secret);
    lemma_stream_unmask(sealed_payload(payload, encode_utf8(ext)), secret);
    lemma_seal_open_roundtrip(payload, ext);
}

/// A container encrypted to the key pair of a passphrase opens, with that
/// passphrase, to the real payload and its extension, whatever the decoy
/// slot holds and whatever the engine's generator state was.
pub proof fn lemma_blind_decrypt_real(
    phrase: Seq<char>,
    st: RngModel,
    data_real: Seq<u8>,
    ext_real: Seq<char>,
    dummy_key: Option<(Seq<u8>, Seq<i64>)>,
    data_dummy: Seq<u8>,
    ext_dummy: Seq<u8>,
)
    requires
        encode_utf8(ext_real).len() < 256,
    ensures
        ({
            let id = identity_of_key(passphrase_key(phrase));
            let c = encrypt_dual_spec(
                st,
                (id.0, id.1),
                data_real,
                encode_utf8(ext_real),
                dummy_key,
                data_dummy,
                ext_dummy,
            );
            blind_opened(c.0, c.1, phrase) == Some((data_real, ext_real))
        }),
{
    lemma_kem_roundtrip(RngModel::seeded(passphrase_key(phrase)), st, data_real, ext_real);
}

/// With the decoy passphrase, a container whose decoy slot was encrypted to
/// that passphrase's key pair opens to the decoy payload, unless the real
/// slot also opens under the decoy secret: slot alpha is tried first, so it
/// then gives what alpha holds.
pub proof fn lemma_blind_decrypt_decoy(
    phrase_decoy: Seq<char>,
    st: RngModel,
    real_key: (Seq<u8>, Seq<i64>),
    data_real: Seq<u8>,
    ext_real: Seq<u8>,
    data_dummy: Seq<u8>,
    ext_dummy: Seq<char>,
)
    requires
        encode_utf8(ext_dummy).len() < 256,
    ensures
        ({
            let id = identity_of_key(passphrase_key(phrase_decoy));
            let c = encrypt_dual_spec(
                st,
                real_key,
                data_real,
                ext_real,
                Some((id.0, id.1)),
                data_dummy,
                encode_utf8(ext_dummy),
            );
            blind_opened(c.0, c.1, phrase_decoy) == match decrypted_block(c.0.0, c.0.1, c.0.2, id.2) {
                Some(x) => Some(x),
                None => Some((data_dummy, ext_dummy)),
            }
        }),
{
    let a = kem_block_spec(st, real_key.0, real_key.1, data_real, ext_real);
    let g = identity_drawn(a.3);
    lemma_kem_roundtrip(RngModel::seeded(passphrase_key(phrase_decoy)), g.3, data_dummy, ext_dummy);
}

/// Without a decoy key, slot beta is a full slot for the ghost identity
/// drawn during encryption: its secret opens it to the decoy payload.
pub proof fn lemma_ghost_slot_opens(
    st: RngModel,
    real_key: (Seq<u8>, Seq<i64>),
    data_real: Seq<u8>,
    ext_real: Seq<u8>,
    data_dummy: Seq<u8>,
    ext_dummy: Seq<char>,
)
    requires
        encode_utf8(ext_dummy).len() < 256,
    ensures
        ({
            let a = kem_block_spec(st, real_key.0, real_key.1, data_real, ext_real);
            let ghost_secret = identity_drawn(a.3).2;
            let c = encrypt_dual_spec(
                st,
                real_key,
                data_real,
                ext_real,
                None,
                data_dummy,
                encode_utf8(ext_dummy),
            );
            decrypted_block(c.1.0, c.1.1, c.1.2, ghost_secret) == Some((data_dummy, ext_dummy))
        }),
{
    let a = kem_block_spec(st, real_key.0, real_key.1, data_real, ext_real);
    let g = identity_drawn(a.3);
    lemma_kem_roundtrip(a.3, g.3, data_dummy, ext_dummy);
}

/// The same passphrase always rebuilds the same key pair.
pub proof fn lemma_passphrase_determinism(
    phrase: Seq<char>,
    first: (Seq<u8>, Seq<i64>, Seq<i64>),
    second: (Seq<u8>, Seq<i64>, Seq<i64>),
)
    requires
        identity_of_key(passphrase_key(phrase)) == first,
        identity_of_key(passphrase_key(phrase)) == second,
    ensures
        first == second,
{
}

} // verus!
