//! Dual encryption into the two-slot container and blind decryption.
use crate::chacha::{
    chacha20_byte_stream, chacha20_keystream, chacha20_state, lemma_range_draws_bounds, lemma_range_draws_len,
    lemma_range_draws_prefix, RngModel, RngState,
};
use crate::coeffs::CoeffVector;
use crate::config::{DELTA, DIMENSION, MODULUS};
use crate::digest::{sha256, sha256_spec};
use crate::engine::file_handler::QuantumCapsule;
use crate::engine::payload_builder::{
    build_sealed_payload, open_sealed_payload, opened_payload, sealed_payload,
};
use crate::keys::derivation::{
    build_negacyclic_matrix, derive_keypair_from_passphrase, expand_matrix_a, expand_poly,
    generate_identity, identity_drawn, identity_of_key, is_negacyclic_of, lemma_matrix_row_sum,
    matrix_row_dot,
    passphrase_key, reduce_mod_q, residue,
};
use crate::keys::structures::{PrivateKey, PublicKey};
use crate::lattice::{decode_bit, ints, nega_entry, q, row_dot};
use rand_chacha::ChaCha20Rng;
use vstd::arithmetic::div_mod::lemma_mod_bound;
use vstd::prelude::*;
use vstd::slice::slice_to_vec;
use vstd::string::StringSliceAdditionalSpecFns;

verus! {

/// The 256 message bits carried by a 32-byte seed, least significant bit of
/// each byte first.
pub open spec fn seed_bits(seed: Seq<u8>) -> Seq<u8> {
    Seq::new(256, |k: int| (seed[k / 8] >> ((k % 8) as u8)) & 1u8)
}

/// The amplitude added to coefficient `i` of `v`: `DELTA` for a one bit,
/// nothing for a zero bit or past the bits.
pub open spec fn message_coeff(bits: Seq<u8>, i: int) -> int {
    if i < bits.len() {
        bits[i] as int * DELTA
    } else {
        0
    }
}

/// Bytewise XOR of `x` with the first `x.len()` bytes of `k`.
pub open spec fn xor_bytes(x: Seq<u8>, k: Seq<u8>) -> Seq<u8> {
    Seq::new(x.len(), |i: int| x[i] ^ k[i])
}

/// `block` under the keystream keyed with the SHA-256 digest of `secret`.
pub open spec fn stream_masked(block: Seq<u8>, secret: Seq<u8>) -> Seq<u8> {
    xor_bytes(block, chacha20_byte_stream(sha256_spec(secret)@, block.len()))
}

/// One slot as the engine builds it from generator state `st`, for the
/// public key `(public_seed, b)`: the result is `(u, v, block, state
/// after)`. A 32-byte secret is drawn and spread over 256 coefficients of
/// `v`; `r` is `n` bits; the noise is `2n` values in `[-1, 1]`, taken in
/// turn for `u` and for `v`; the block is the sealed payload under the
/// keystream of the secret's digest.
pub open spec fn kem_block_spec(
    st: RngModel,
    public_seed: Seq<u8>,
    b: Seq<i64>,
    payload: Seq<u8>,
    ext: Seq<u8>,
) -> (Seq<i64>, Seq<i64>, Seq<u8>, RngModel) {
    let f = st.fill_draw();
    let rd = f.1.range_draws(0, 2, DIMENSION as nat);
    let ed = rd.1.range_draws(-1i64, 2, 2 * DIMENSION as nat);
    let a = expand_poly(public_seed);
    let bits = seed_bits(f.0);
    let u = Seq::new(
        DIMENSION as nat,
        |i: int| residue(row_dot(ints(a), ints(rd.0), i, DIMENSION as nat) + ed.0[2 * i]),
    );
    let v = Seq::new(
        DIMENSION as nat,
        |i: int|
            residue(
                row_dot(ints(b), ints(rd.0), i, DIMENSION as nat) + ed.0[2 * i + 1] + message_coeff(
                    bits,
                    i,
                ),
            ),
    );
    (u, v, stream_masked(sealed_payload(payload, ext), f.0), ed.1)
}

/// The coefficients of `s * u (mod q)` that decryption computes.
pub open spec fn secret_products(s: Seq<i64>, u: Seq<i64>) -> Seq<i64> {
    Seq::new(DIMENSION as nat, |i: int| residue(row_dot(ints(s), ints(u), i, DIMENSION as nat)))
}

/// The 256 bits decryption reads from `v` and `s * u`.
pub open spec fn decoded_bits(v: Seq<i64>, su: Seq<i64>) -> Seq<u8> {
    Seq::new(256, |i: int| decode_bit(v[i] as int, su[i] as int) as u8)
}

/// The byte made of `bits[base]`, ..., `bits[base + t - 1]`, lowest first.
pub open spec fn pack_prefix(bits: Seq<u8>, base: int, t: nat) -> u8
    decreases t,
{
    if t == 0 {
        0
    } else {
        pack_prefix(bits, base, (t - 1) as nat) | (bits[base + t - 1] << ((t - 1) as u8))
    }
}

/// The 32 bytes packed from 256 bits, eight per byte, lowest bit first.
pub open spec fn packed_bytes(bits: Seq<u8>) -> Seq<u8> {
    Seq::new(32, |k: int| pack_prefix(bits, 8 * k, 8))
}

/// What decrypting one slot with the secret vector `s` gives.
pub open spec fn decrypted_block(u: Seq<i64>, v: Seq<i64>, block: Seq<u8>, s: Seq<i64>) -> Option<
    (Seq<u8>, Seq<char>),
> {
    opened_payload(stream_masked(block, packed_bytes(decoded_bits(v, secret_products(s, u)))))
}

/// The two slots and the generator state after `encrypt_dual`: slot alpha
/// for the real key, then a ghost identity drawn, then slot beta for the
/// decoy key, or for the ghost identity when there is none.
pub open spec fn encrypt_dual_spec(
    st: RngModel,
    real_key: (Seq<u8>, Seq<i64>),
    data_real: Seq<u8>,
    ext_real: Seq<u8>,
    dummy_key: Option<(Seq<u8>, Seq<i64>)>,
    data_dummy: Seq<u8>,
    ext_dummy: Seq<u8>,
) -> ((Seq<i64>, Seq<i64>, Seq<u8>), (Seq<i64>, Seq<i64>, Seq<u8>), RngModel) {
    let a = kem_block_spec(st, real_key.0, real_key.1, data_real, ext_real);
    let g = identity_drawn(a.3);
    let target = match dummy_key {
        Some(k) => k,
        None => (g.0, g.1),
    };
    let b = kem_block_spec(g.3, target.0, target.1, data_dummy, ext_dummy);
    ((a.0, a.1, a.2), (b.0, b.1, b.2), b.3)
}

/// What blind decryption with `phrase` gives: slot alpha opened with the
/// passphrase's secret if it opens, else slot beta if it opens.
pub open spec fn blind_opened(
    alpha: (Seq<i64>, Seq<i64>, Seq<u8>),
    beta: (Seq<i64>, Seq<i64>, Seq<u8>),
    phrase: Seq<char>,
) -> Option<(Seq<u8>, Seq<char>)> {
    let s = identity_of_key(passphrase_key(phrase)).2;
    match decrypted_block(alpha.0, alpha.1, alpha.2, s) {
        Some(x) => Some(x),
        None => decrypted_block(beta.0, beta.1, beta.2, s),
    }
}

/// A public key the engine can encrypt to: at least `n` coefficients, and
/// few enough that its negacyclic matrix fits in memory.
pub open spec fn is_encryptable(pk: &PublicKey) -> bool {
    &&& pk.b@.len() >= DIMENSION
    &&& pk.b@.len() * pk.b@.len() * 8 <= isize::MAX
}

/// The refusal that blind decryption answers with.
pub open spec fn access_denied() -> Seq<char> {
    "ACCESS DENIED: Collapsed Quantum Fluctuation or Invalid Passphrase."@
}

/// The encryption engine and its random generator.
pub struct QuantumEngine {
    pub chacha_rng: RngState,
}

/// XORs `block` in place with the ChaCha20 keystream keyed with `key`.
fn apply_keystream(block: &mut Vec<u8>, key: &[u8; 32])
    ensures
        final(block)@ == xor_bytes(old(block)@, chacha20_byte_stream(key@, old(block)@.len())),
{
    let n = block.len();
    let ks = chacha20_keystream(key, n);
    let ghost orig = block@;
    let mut k: usize = 0;
    while k < n
        invariant
            n == orig.len(),
            block@.len() == n,
            ks@.len() == n,
            k <= n,
            forall|t: int| 0 <= t < k ==> #[trigger] block@[t] == orig[t] ^ ks@[t],
            forall|t: int| k <= t < n ==> #[trigger] block@[t] == orig[t],
        decreases n - k,
    {
        let x = block[k] ^ ks[k];
        block.set(k, x);
        k = k + 1;
    }
    assert(block@ =~= xor_bytes(orig, ks@));
}

/// The 256 message bits of a 32-byte seed, least significant bit first.
fn seed_to_bits(seed: &[u8; 32]) -> (bits: Vec<u8>)
    ensures
        bits@ == seed_bits(seed@),
{
    let mut bits: Vec<u8> = Vec::new();
    let mut bi: usize = 0;
    while bi < 32
        invariant
            bi <= 32,
            bits@.len() == 8 * bi,
            forall|k: int| 0 <= k < 8 * bi ==> #[trigger] bits@[k] == seed_bits(seed@)[k],
        decreases 32 - bi,
    {
        let byte = seed[bi];
        let mut t: u8 = 0;
        while t < 8
            invariant
                bi < 32,
                t <= 8,
                byte == seed@[bi as int],
                bits@.len() == 8 * bi + t,
                forall|k: int| 0 <= k < 8 * bi + t ==> #[trigger] bits@[k] == seed_bits(seed@)[k],
            decreases 8 - t,
        {
            proof {
                let k = 8 * bi + t;
                vstd::arithmetic::div_mod::lemma_fundamental_div_mod_converse(
                    k as int,
                    8,
                    bi as int,
                    t as int,
                );
            }
            bits.push((byte >> t) & 1);
            t = t + 1;
        }
        bi = bi + 1;
    }
    assert(bits@ =~= seed_bits(seed@));
    bits
}

/// Packs 256 bits into 32 bytes, eight per byte, lowest bit first.
fn pack_bits(bits: &Vec<u8>) -> (bytes: Vec<u8>)
    requires
        bits@.len() == 256,
    ensures
        bytes@ == packed_bytes(bits@),
{
    let mut bytes: Vec<u8> = Vec::new();
    let mut k: usize = 0;
    while k < 32
        invariant
            bits@.len() == 256,
            k <= 32,
            bytes@.len() == k,
            forall|c: int| 0 <= c < k ==> #[trigger] bytes@[c] == pack_prefix(bits@, 8 * c, 8),
        decreases 32 - k,
    {
        let mut byte: u8 = 0;
        let mut t: usize = 0;
        while t < 8
            invariant
                bits@.len() == 256,
                k < 32,
                t <= 8,
                byte == pack_prefix(bits@, 8 * k, t as nat),
            decreases 8 - t,
        {
            byte = byte | (bits[8 * k + t] << (t as u8));
            t = t + 1;
        }
        bytes.push(byte);
        k = k + 1;
    }
    assert(bytes@ =~= packed_bytes(bits@));
    bytes
}

impl QuantumEngine {
    /// An engine drawing its randomness from `rng`, starting at the state
    /// that `rng` reports: its draws are those that `rng` would give.
    pub fn new(rng: ChaCha20Rng) -> (engine: Self)
        ensures
            (engine.chacha_rng.seed, engine.chacha_rng.stream, engine.chacha_rng.word_pos)
                == chacha20_state(rng),
    {
        QuantumEngine { chacha_rng: RngState::of_generator(&rng) }
    }

    /// Builds one slot for `pub_key`: a fresh 32-byte secret encapsulated in
    /// `(u, v)` (`u = A r + e1`, `v = B r + e2 + DELTA m`, with `m` the
    /// secret's 256 bits), and the sealed payload under the keystream keyed
    /// with the secret's SHA-256 digest.
    fn build_kem_block(&mut self, pub_key: &PublicKey, payload: &[u8], ext: &str) -> (slot: (
        (CoeffVector, CoeffVector),
        Vec<u8>,
    ))
        requires
            is_encryptable(pub_key),
        ensures
            (slot.0.0@, slot.0.1@, slot.1@, final(self).chacha_rng@) == kem_block_spec(
                old(self).chacha_rng@,
                pub_key.public_seed@,
                pub_key.b@,
                payload@,
                ext.spec_bytes(),
            ),
    {
        let ghost st0 = self.chacha_rng@;
        let seed = self.chacha_rng.fill_32();
        let bits = seed_to_bits(&seed);
        let ghost st1 = self.chacha_rng@;
        let r_vals = self.chacha_rng.gen_range_many(0, 2, DIMENSION);
        let ghost st2 = self.chacha_rng@;
        proof {
            lemma_range_draws_bounds(st1, 0, 2, DIMENSION as nat);
            lemma_range_draws_bounds(st2, -1i64, 2, 2 * DIMENSION as nat);
        }
        let r_vec = CoeffVector::from_vec(&r_vals);
        let pub_a = expand_matrix_a(&pub_key.public_seed);
        let b_mat = build_negacyclic_matrix(pub_key.b.as_slice());
        let ghost a = ints(expand_poly(pub_key.public_seed@));
        let ghost bp = ints(pub_key.b@);
        let ghost errs = st2.range_draws(-1i64, 2, 2 * DIMENSION as nat).0;
        proof {
            lemma_range_draws_len(RngModel::seeded(pub_key.public_seed@), 0, MODULUS, DIMENSION as nat);
        }
        let mut u_vec = CoeffVector::zeros(DIMENSION);
        let mut v_vec = CoeffVector::zeros(DIMENSION);
        let mut i: usize = 0;
        while i < DIMENSION
            invariant
                bits@ == seed_bits(seed@),
                r_vec@ == r_vals@,
                r_vals@.len() == DIMENSION,
                forall|t: int| 0 <= t < DIMENSION ==> 0 <= #[trigger] r_vals@[t] < 2,
                is_negacyclic_of(pub_a@, a),
                a.len() == DIMENSION,
                is_negacyclic_of(b_mat@, bp),
                bp.len() >= DIMENSION,
                errs == st2.range_draws(-1i64, 2, 2 * DIMENSION as nat).0,
                i <= DIMENSION,
                self.chacha_rng@ == st2.range_draws(-1i64, 2, 2 * i as nat).1,
                u_vec@.len() == DIMENSION,
                v_vec@.len() == DIMENSION,
                forall|k: int|
                    0 <= k < i ==> #[trigger] u_vec@[k] == residue(
                        row_dot(a, ints(r_vals@), k, DIMENSION as nat) + errs[2 * k],
                    ),
                forall|k: int|
                    0 <= k < i ==> #[trigger] v_vec@[k] == residue(
                        row_dot(bp, ints(r_vals@), k, DIMENSION as nat) + errs[2 * k + 1]
                            + message_coeff(bits@, k),
                    ),
            decreases DIMENSION - i,
        {
            let m_val: i64 = if i < bits.len() {
                bits[i] as i64 * DELTA
            } else {
                0
            };
            proof {
                lemma_matrix_row_sum(pub_a@, a, r_vec@, i as int, DIMENSION as nat);
                lemma_matrix_row_sum(b_mat@, bp, r_vec@, i as int, DIMENSION as nat);
            }
            let a_dot_r = matrix_row_dot(&pub_a, i, &r_vec, DIMENSION);
            let b_dot_r = matrix_row_dot(&b_mat, i, &r_vec, DIMENSION);
            let err1 = self.chacha_rng.gen_range(-1, 2);
            let err2 = self.chacha_rng.gen_range(-1, 2);
            proof {
                lemma_range_draws_prefix(st2, -1i64, 2, (2 * i + 2) as nat, 2 * DIMENSION as nat);
                lemma_range_draws_len(st2, -1i64, 2, (2 * i + 1) as nat);
                lemma_range_draws_len(st2, -1i64, 2, (2 * i) as nat);
                assert(errs[2 * i] == err1);
                assert(errs[2 * i + 1] == err2);
            }
            u_vec.set(i, reduce_mod_q(a_dot_r + err1 as i128));
            v_vec.set(i, reduce_mod_q(b_dot_r + err2 as i128 + m_val as i128));
            i = i + 1;
        }
        let sym_key = sha256(&seed);
        let mut block = build_sealed_payload(payload, ext);
        apply_keystream(&mut block, &sym_key);
        proof {
            let spec = kem_block_spec(st0, pub_key.public_seed@, pub_key.b@, payload@, ext.spec_bytes());
            assert(u_vec@ =~= spec.0);
            assert(v_vec@ =~= spec.1);
        }
        ((u_vec, v_vec), block)
    }

    /// Encrypts `data_real` (extension `ext_real`) to `pub_real` in slot
    /// alpha and `data_dummy` (extension `ext_dummy`) in slot beta: to
    /// `pub_dummy` when given, otherwise to a ghost identity drawn on the
    /// spot, so the container always holds two well-formed slots.
    pub fn encrypt_dual(
        &mut self,
        pub_real: &PublicKey,
        data_real: &[u8],
        ext_real: &str,
        pub_dummy: Option<&PublicKey>,
        data_dummy: &[u8],
        ext_dummy: &str,
    ) -> (capsule: QuantumCapsule)
        requires
            is_encryptable(pub_real),
            pub_dummy matches Some(pk) ==> is_encryptable(pk),
        ensures
            (capsule.alpha(), capsule.beta(), final(self).chacha_rng@) == encrypt_dual_spec(
                old(self).chacha_rng@,
                (pub_real.public_seed@, pub_real.b@),
                data_real@,
                ext_real.spec_bytes(),
                match pub_dummy {
                    Some(pk) => Some((pk.public_seed@, pk.b@)),
                    None => None,
                },
                data_dummy@,
                ext_dummy.spec_bytes(),
            ),
            capsule.is_well_formed(),
    {
        let (kem_alpha, block_alpha) = self.build_kem_block(pub_real, data_real, ext_real);
        let ghost_identity = generate_identity(&mut self.chacha_rng);
        let target_dummy_pub = match pub_dummy {
            Some(pk) => pk,
            None => &ghost_identity.0,
        };
        let (kem_beta, block_beta) = self.build_kem_block(target_dummy_pub, data_dummy, ext_dummy);
        QuantumCapsule { kem_alpha, block_alpha, kem_beta, block_beta }
    }

    /// Tries one slot with the secret `s` of `priv_key`: recomputes `s * u`,
    /// reads the 256 bits of the secret from `v`, rebuilds the keystream
    /// from their digest, and opens the sealed payload, which succeeds only
    /// when its checksum matches.
    fn try_decrypt_block(
        &self,
        kem: &(CoeffVector, CoeffVector),
        block: &[u8],
        priv_key: &PrivateKey,
    ) -> (opened: Option<(Vec<u8>, String)>)
        requires
            priv_key.sec_s@.len() >= DIMENSION,
            priv_key.sec_s@.len() * priv_key.sec_s@.len() * 8 <= isize::MAX,
            forall|k: int|
                0 <= k < priv_key.sec_s@.len() ==> 0 <= #[trigger] priv_key.sec_s@[k] < MODULUS,
            kem.0@.len() >= DIMENSION,
            kem.1@.len() >= 256,
        ensures
            match opened {
                Some((data, ext)) => decrypted_block(kem.0@, kem.1@, block@, priv_key.sec_s@) == Some(
                    (data@, ext@),
                ),
                None => decrypted_block(kem.0@, kem.1@, block@, priv_key.sec_s@) is None,
            },
    {
        let raw_key = priv_key.reveal_secret();
        let u = &kem.0;
        let v = &kem.1;
        let s_vals = raw_key.to_vec();
        let s_mat = build_negacyclic_matrix(s_vals.as_slice());
        let ghost sp = ints(s_vals@);
        let mut su = CoeffVector::zeros(DIMENSION);
        let mut i: usize = 0;
        while i < DIMENSION
            invariant
                s_vals@ == priv_key.sec_s@,
                s_vals@.len() >= DIMENSION,
                forall|k: int| 0 <= k < s_vals@.len() ==> 0 <= #[trigger] s_vals@[k] < MODULUS,
                is_negacyclic_of(s_mat@, sp),
                sp == ints(s_vals@),
                u@.len() >= DIMENSION,
                i <= DIMENSION,
                su@.len() == DIMENSION,
                forall|k: int|
                    0 <= k < i ==> #[trigger] su@[k] == secret_products(s_vals@, u@)[k],
            decreases DIMENSION - i,
        {
            proof {
                lemma_matrix_row_sum(s_mat@, sp, u@, i as int, DIMENSION as nat);
                assert forall|j: int| 0 <= j < DIMENSION implies 0 <= #[trigger] s_mat@[i as int][j]
                    < MODULUS by {
                    assert(s_mat@[i as int][j] == nega_entry(sp, i as int, j));
                    if (i as int) < j {
                        lemma_mod_bound(q() - sp[sp.len() + i - j] % q(), q());
                    }
                }
            }
            let sum = matrix_row_dot(&s_mat, i, u, DIMENSION);
            su.set(i, reduce_mod_q(sum));
            i = i + 1;
        }
        let ghost sus = secret_products(s_vals@, u@);
        assert(su@ =~= sus);
        let mut bits: Vec<u8> = Vec::new();
        let mut i: usize = 0;
        while i < 256
            invariant
                su@ == sus,
                su@.len() == DIMENSION,
                v@.len() >= 256,
                i <= 256,
                bits@.len() == i,
                forall|k: int|
                    0 <= k < i ==> #[trigger] bits@[k] == decoded_bits(v@, sus)[k],
            decreases 256 - i,
        {
            let noisy = reduce_mod_q(v.get(i) as i128 - su.get(i) as i128);
            let shifted = (noisy - DELTA / 2 + MODULUS) % MODULUS;
            bits.push(
                if shifted < DELTA {
                    1u8
                } else {
                    0u8
                },
            );
            i = i + 1;
        }
        assert(bits@ =~= decoded_bits(v@, sus));
        let bytes = pack_bits(&bits);
        let sym_key = sha256(bytes.as_slice());
        let mut dec_block = slice_to_vec(block);
        apply_keystream(&mut dec_block, &sym_key);
        open_sealed_payload(dec_block.as_slice())
    }

    /// Decrypts a container knowing only a passphrase: rebuilds the key
    /// pair bound to it and opens slot alpha, or failing that slot beta;
    /// with neither, the generic refusal. Nothing in the answer tells which
    /// slot opened.
    pub fn decrypt_blind(&self, file: &QuantumCapsule, phrase: &str) -> (res: Result<
        (Vec<u8>, String),
        String,
    >)
        requires
            phrase.spec_bytes().len() <= 0xFFFF_FFFF,
            file.is_well_formed(),
        ensures
            match res {
                Ok((data, ext)) => blind_opened(file.alpha(), file.beta(), phrase@) == Some(
                    (data@, ext@),
                ),
                Err(msg) => blind_opened(file.alpha(), file.beta(), phrase@) is None && msg@
                    == access_denied(),
            },
    {
        let (_, priv_key) = derive_keypair_from_passphrase(phrase);
        proof {
            let st = RngModel::seeded(passphrase_key(phrase@));
            lemma_range_draws_bounds(st.fill_draw().1, 0, 2, DIMENSION as nat);
        }
        if let Some(res) = self.try_decrypt_block(&file.kem_alpha, file.block_alpha.as_slice(), &priv_key) {
            return Ok(res);
        }
        if let Some(res) = self.try_decrypt_block(&file.kem_beta, file.block_beta.as_slice(), &priv_key) {
            return Ok(res);
        }
        Err(String::from_str("ACCESS DENIED: Collapsed Quantum Fluctuation or Invalid Passphrase."))
    }
}

} // verus!
