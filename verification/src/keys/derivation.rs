//! Construction of the negacyclic matrices and of key pairs.
use crate::chacha::{lemma_range_draws_bounds, RngModel, RngState};
use crate::coeffs::{is_square, CoeffMatrix, CoeffVector};
use crate::config::{DIMENSION, MODULUS};
use crate::kdf::{argon2id_default_32, argon2id_hash_32};
use crate::keys::structures::{PrivateKey, PublicKey};
use crate::lattice::{ints, lemma_row_dot_is_product, nega_entry, q, row_dot};
use crate::ring::{conv, conv_at, lemma_conv_commutative, lemma_sum_ext, sum};
use vstd::arithmetic::div_mod::{
    lemma_fundamental_div_mod, lemma_mod_bound, lemma_mod_multiples_vanish, lemma_small_mod,
};
use vstd::prelude::*;
use vstd::string::StringSliceAdditionalSpecFns;

verus! {

/// `rows` is the negacyclic matrix of `p`, entry by entry.
pub open spec fn is_negacyclic_of(rows: Seq<Seq<i64>>, p: Seq<int>) -> bool {
    &&& is_square(rows, p.len())
    &&& forall|i: int, j: int|
        0 <= i < p.len() && 0 <= j < p.len() ==> #[trigger] rows[i][j] == nega_entry(p, i, j)
}

/// The first `k` terms of row `i` of `rows` times `y`.
pub open spec fn matrix_row_sum(rows: Seq<Seq<i64>>, y: Seq<i64>, i: int, k: nat) -> int {
    sum(|j: int| rows[i][j] as int * y[j] as int, k)
}

/// The coefficients of the public polynomial `a` expanded from a seed: the
/// first `n` draws from `[0, q)` of a generator keyed with the seed.
pub open spec fn expand_poly(public_seed: Seq<u8>) -> Seq<i64> {
    RngModel::seeded(public_seed).range_draws(0, MODULUS, DIMENSION as nat).0
}

/// `x mod q` for an integer, as an `i64`.
pub open spec fn residue(x: int) -> i64 {
    (x % q()) as i64
}

/// The public vector `b = A s + e (mod q)`.
pub open spec fn public_vector(a: Seq<i64>, s: Seq<i64>, e: Seq<i64>) -> Seq<i64> {
    Seq::new(
        DIMENSION as nat,
        |i: int| residue(row_dot(ints(a), ints(s), i, DIMENSION as nat) + e[i]),
    )
}

/// The key pair that `generate_identity` draws from generator state `st`:
/// a 32-byte public seed, then `n` secret bits, then `n` noise values in
/// `[-1, 1]`. The result is `(public_seed, b, s, state after)`.
pub open spec fn identity_drawn(st: RngModel) -> (Seq<u8>, Seq<i64>, Seq<i64>, RngModel) {
    let f = st.fill_draw();
    let sd = f.1.range_draws(0, 2, DIMENSION as nat);
    let ed = sd.1.range_draws(-1i64, 2, DIMENSION as nat);
    (f.0, public_vector(expand_poly(f.0), sd.0, ed.0), sd.0, ed.1)
}

/// The key pair drawn by a fresh generator keyed with `key`:
/// `(public_seed, b, s)`.
pub open spec fn identity_of_key(key: Seq<u8>) -> (Seq<u8>, Seq<i64>, Seq<i64>) {
    let d = identity_drawn(RngModel::seeded(key));
    (d.0, d.1, d.2)
}

/// The residue in `[0, q)` of `-c`, computed as the scheme writes it.
fn neg_residue(c: i64) -> (r: i64)
    ensures
        r == (q() - (c as int) % q()) % q(),
        0 <= r < MODULUS,
{
    let t = c % MODULUS;
    let w = MODULUS - t;
    proof {
        let m = q();
        if c < 0 {
            let ci = c as int;
            let k = (-ci) % m;
            assert(t == -k);
            lemma_fundamental_div_mod(-ci, m);
            let d = (-ci) / m;
            assert(ci == -(m * d) - k);
            lemma_mod_multiples_vanish(-d - 1, m - k, m);
            assert(m * (-d - 1) + (m - k) == ci);
            lemma_mod_bound(ci, m);
            assert(ci % m == (m - k) % m);
            if k == 0 {
                assert(w == m);
                lemma_small_mod(0, m as nat);
                assert((c as int) % m == 0) by {
                    lemma_mod_multiples_vanish(1, 0, m);
                }
            } else {
                lemma_small_mod((m - k) as nat, m as nat);
                lemma_small_mod(k as nat, m as nat);
            }
        }
        lemma_mod_bound(w as int, m);
    }
    w % MODULUS
}

/// `x mod q` for a 128-bit integer, computed as the scheme writes it.
pub(crate) fn reduce_mod_q(x: i128) -> (r: i64)
    ensures
        r == residue(x as int),
        0 <= r < MODULUS,
{
    let m: i128 = 12289;
    let t = x % m;
    let w = t + m;
    proof {
        let qq = q();
        if x < 0 {
            let xi = x as int;
            let k = (-xi) % qq;
            lemma_fundamental_div_mod(-xi, qq);
            let d = (-xi) / qq;
            lemma_mod_multiples_vanish(-d - 1, qq - k, qq);
            assert(qq * (-d - 1) + (qq - k) == xi);
        }
        lemma_mod_bound(x as int, qq);
        lemma_mod_bound(w as int, qq);
        if w >= qq {
            lemma_mod_multiples_vanish(1, w - qq, qq);
            lemma_small_mod((w - qq) as nat, qq as nat);
        } else {
            lemma_small_mod(w as nat, qq as nat);
        }
    }
    (w % m) as i64
}

/// Builds the `n` by `n` negacyclic matrix of the polynomial `poly` with `n`
/// coefficients. In `Z_q[X]/(X^n + 1)` multiplication by `poly` is the
/// product of this matrix with the coefficient vector.
pub fn build_negacyclic_matrix(poly: &[i64]) -> (mat: CoeffMatrix)
    requires
        poly@.len() * poly@.len() * 8 <= isize::MAX,
    ensures
        is_negacyclic_of(mat@, ints(poly@)),
{
    let n = poly.len();
    let ghost p = ints(poly@);
    let mut mat = CoeffMatrix::zeros(n);
    let mut i: usize = 0;
    while i < n
        invariant
            n == poly@.len(),
            p == ints(poly@),
            i <= n,
            is_square(mat@, n as nat),
            forall|a: int, b: int|
                0 <= a < i && 0 <= b < n ==> #[trigger] mat@[a][b] == nega_entry(p, a, b),
        decreases n - i,
    {
        let mut j: usize = 0;
        while j < n
            invariant
                n == poly@.len(),
                p == ints(poly@),
                i < n,
                j <= n,
                is_square(mat@, n as nat),
                forall|a: int, b: int|
                    0 <= a < i && 0 <= b < n ==> #[trigger] mat@[a][b] == nega_entry(p, a, b),
                forall|b: int| 0 <= b < j ==> #[trigger] mat@[i as int][b] == nega_entry(p, i as int, b),
            decreases n - j,
        {
            let x = if i >= j {
                poly[i - j]
            } else {
                neg_residue(poly[n - (j - i)])
            };
            let ghost before = mat@;
            mat.set(i, j, x);
            assert(mat@[i as int][j as int] == nega_entry(p, i as int, j as int));
            assert forall|a: int| 0 <= a < n && a != i implies #[trigger] mat@[a] == before[a] by {}
            j = j + 1;
        }
        i = i + 1;
    }
    mat
}

/// Expands a 32-byte public seed into the negacyclic matrix `A`: the
/// polynomial `a` is `n` draws from `[0, q)` of a ChaCha20 generator keyed
/// with the seed, so `A` is rebuilt on demand and never stored.
pub fn expand_matrix_a(public_seed: &[u8; 32]) -> (mat: CoeffMatrix)
    ensures
        is_negacyclic_of(mat@, ints(expand_poly(public_seed@))),
        forall|i: int, j: int|
            0 <= i < DIMENSION && 0 <= j < DIMENSION ==> 0 <= #[trigger] mat@[i][j] < MODULUS,
{
    let mut rng = RngState::from_seed(*public_seed);
    let a_poly = rng.gen_range_many(0, MODULUS, DIMENSION);
    proof {
        lemma_range_draws_bounds(RngModel::seeded(public_seed@), 0, MODULUS, DIMENSION as nat);
    }
    let mat = build_negacyclic_matrix(a_poly.as_slice());
    proof {
        let p = ints(a_poly@);
        assert forall|i: int, j: int| 0 <= i < DIMENSION && 0 <= j < DIMENSION implies 0
            <= #[trigger] mat@[i][j] < MODULUS by {
            assert(mat@[i][j] == nega_entry(p, i, j));
            if i < j {
                lemma_mod_bound(q() - p[p.len() + i - j] % q(), q());
            }
        }
    }
    mat
}

/// A row sum of a negacyclic matrix is the row of the ring product it
/// stands for.
pub proof fn lemma_matrix_row_sum(rows: Seq<Seq<i64>>, p: Seq<int>, y: Seq<i64>, i: int, k: nat)
    requires
        is_negacyclic_of(rows, p),
        0 <= i < p.len(),
        k <= p.len(),
        k <= y.len(),
    ensures
        matrix_row_sum(rows, y, i, k) == row_dot(p, ints(y), i, k),
{
    assert forall|j: int| 0 <= j < k implies #[trigger] (rows[i][j] as int * y[j] as int) == nega_entry(
        p,
        i,
        j,
    ) * ints(y)[j] by {}
    lemma_sum_ext(
        |j: int| rows[i][j] as int * y[j] as int,
        |j: int| nega_entry(p, i, j) * ints(y)[j],
        k,
    );
}

/// Row `i` of the negacyclic matrix of `p`, taken against `y`, is congruent
/// modulo `q` to coefficient `i` of the ring product `p * y` in
/// `Z[X]/(X^n + 1)`.
pub proof fn lemma_negacyclic_row_is_product(rows: Seq<Seq<i64>>, p: Seq<i64>, y: Seq<i64>, i: int)
    requires
        is_negacyclic_of(rows, ints(p)),
        y.len() == p.len(),
        0 <= i < p.len(),
    ensures
        matrix_row_sum(rows, y, i, p.len()) % q() == conv_at(ints(p), ints(y), i) % q(),
{
    lemma_matrix_row_sum(rows, ints(p), y, i, p.len());
    lemma_row_dot_is_product(ints(p), ints(y), i);
}

/// The negacyclic matrices of two polynomials of the same length commute
/// in their action modulo `q`: the matrix of `p` applied to `r` and the
/// matrix of `r` applied to `p` agree in every row, as the ring product is
/// commutative.
pub proof fn lemma_negacyclic_products_commute(
    mp: Seq<Seq<i64>>,
    p: Seq<i64>,
    mr: Seq<Seq<i64>>,
    r: Seq<i64>,
    i: int,
)
    requires
        is_negacyclic_of(mp, ints(p)),
        is_negacyclic_of(mr, ints(r)),
        r.len() == p.len(),
        0 <= i < p.len(),
    ensures
        matrix_row_sum(mp, r, i, p.len()) % q() == matrix_row_sum(mr, p, i, p.len()) % q(),
{
    lemma_negacyclic_row_is_product(mp, p, r, i);
    lemma_negacyclic_row_is_product(mr, r, p, i);
    lemma_conv_commutative(ints(p), ints(r));
    assert(conv(ints(p), ints(r))[i] == conv(ints(r), ints(p))[i]);
}

/// Row `i` of `m`, over its first `n` columns, times `y`, accumulated in
/// 128 bits. Each term is a product of an entry in `[0, q)` with any `i64`,
/// or of any `i64` with a bit, so no sum of up to `n` terms overflows.
pub(crate) fn matrix_row_dot(m: &CoeffMatrix, i: usize, y: &CoeffVector, n: usize) -> (r: i128)
    requires
        i < m@.len(),
        n <= m@[i as int].len(),
        n <= y@.len(),
        n <= DIMENSION,
        forall|j: int|
            0 <= j < n ==> (0 <= #[trigger] m@[i as int][j] < MODULUS) || (0 <= y@[j] <= 1),
    ensures
        r == matrix_row_sum(m@, y@, i as int, n as nat),
        -(n as int) * 0x1_0000_0000_0000_0000_0000 <= r <= (n as int) * 0x1_0000_0000_0000_0000_0000,
{
    let mut acc: i128 = 0;
    let mut j: usize = 0;
    while j < n
        invariant
            i < m@.len(),
            n <= m@[i as int].len(),
            n <= y@.len(),
            n <= DIMENSION,
            forall|t: int|
                0 <= t < n ==> (0 <= #[trigger] m@[i as int][t] < MODULUS) || (0 <= y@[t] <= 1),
            j <= n,
            acc == matrix_row_sum(m@, y@, i as int, j as nat),
            -(j as int) * 0x1_0000_0000_0000_0000_0000 <= acc <= (j as int)
                * 0x1_0000_0000_0000_0000_0000,
        decreases n - j,
    {
        let a = m.get(i, j);
        let b = y.get(j);
        assert(-0x1_0000_0000_0000_0000_0000 <= (a as int) * (b as int) <= 0x1_0000_0000_0000_0000_0000)
            by (nonlinear_arith)
            requires
                (0 <= a < 12289) || (0 <= b <= 1),
                -0x8000_0000_0000_0000 <= a < 0x8000_0000_0000_0000,
                -0x8000_0000_0000_0000 <= b < 0x8000_0000_0000_0000,
        ;
        acc = acc + (a as i128) * (b as i128);
        j = j + 1;
    }
    acc
}

/// Draws a fresh key pair from `rng`: a random 32-byte public seed, the
/// secret binary vector `s`, and the public vector `b = A s + e (mod q)` with
/// noise `e` in `[-1, 1]`, where `A` is expanded from the seed.
pub fn generate_identity(rng: &mut RngState) -> (keys: (PublicKey, PrivateKey))
    ensures
        identity_drawn(old(rng)@) == (keys.0.public_seed@, keys.0.b@, keys.1.sec_s@, final(rng)@),
{
    let public_seed = rng.fill_32();
    let pub_a = expand_matrix_a(&public_seed);
    let ghost st1 = rng@;
    let s_vals = rng.gen_range_many(0, 2, DIMENSION);
    proof {
        lemma_range_draws_bounds(st1, 0, 2, DIMENSION as nat);
        lemma_range_draws_bounds(RngModel::seeded(public_seed@), 0, MODULUS, DIMENSION as nat);
    }
    let sec_s = CoeffVector::from_vec(&s_vals);
    let ghost a = ints(expand_poly(public_seed@));
    let ghost st2 = rng@;
    let mut b: Vec<i64> = Vec::new();
    let mut i: usize = 0;
    while i < DIMENSION
        invariant
            is_negacyclic_of(pub_a@, a),
            a.len() == DIMENSION,
            forall|x: int, y: int|
                0 <= x < DIMENSION && 0 <= y < DIMENSION ==> 0 <= #[trigger] pub_a@[x][y] < MODULUS,
            sec_s@ == s_vals@,
            s_vals@.len() == DIMENSION,
            i <= DIMENSION,
            b@.len() == i,
            rng@ == st2.range_draws(-1i64, 2, i as nat).1,
            forall|k: int|
                0 <= k < i ==> #[trigger] b@[k] == residue(
                    row_dot(a, ints(s_vals@), k, DIMENSION as nat) + st2.range_draws(
                        -1i64,
                        2,
                        i as nat,
                    ).0[k],
                ),
        decreases DIMENSION - i,
    {
        let sum = matrix_row_dot(&pub_a, i, &sec_s, DIMENSION);
        proof {
            lemma_matrix_row_sum(pub_a@, a, sec_s@, i as int, DIMENSION as nat);
        }
        let err = rng.gen_range(-1, 2);
        let ghost prev = b@;
        b.push(reduce_mod_q(sum + err as i128));
        proof {
            lemma_range_draws_bounds(st2, -1i64, 2, i as nat);
            assert(b@ == prev.push(residue(sum + err)));
        }
        i = i + 1;
    }
    proof {
        let ed = st2.range_draws(-1i64, 2, DIMENSION as nat);
        assert(b@ =~= public_vector(expand_poly(public_seed@), s_vals@, ed.0));
    }
    (PublicKey { public_seed, b }, PrivateKey { sec_s })
}

/// The domain salt of the passphrase stretching.
pub const KDF_SALT: &'static str = "diegox_quantum_salt_v1__";

/// The generator key that a passphrase stretches to.
pub open spec fn passphrase_key(passphrase: Seq<char>) -> Seq<u8> {
    argon2id_default_32(vstd::utf8::encode_utf8(passphrase), KDF_SALT.spec_bytes())
}

/// The generator key of a passphrase is Argon2id of the passphrase's whole
/// UTF-8 encoding with the domain salt `diegox_quantum_salt_v1__`: every
/// byte of the passphrase goes into it, not a prefix.
pub proof fn lemma_passphrase_key_is_argon2id(passphrase: Seq<char>)
    ensures
        passphrase_key(passphrase) == argon2id_default_32(
            vstd::utf8::encode_utf8(passphrase),
            vstd::utf8::encode_utf8("diegox_quantum_salt_v1__"@),
        ),
{
    reveal_strlit("diegox_quantum_salt_v1__");
}

/// Rebuilds the key pair bound to a passphrase: Argon2id stretches the
/// passphrase (with the fixed domain salt) into a 32-byte generator key,
/// and `generate_identity` draws the pair from a fresh generator with it.
/// The same passphrase always gives the same pair.
pub fn derive_keypair_from_passphrase(passphrase: &str) -> (keys: (PublicKey, PrivateKey))
    requires
        passphrase.spec_bytes().len() <= 0xFFFF_FFFF,
    ensures
        identity_of_key(passphrase_key(passphrase@)) == (keys.0.public_seed@, keys.0.b@, keys.1.sec_s@),
        identity_of_key(argon2id_default_32(passphrase.spec_bytes(), KDF_SALT.spec_bytes())) == (
            keys.0.public_seed@,
            keys.0.b@,
            keys.1.sec_s@,
        ),
{
    proof {
        reveal_strlit("diegox_quantum_salt_v1__");
        vstd::string::is_ascii_spec_bytes(KDF_SALT);
    }
    let seed = argon2id_hash_32(passphrase.as_bytes(), KDF_SALT.as_bytes());
    let mut rng = RngState::from_seed(seed);
    generate_identity(&mut rng)
}

} // verus!
