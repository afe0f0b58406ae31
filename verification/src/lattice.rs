//! The lattice scheme at the level of integer sequences: the negacyclic
//! matrix the code builds, its rows as ring products, the bit decoder, and
//! the correctness of decryption for every admissible noise.
use crate::config::{DELTA, DIMENSION, MODULUS};
use crate::ring::{
    conv, conv_at, ext, is_unit_bounded, lemma_conv_add_left, lemma_conv_add_right,
    lemma_conv_congruent_left, lemma_conv_congruent_right, lemma_conv_reassociate,
    lemma_conv_unit_bound, lemma_ext_in_range, lemma_ext_negative, lemma_sum_congruent, seq_add, sum,
};
use vstd::arithmetic::div_mod::*;
use vstd::arithmetic::mul::*;
use vstd::prelude::*;

verus! {

/// The modulus as a mathematical integer.
pub open spec fn q() -> int {
    MODULUS as int
}

/// The integer coefficients of a sequence of `i64`.
pub open spec fn ints(v: Seq<i64>) -> Seq<int> {
    Seq::new(v.len(), |k: int| v[k] as int)
}

/// Entry `(i, j)` of the negacyclic matrix of `p`, as the scheme builds it:
/// the coefficient `p[i - j]` on and below the diagonal, and above it the
/// negated coefficient `p[n + i - j]` reduced into `[0, q)`.
pub open spec fn nega_entry(p: Seq<int>, i: int, j: int) -> int {
    if i >= j {
        p[i - j]
    } else {
        (q() - p[p.len() + i - j] % q()) % q()
    }
}

/// The first `k` terms of row `i` of the negacyclic matrix of `p` times `y`.
pub open spec fn row_dot(p: Seq<int>, y: Seq<int>, i: int, k: nat) -> int {
    sum(|j: int| nega_entry(p, i, j) * y[j], k)
}

/// Every coefficient is 0 or 1.
pub open spec fn is_binary(x: Seq<int>) -> bool {
    forall|k: int| 0 <= k < x.len() ==> 0 <= #[trigger] x[k] <= 1
}

/// The bit a decrypting party reads from a coefficient `v` and the
/// corresponding coefficient `su` of `s * u`: 1 when `v - su` lies in the
/// quarter-to-three-quarters band around `q / 2`.
pub open spec fn decode_bit(v: int, su: int) -> int {
    let noisy = (v - su) % q();
    let shifted = (noisy - DELTA / 2 + q()) % q();
    if shifted < DELTA {
        1
    } else {
        0
    }
}

/// A row of the negacyclic matrix, taken against `y`, is congruent to the
/// ring product's coefficient.
pub proof fn lemma_row_dot_is_product(p: Seq<int>, y: Seq<int>, i: int)
    requires
        p.len() > 0,
        y.len() == p.len(),
        0 <= i < p.len(),
    ensures
        row_dot(p, y, i, p.len()) % q() == conv_at(p, y, i) % q(),
{
    let n = p.len();
    assert forall|j: int| 0 <= j < n implies #[trigger] (nega_entry(p, i, j) * y[j]) % q() == (ext(
        p,
        i - j,
    ) * y[j]) % q() by {
        if i >= j {
            lemma_ext_in_range(p, i - j);
        } else {
            lemma_ext_negative(p, i - j);
            let c = p[n + i - j];
            assert(i - j + n == n + i - j);
            assert(((q() - c % q()) % q()) % q() == (-c) % q()) by {
                lemma_mod_twice(q() - c % q(), q());
                lemma_sub_mod_noop(q(), c, q());
                lemma_mod_self_0(q());
                lemma_mod_twice(c, q());
                lemma_sub_mod_noop(0, c, q());
                lemma_mod_add_multiples_vanish(-c, q());
            }
        }
        lemma_mul_mod_noop_left(nega_entry(p, i, j), y[j], q());
        lemma_mul_mod_noop_left(ext(p, i - j), y[j], q());
    }
    lemma_sum_congruent(|j: int| nega_entry(p, i, j) * y[j], |j: int| ext(p, i - j) * y[j], n, q());
}

/// Congruence survives subtraction.
pub proof fn lemma_sub_congruent(x: int, x2: int, y: int, y2: int)
    requires
        x % q() == x2 % q(),
        y % q() == y2 % q(),
    ensures
        (x - y) % q() == (x2 - y2) % q(),
{
    lemma_sub_mod_noop(x, y, q());
    lemma_sub_mod_noop(x2, y2, q());
}

/// Congruence survives addition.
pub proof fn lemma_add_congruent(x: int, x2: int, y: int, y2: int)
    requires
        x % q() == x2 % q(),
        y % q() == y2 % q(),
    ensures
        (x + y) % q() == (x2 + y2) % q(),
{
    lemma_add_mod_noop(x, y, q());
    lemma_add_mod_noop(x2, y2, q());
}

/// The decoder reads `m` back from any value congruent to `m * DELTA + eta`
/// with `|eta| <= 3071`, the margin that a quarter of `q` leaves.
pub proof fn lemma_decode_bit(v: int, su: int, m: int, eta: int)
    requires
        m == 0 || m == 1,
        -3071 <= eta <= 3071,
        (v - su) % q() == (m * DELTA + eta) % q(),
    ensures
        decode_bit(v, su) == m,
{
    let x = m * DELTA + eta;
    let noisy = (v - su) % q();
    if x >= 0 {
        lemma_small_mod(x as nat, q() as nat);
        assert(noisy == x);
        let y = noisy - DELTA / 2 + q();
        if y >= q() {
            lemma_mod_sub_multiples_vanish(y, q());
            lemma_small_mod((y - q()) as nat, q() as nat);
        } else {
            lemma_small_mod(y as nat, q() as nat);
        }
    } else {
        lemma_mod_add_multiples_vanish(x, q());
        lemma_small_mod((x + q()) as nat, q() as nat);
        assert(noisy == x + q());
        let y = noisy - DELTA / 2 + q();
        lemma_mod_sub_multiples_vanish(y, q());
        lemma_small_mod((y - q()) as nat, q() as nat);
    }
}

/// Coefficients congruent to a matrix row plus noise are congruent to the
/// ring product plus the same noise.
proof fn lemma_rows_to_product(a: Seq<int>, s: Seq<int>, e: Seq<int>, b: Seq<int>)
    requires
        a.len() > 0,
        s.len() == a.len(),
        e.len() == a.len(),
        b.len() == a.len(),
        forall|k: int|
            0 <= k < a.len() ==> #[trigger] b[k] % q() == (row_dot(a, s, k, a.len()) + e[k]) % q(),
    ensures
        forall|k: int|
            0 <= k < a.len() ==> #[trigger] b[k] % q() == seq_add(conv(a, s), e)[k] % q(),
{
    let n = a.len();
    assert forall|k: int| 0 <= k < n implies #[trigger] b[k] % q() == seq_add(conv(a, s), e)[k] % q() by {
        lemma_row_dot_is_product(a, s, k);
        lemma_add_congruent(row_dot(a, s, k, n), conv(a, s)[k], e[k], e[k]);
    }
}

/// `B r ≡ (a*s)*r + e*r` when `b ≡ a*s + e`.
proof fn lemma_masked_row(a: Seq<int>, s: Seq<int>, e: Seq<int>, b: Seq<int>, r: Seq<int>, i: int)
    requires
        a.len() > 0,
        s.len() == a.len(),
        e.len() == a.len(),
        b.len() == a.len(),
        r.len() == a.len(),
        0 <= i < a.len(),
        forall|k: int|
            0 <= k < a.len() ==> #[trigger] b[k] % q() == seq_add(conv(a, s), e)[k] % q(),
    ensures
        row_dot(b, r, i, a.len()) % q() == (conv_at(conv(a, s), r, i) + conv_at(e, r, i)) % q(),
{
    lemma_row_dot_is_product(b, r, i);
    lemma_conv_congruent_left(b, seq_add(conv(a, s), e), r, i, q());
    lemma_conv_add_left(conv(a, s), e, r, i);
}

/// `S u ≡ s*(a*r) + s*e1` when `u ≡ a*r + e1`.
proof fn lemma_unmask_row(a: Seq<int>, s: Seq<int>, r: Seq<int>, e1: Seq<int>, u: Seq<int>, i: int)
    requires
        a.len() > 0,
        s.len() == a.len(),
        r.len() == a.len(),
        e1.len() == a.len(),
        u.len() == a.len(),
        0 <= i < a.len(),
        forall|k: int|
            0 <= k < a.len() ==> #[trigger] u[k] % q() == seq_add(conv(a, r), e1)[k] % q(),
    ensures
        row_dot(s, u, i, a.len()) % q() == (conv_at(s, conv(a, r), i) + conv_at(s, e1, i)) % q(),
{
    lemma_row_dot_is_product(s, u, i);
    lemma_conv_congruent_right(s, u, seq_add(conv(a, r), e1), i, q());
    lemma_conv_add_right(s, conv(a, r), e1, i);
}

/// Correctness of one decrypted bit, for every admissible choice of noise.
///
/// Key generation published `b ≡ A s + e`; encryption sent `u ≡ A r + e1`
/// and `v ≡ B r + e2 + m DELTA`, with `A`, `B` the negacyclic matrices of
/// `a`, `b`. Whatever the binary `s`, `r` and the noise in `[-1, 1]`, the
/// decoder applied to `v` and `S u` returns `m`.
pub proof fn lemma_lwe_bit_correct(
    a: Seq<int>,
    s: Seq<int>,
    e: Seq<int>,
    b: Seq<int>,
    r: Seq<int>,
    e1: Seq<int>,
    u: Seq<int>,
    e2: int,
    m: int,
    v: int,
    su: int,
    i: int,
)
    requires
        a.len() == DIMENSION,
        s.len() == a.len(),
        e.len() == a.len(),
        b.len() == a.len(),
        r.len() == a.len(),
        e1.len() == a.len(),
        u.len() == a.len(),
        0 <= i < a.len(),
        is_binary(s),
        is_binary(r),
        is_unit_bounded(e),
        is_unit_bounded(e1),
        -1 <= e2 <= 1,
        m == 0 || m == 1,
        forall|k: int|
            0 <= k < a.len() ==> #[trigger] b[k] % q() == (row_dot(a, s, k, a.len()) + e[k]) % q(),
        forall|k: int|
            0 <= k < a.len() ==> #[trigger] u[k] % q() == (row_dot(a, r, k, a.len()) + e1[k]) % q(),
        v % q() == (row_dot(b, r, i, a.len()) + e2 + m * DELTA) % q(),
        su % q() == row_dot(s, u, i, a.len()) % q(),
    ensures
        decode_bit(v, su) == m,
{
    let n = a.len();
    lemma_rows_to_product(a, s, e, b);
    lemma_rows_to_product(a, r, e1, u);
    lemma_masked_row(a, s, e, b, r, i);
    lemma_unmask_row(a, s, r, e1, u, i);
    let br = conv_at(conv(a, s), r, i) + conv_at(e, r, i);
    let su2 = conv_at(s, conv(a, r), i) + conv_at(s, e1, i);
    lemma_conv_reassociate(a, s, r, i);
    assert(is_unit_bounded(s) && is_unit_bounded(r));
    lemma_conv_unit_bound(e, r, i);
    lemma_conv_unit_bound(s, e1, i);
    let eta = conv_at(e, r, i) + e2 - conv_at(s, e1, i);
    let rb = row_dot(b, r, i, n);
    let t = e2 + m * DELTA;
    assert(v % q() == (br + t) % q()) by {
        lemma_add_congruent(rb, br, t, t);
        assert(rb + e2 + m * DELTA == rb + t);
    }
    assert(su % q() == su2 % q()) by {
        lemma_mod_twice(row_dot(s, u, i, n), q());
    }
    lemma_sub_congruent(v, br + t, su, su2);
    assert(br + t - su2 == m * DELTA + eta);
    lemma_decode_bit(v, su, m, eta);
}

} // verus!
