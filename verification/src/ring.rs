//! Integer sums and negacyclic convolution, the algebra behind the lattice
//! scheme: polynomial multiplication in Z[X]/(X^n + 1), and its laws.
use vstd::arithmetic::div_mod::*;
use vstd::arithmetic::mul::*;
use vstd::prelude::*;

verus! {

/// The sum `f(0) + f(1) + ... + f(n - 1)`.
pub open spec fn sum(f: spec_fn(int) -> int, n: nat) -> int
    decreases n,
{
    if n == 0 {
        0
    } else {
        sum(f, (n - 1) as nat) + f(n - 1)
    }
}

/// Sums of functions that agree on `[0, n)` agree.
pub proof fn lemma_sum_ext(f: spec_fn(int) -> int, g: spec_fn(int) -> int, n: nat)
    requires
        forall|k: int| 0 <= k < n ==> #[trigger] f(k) == g(k),
    ensures
        sum(f, n) == sum(g, n),
    decreases n,
{
    if n > 0 {
        lemma_sum_ext(f, g, (n - 1) as nat);
    }
}

/// The sum of a pointwise sum is the sum of the sums.
pub proof fn lemma_sum_add(f: spec_fn(int) -> int, g: spec_fn(int) -> int, n: nat)
    ensures
        sum(|k: int| f(k) + g(k), n) == sum(f, n) + sum(g, n),
    decreases n,
{
    if n > 0 {
        lemma_sum_add(f, g, (n - 1) as nat);
    }
}

/// A constant factor moves out of a sum.
pub proof fn lemma_sum_scale(f: spec_fn(int) -> int, c: int, n: nat)
    ensures
        sum(|k: int| c * f(k), n) == c * sum(f, n),
    decreases n,
{
    if n > 0 {
        lemma_sum_scale(f, c, (n - 1) as nat);
        lemma_mul_is_distributive_add(c, sum(f, (n - 1) as nat), f(n - 1));
    }
}

/// Splitting off the first term of a sum.
pub proof fn lemma_sum_peel_first(f: spec_fn(int) -> int, n: nat)
    ensures
        sum(f, n + 1) == f(0) + sum(|k: int| f(k + 1), n),
    decreases n,
{
    let g = |k: int| f(k + 1);
    if n == 0 {
        assert(sum(f, 1) == sum(f, 0) + f(0));
    } else {
        lemma_sum_peel_first(f, (n - 1) as nat);
        assert(sum(f, n + 1) == sum(f, n) + f(n as int));
        assert(sum(g, n) == sum(g, (n - 1) as nat) + g(n - 1));
    }
}

/// A sum read backwards is the same sum.
pub proof fn lemma_sum_reverse(f: spec_fn(int) -> int, n: nat)
    ensures
        sum(f, n) == sum(|k: int| f(n - 1 - k), n),
    decreases n,
{
    if n > 0 {
        let m = (n - 1) as nat;
        let r = |k: int| f(n - 1 - k);
        lemma_sum_reverse(f, m);
        lemma_sum_peel_first(r, m);
        lemma_sum_ext(|k: int| r(k + 1), |k: int| f(m - 1 - k), m);
        assert(sum(f, n) == sum(f, m) + f(m as int));
        assert(r(0) == f(m as int));
    }
}

/// The sum over any window of `n` consecutive arguments of an `n`-periodic
/// function is the same.
pub proof fn lemma_sum_periodic_shift(f: spec_fn(int) -> int, n: nat, c: nat)
    requires
        forall|t: int| #[trigger] f(t + n) == f(t),
    ensures
        sum(|k: int| f(k + c), n) == sum(f, n),
    decreases c,
{
    if c == 0 {
        lemma_sum_ext(|k: int| f(k + c), f, n);
    } else {
        let d = (c - 1) as nat;
        lemma_sum_periodic_shift(f, n, d);
        let g = |k: int| f(k + d);
        lemma_sum_peel_first(g, n);
        assert(sum(g, n + 1) == sum(g, n) + g(n as int));
        assert(g(n as int) == f(d as int + n));
        assert(f(d as int + n) == f(d as int));
        lemma_sum_ext(|k: int| g(k + 1), |k: int| f(k + c), n);
    }
}

/// A sum of zeros is zero.
pub proof fn lemma_sum_zero(f: spec_fn(int) -> int, n: nat)
    requires
        forall|k: int| 0 <= k < n ==> #[trigger] f(k) == 0,
    ensures
        sum(f, n) == 0,
    decreases n,
{
    if n > 0 {
        lemma_sum_zero(f, (n - 1) as nat);
    }
}

/// Exchanging the order of a double sum.
pub proof fn lemma_sum_swap(g: spec_fn(int, int) -> int, n: nat, m: nat)
    ensures
        sum(|i: int| sum(|j: int| g(i, j), m), n) == sum(|j: int| sum(|i: int| g(i, j), n), m),
    decreases n,
{
    if n == 0 {
        lemma_sum_zero(|j: int| sum(|i: int| g(i, j), n), m);
    } else {
        let p = (n - 1) as nat;
        let rows_p = |j: int| sum(|i: int| g(i, j), p);
        let last = |j: int| g(p as int, j);
        let rows_n = |j: int| sum(|i: int| g(i, j), n);
        lemma_sum_swap(g, p, m);
        lemma_sum_add(rows_p, last, m);
        lemma_sum_ext(|k: int| rows_p(k) + last(k), rows_n, m);
        assert(sum(|i: int| sum(|j: int| g(i, j), m), n) == sum(
            |i: int| sum(|j: int| g(i, j), m),
            p,
        ) + sum(last, m));
        assert(sum(rows_n, m) == sum(rows_p, m) + sum(last, m));
    }
}

/// A sum of terms in `[-1, 1]` lies in `[-n, n]`.
pub proof fn lemma_sum_unit_bound(f: spec_fn(int) -> int, n: nat)
    requires
        forall|k: int| 0 <= k < n ==> -1 <= #[trigger] f(k) <= 1,
    ensures
        -(n as int) <= sum(f, n) <= n,
    decreases n,
{
    if n > 0 {
        lemma_sum_unit_bound(f, (n - 1) as nat);
    }
}

/// Sums of termwise congruent functions are congruent.
pub proof fn lemma_sum_congruent(f: spec_fn(int) -> int, g: spec_fn(int) -> int, n: nat, q: int)
    requires
        q > 0,
        forall|k: int| 0 <= k < n ==> #[trigger] f(k) % q == g(k) % q,
    ensures
        sum(f, n) % q == sum(g, n) % q,
    decreases n,
{
    if n > 0 {
        let m = (n - 1) as nat;
        lemma_sum_congruent(f, g, m, q);
        lemma_add_mod_noop(sum(f, m), f(m as int), q);
        lemma_add_mod_noop(sum(g, m), g(m as int), q);
    }
}

/// Coefficient `t` (any integer) of the negacyclic extension of `x`: the
/// coefficient `t mod n`, negated once for each wrap past a multiple of
/// `n`, as multiplication by `X^n = -1` in `Z[X]/(X^n + 1)` demands.
pub open spec fn ext(x: Seq<int>, t: int) -> int {
    let n = x.len() as int;
    if (t / n) % 2 == 0 {
        x[t % n]
    } else {
        -x[t % n]
    }
}

/// Coefficient `i` of the product `x * y` in `Z[X]/(X^n + 1)`, read at any
/// integer `i` through the negacyclic extension.
pub open spec fn conv_at(x: Seq<int>, y: Seq<int>, i: int) -> int {
    sum(|j: int| ext(x, i - j) * y[j], x.len())
}

/// The product `x * y` in `Z[X]/(X^n + 1)`, with `n` the length of `x`.
pub open spec fn conv(x: Seq<int>, y: Seq<int>) -> Seq<int> {
    Seq::new(x.len(), |i: int| conv_at(x, y, i))
}

pub proof fn lemma_ext_in_range(x: Seq<int>, t: int)
    requires
        0 <= t < x.len(),
    ensures
        ext(x, t) == x[t],
{
    let n = x.len() as int;
    lemma_basic_div(t, n);
    lemma_small_mod(t as nat, n as nat);
}

pub proof fn lemma_ext_negative(x: Seq<int>, t: int)
    requires
        -x.len() <= t < 0,
    ensures
        ext(x, t) == -x[t + x.len()],
{
    let n = x.len() as int;
    lemma_basic_div(t + n, n);
    lemma_small_mod((t + n) as nat, n as nat);
    lemma_div_minus_one(t + n, n);
    lemma_mod_sub_multiples_vanish(t + n, n);
}

/// One wrap negates: `ext(x, t + n) == -ext(x, t)`.
pub proof fn lemma_ext_shift(x: Seq<int>, t: int)
    requires
        x.len() > 0,
    ensures
        ext(x, t + x.len()) == -ext(x, t),
        ext(x, t - x.len()) == -ext(x, t),
{
    let n = x.len() as int;
    lemma_div_plus_one(t, n);
    lemma_mod_add_multiples_vanish(t, n);
    lemma_div_minus_one(t, n);
    lemma_mod_sub_multiples_vanish(t, n);
    assert((t / n + 1) % 2 != (t / n) % 2);
    assert((t / n - 1) % 2 != (t / n) % 2);
    assert(t + n == n + t);
    assert(t - n == -n + t);
}

/// The extended product is negacyclic too.
pub proof fn lemma_conv_at_shift(x: Seq<int>, y: Seq<int>, t: int)
    requires
        x.len() > 0,
    ensures
        conv_at(x, y, t + x.len()) == -conv_at(x, y, t),
{
    let n = x.len();
    let f = |j: int| ext(x, t - j) * y[j];
    assert forall|j: int| 0 <= j < n implies #[trigger] ext(x, t + n - j) * y[j] == -1 * f(j) by {
        lemma_ext_shift(x, t - j);
        assert(t + n - j == (t - j) + n);
        lemma_mul_unary_negation(ext(x, t - j), y[j]);
    }
    lemma_sum_ext(|j: int| ext(x, t + n - j) * y[j], |j: int| -1 * f(j), n);
    lemma_sum_scale(f, -1, n);
}

/// Reading the product through the negacyclic extension agrees with the
/// extended product at every integer.
pub proof fn lemma_ext_conv(x: Seq<int>, y: Seq<int>, t: int)
    requires
        x.len() > 0,
    ensures
        ext(conv(x, y), t) == conv_at(x, y, t),
    decreases (if t < 0 { x.len() - t } else { t }),
{
    let n = x.len() as int;
    let c = conv(x, y);
    if 0 <= t < n {
        lemma_ext_in_range(c, t);
    } else if t >= n {
        lemma_ext_conv(x, y, t - n);
        lemma_ext_shift(c, t - n);
        lemma_conv_at_shift(x, y, t - n);
        assert(t - n + n == t);
    } else {
        lemma_ext_conv(x, y, t + n);
        lemma_ext_shift(c, t);
        lemma_conv_at_shift(x, y, t);
    }
}

/// The inner identity behind associativity: summing `ext(s, i - k) *
/// ext(a, k - l)` over `k` gives the coefficient `i - l` of `a * s`.
proof fn lemma_inner_window(a: Seq<int>, s: Seq<int>, i: int, l: int)
    requires
        a.len() > 0,
        s.len() == a.len(),
        0 <= i < a.len(),
    ensures
        sum(|k: int| ext(s, i - k) * ext(a, k - l), a.len()) == conv_at(a, s, i - l),
{
    let n = a.len();
    let g = |t: int| ext(s, t) * ext(a, i - l - t);
    assert forall|t: int| #[trigger] g(t + n) == g(t) by {
        lemma_ext_shift(s, t);
        lemma_ext_shift(a, i - l - t - n);
        assert(i - l - t - n + n == i - l - t);
        assert(i - l - (t + n) == i - l - t - n);
        lemma_mul_unary_negation(ext(s, t), -ext(a, i - l - t));
        lemma_mul_unary_negation(ext(s, t), ext(a, i - l - t));
    }
    let h = |k: int| g(i - k);
    assert forall|k: int| 0 <= k < n implies #[trigger] (ext(s, i - k) * ext(a, k - l)) == h(k) by {
        assert(i - l - (i - k) == k - l);
    }
    lemma_sum_ext(|k: int| ext(s, i - k) * ext(a, k - l), h, n);
    lemma_sum_reverse(h, n);
    assert forall|k: int| 0 <= k < n implies #[trigger] h(n - 1 - k) == g(k + (i + 1) as nat) by {
        assert(i - (n - 1 - k) == (k + i + 1) - n);
        assert(g((k + i + 1 - n) + n) == g(k + i + 1 - n));
    }
    lemma_sum_ext(|k: int| h(n - 1 - k), |k: int| g(k + (i + 1) as nat), n);
    lemma_sum_periodic_shift(g, n, (i + 1) as nat);
    assert forall|k: int| 0 <= k < n implies #[trigger] g(k) == ext(a, (i - l) - k) * s[k] by {
        lemma_ext_in_range(s, k);
        lemma_mul_is_commutative(s[k], ext(a, i - l - k));
    }
    lemma_sum_ext(g, |k: int| ext(a, (i - l) - k) * s[k], n);
}

/// The product in `Z[X]/(X^n + 1)` is commutative: `x * y == y * x`.
pub proof fn lemma_conv_commutative(x: Seq<int>, y: Seq<int>)
    requires
        y.len() == x.len(),
    ensures
        conv(x, y) == conv(y, x),
{
    let n = x.len();
    assert forall|i: int| 0 <= i < n implies #[trigger] conv_at(x, y, i) == conv_at(y, x, i) by {
        lemma_inner_window(x, y, i, 0);
        assert forall|k: int| 0 <= k < n implies #[trigger] (ext(y, i - k) * ext(x, k - 0)) == ext(
            y,
            i - k,
        ) * x[k] by {
            assert(k - 0 == k);
            lemma_ext_in_range(x, k);
        }
        lemma_sum_ext(|k: int| ext(y, i - k) * ext(x, k - 0), |k: int| ext(y, i - k) * x[k], n);
        assert(i - 0 == i);
    }
    assert(conv(x, y) =~= conv(y, x));
}

/// Associativity in the form the scheme uses:
/// `((a * s) * r)[i] == (s * (a * r))[i]` in `Z[X]/(X^n + 1)`.
pub proof fn lemma_conv_reassociate(a: Seq<int>, s: Seq<int>, r: Seq<int>, i: int)
    requires
        a.len() > 0,
        s.len() == a.len(),
        r.len() == a.len(),
        0 <= i < a.len(),
    ensures
        conv_at(conv(a, s), r, i) == conv_at(s, conv(a, r), i),
{
    let n = a.len();
    let as_ = conv(a, s);
    let ar = conv(a, r);
    // Left side: read the inner product through its extension.
    assert forall|l: int| 0 <= l < n implies #[trigger] (ext(as_, i - l) * r[l]) == conv_at(a, s, i - l)
        * r[l] by {
        lemma_ext_conv(a, s, i - l);
    }
    lemma_sum_ext(|l: int| ext(as_, i - l) * r[l], |l: int| conv_at(a, s, i - l) * r[l], n);
    // Right side: expand, distribute, swap, and fold the inner sums.
    let g2 = |k: int, l: int| ext(s, i - k) * (ext(a, k - l) * r[l]);
    assert forall|k: int| 0 <= k < n implies #[trigger] (ext(s, i - k) * ar[k]) == sum(
        |l: int| g2(k, l),
        n,
    ) by {
        lemma_sum_scale(|l: int| ext(a, k - l) * r[l], ext(s, i - k), n);
        lemma_sum_ext(
            |l: int| ext(s, i - k) * (|l: int| ext(a, k - l) * r[l])(l),
            |l: int| g2(k, l),
            n,
        );
    }
    lemma_sum_ext(|k: int| ext(s, i - k) * ar[k], |k: int| sum(|l: int| g2(k, l), n), n);
    lemma_sum_swap(g2, n, n);
    assert forall|l: int| 0 <= l < n implies sum(|k: int| g2(k, l), n) == conv_at(a, s, i - l)
        * #[trigger] r[l] by {
        let p = |k: int| ext(s, i - k) * ext(a, k - l);
        assert forall|k: int| 0 <= k < n implies #[trigger] g2(k, l) == r[l] * p(k) by {
            lemma_mul_is_associative(ext(s, i - k), ext(a, k - l), r[l]);
            lemma_mul_is_commutative(ext(s, i - k) * ext(a, k - l), r[l]);
        }
        lemma_sum_ext(|k: int| g2(k, l), |k: int| r[l] * p(k), n);
        lemma_sum_scale(p, r[l], n);
        lemma_inner_window(a, s, i, l);
        lemma_mul_is_commutative(r[l], conv_at(a, s, i - l));
    }
    lemma_sum_ext(
        |l: int| sum(|k: int| g2(k, l), n),
        |l: int| conv_at(a, s, i - l) * r[l],
        n,
    );
}

/// Coefficientwise sum of two sequences of the same length.
pub open spec fn seq_add(x: Seq<int>, e: Seq<int>) -> Seq<int> {
    Seq::new(x.len(), |k: int| x[k] + e[k])
}

/// The product distributes over a sum in its left factor.
pub proof fn lemma_conv_add_left(x: Seq<int>, e: Seq<int>, y: Seq<int>, i: int)
    requires
        x.len() > 0,
        e.len() == x.len(),
    ensures
        conv_at(seq_add(x, e), y, i) == conv_at(x, y, i) + conv_at(e, y, i),
{
    let n = x.len();
    let xe = seq_add(x, e);
    let f = |j: int| ext(x, i - j) * y[j];
    let g = |j: int| ext(e, i - j) * y[j];
    assert forall|j: int| 0 <= j < n implies #[trigger] (ext(xe, i - j) * y[j]) == f(j) + g(j) by {
        let t = i - j;
        assert(0 <= t % (n as int) < n) by {
            lemma_mod_bound(t, n as int);
        }
        assert(ext(xe, t) == ext(x, t) + ext(e, t));
        lemma_mul_is_distributive_add_other_way(y[j], ext(x, t), ext(e, t));
    }
    lemma_sum_ext(|j: int| ext(xe, i - j) * y[j], |j: int| f(j) + g(j), n);
    lemma_sum_add(f, g, n);
}

/// The product distributes over a sum in its right factor.
pub proof fn lemma_conv_add_right(x: Seq<int>, y: Seq<int>, e: Seq<int>, i: int)
    requires
        x.len() > 0,
        y.len() == x.len(),
        e.len() == x.len(),
    ensures
        conv_at(x, seq_add(y, e), i) == conv_at(x, y, i) + conv_at(x, e, i),
{
    let n = x.len();
    let ye = seq_add(y, e);
    let f = |j: int| ext(x, i - j) * y[j];
    let g = |j: int| ext(x, i - j) * e[j];
    assert forall|j: int| 0 <= j < n implies #[trigger] (ext(x, i - j) * ye[j]) == f(j) + g(j) by {
        lemma_mul_is_distributive_add(ext(x, i - j), y[j], e[j]);
    }
    lemma_sum_ext(|j: int| ext(x, i - j) * ye[j], |j: int| f(j) + g(j), n);
    lemma_sum_add(f, g, n);
}

/// Replacing the left factor by a coefficientwise congruent one keeps the
/// product's coefficients congruent.
pub proof fn lemma_conv_congruent_left(x: Seq<int>, x2: Seq<int>, y: Seq<int>, i: int, q: int)
    requires
        q > 0,
        x.len() > 0,
        x2.len() == x.len(),
        forall|k: int| 0 <= k < x.len() ==> #[trigger] x[k] % q == x2[k] % q,
    ensures
        conv_at(x, y, i) % q == conv_at(x2, y, i) % q,
{
    let n = x.len();
    assert forall|j: int| 0 <= j < n implies #[trigger] (ext(x, i - j) * y[j]) % q == (ext(x2, i - j)
        * y[j]) % q by {
        let t = i - j;
        let r = t % (n as int);
        assert(0 <= r < n) by {
            lemma_mod_bound(t, n as int);
        }
        assert(x[r] % q == x2[r] % q);
        assert(ext(x, t) % q == ext(x2, t) % q) by {
            lemma_sub_mod_noop(0, x[r], q);
            lemma_sub_mod_noop(0, x2[r], q);
        }
        lemma_mul_mod_noop_left(ext(x, t), y[j], q);
        lemma_mul_mod_noop_left(ext(x2, t), y[j], q);
    }
    lemma_sum_congruent(|j: int| ext(x, i - j) * y[j], |j: int| ext(x2, i - j) * y[j], n, q);
}

/// Replacing the right factor by a coefficientwise congruent one keeps the
/// product's coefficients congruent.
pub proof fn lemma_conv_congruent_right(x: Seq<int>, y: Seq<int>, y2: Seq<int>, i: int, q: int)
    requires
        q > 0,
        x.len() > 0,
        y.len() == x.len(),
        y2.len() == x.len(),
        forall|k: int| 0 <= k < x.len() ==> #[trigger] y[k] % q == y2[k] % q,
    ensures
        conv_at(x, y, i) % q == conv_at(x, y2, i) % q,
{
    let n = x.len();
    assert forall|j: int| 0 <= j < n implies #[trigger] (ext(x, i - j) * y[j]) % q == (ext(x, i - j)
        * y2[j]) % q by {
        lemma_mul_mod_noop_right(ext(x, i - j), y[j], q);
        lemma_mul_mod_noop_right(ext(x, i - j), y2[j], q);
    }
    lemma_sum_congruent(|j: int| ext(x, i - j) * y[j], |j: int| ext(x, i - j) * y2[j], n, q);
}

/// Every coefficient lies in `[-1, 1]`.
pub open spec fn is_unit_bounded(x: Seq<int>) -> bool {
    forall|k: int| 0 <= k < x.len() ==> -1 <= #[trigger] x[k] <= 1
}

/// The product of two polynomials with coefficients in `[-1, 1]` has
/// coefficients in `[-n, n]`.
pub proof fn lemma_conv_unit_bound(x: Seq<int>, y: Seq<int>, i: int)
    requires
        x.len() > 0,
        y.len() == x.len(),
        is_unit_bounded(x),
        is_unit_bounded(y),
    ensures
        -(x.len() as int) <= conv_at(x, y, i) <= x.len(),
{
    let n = x.len();
    assert forall|j: int| 0 <= j < n implies -1 <= #[trigger] (ext(x, i - j) * y[j]) <= 1 by {
        let t = i - j;
        assert(0 <= t % (n as int) < n) by {
            lemma_mod_bound(t, n as int);
        }
        let u = ext(x, t);
        let v = y[j];
        assert(-1 <= u <= 1);
        assert(-1 <= u * v <= 1) by (nonlinear_arith)
            requires
                -1 <= u <= 1,
                -1 <= v <= 1,
        ;
    }
    lemma_sum_unit_bound(|j: int| ext(x, i - j) * y[j], n);
}

} // verus!
