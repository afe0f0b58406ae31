//! Coefficient vectors and square matrices, stored in `ndarray` arrays.
//!
//! The arrays sit in fields that Verus does not read; what they hold is
//! named by `vector_coeffs` and `matrix_rows`, and every access goes through
//! a small trusted method whose contract states what the `ndarray` method
//! does to that content.
use vstd::prelude::*;

verus! {

/// A vector of `i64` coefficients (an `ndarray::Array1<i64>`).
#[verifier::external_body]
pub struct CoeffVector {
    arr: ndarray::Array1<i64>,
}

/// A square matrix of `i64` coefficients (an `ndarray::Array2<i64>`).
#[verifier::external_body]
pub struct CoeffMatrix {
    arr: ndarray::Array2<i64>,
}

/// The coefficients a `CoeffVector` holds, in index order.
pub uninterp spec fn vector_coeffs(v: CoeffVector) -> Seq<i64>;

/// The rows a `CoeffMatrix` holds, each in column order.
pub uninterp spec fn matrix_rows(m: CoeffMatrix) -> Seq<Seq<i64>>;

impl View for CoeffVector {
    type V = Seq<i64>;

    open spec fn view(&self) -> Seq<i64> {
        vector_coeffs(*self)
    }
}

impl View for CoeffMatrix {
    type V = Seq<Seq<i64>>;

    open spec fn view(&self) -> Seq<Seq<i64>> {
        matrix_rows(*self)
    }
}

/// `rows` is an `n` by `n` grid.
pub open spec fn is_square(rows: Seq<Seq<i64>>, n: nat) -> bool {
    &&& rows.len() == n
    &&& forall|i: int| 0 <= i < n ==> (#[trigger] rows[i]).len() == n
}

impl CoeffVector {
    /// `Array1::zeros(n)`: `n` zero coefficients. It panics only when the
    /// buffer of `n` elements cannot exist, which `requires` rules out.
    #[verifier::external_body]
    pub(crate) fn zeros(n: usize) -> (v: CoeffVector)
        requires
            n * 8 <= isize::MAX,
        ensures
            vector_coeffs(v) == Seq::new(n as nat, |k: int| 0i64),
    {
        CoeffVector { arr: ndarray::Array1::<i64>::zeros(n) }
    }

    /// `ArrayBase::len`: the number of coefficients.
    #[verifier::external_body]
    pub(crate) fn raw_len(&self) -> (n: usize)
        ensures
            n == vector_coeffs(*self).len(),
    {
        self.arr.len()
    }

    /// Indexing `a[i]` within bounds: coefficient `i`.
    #[verifier::external_body]
    pub(crate) fn get(&self, i: usize) -> (x: i64)
        requires
            i < vector_coeffs(*self).len(),
        ensures
            x == vector_coeffs(*self)[i as int],
    {
        self.arr[i]
    }

    /// Index assignment `a[i] = x` within bounds: only coefficient `i`
    /// changes, and it becomes `x`.
    #[verifier::external_body]
    pub(crate) fn set(&mut self, i: usize, x: i64)
        requires
            i < vector_coeffs(*old(self)).len(),
        ensures
            vector_coeffs(*final(self)) == vector_coeffs(*old(self)).update(i as int, x),
    {
        self.arr[i] = x;
    }

    /// `ArrayBase::fill(0)`: every coefficient becomes zero, the length stays.
    #[verifier::external_body]
    pub(crate) fn fill_zero(&mut self)
        ensures
            vector_coeffs(*final(self)) == Seq::new(vector_coeffs(*old(self)).len(), |k: int| 0i64),
        opens_invariants none
        no_unwind
    {
        self.arr.fill(0);
    }

    /// The number of coefficients.
    pub fn len(&self) -> (n: usize)
        ensures
            n == self@.len(),
    {
        self.raw_len()
    }

    /// A vector holding the coefficients of `v`, in order.
    pub fn from_vec(v: &Vec<i64>) -> (out: CoeffVector)
        requires
            v.len() * 8 <= isize::MAX,
        ensures
            out@ == v@,
    {
        let n = v.len();
        let mut out = CoeffVector::zeros(n);
        let mut k: usize = 0;
        while k < n
            invariant
                n == v.len(),
                k <= n,
                out@.len() == n,
                forall|t: int| 0 <= t < k ==> out@[t] == v@[t],
            decreases n - k,
        {
            out.set(k, v[k]);
            k = k + 1;
        }
        assert(out@ =~= v@);
        out
    }

    /// The coefficients, in order, as a `Vec`.
    pub fn to_vec(&self) -> (v: Vec<i64>)
        ensures
            v@ == self@,
    {
        let n = self.raw_len();
        let mut v: Vec<i64> = Vec::new();
        let mut k: usize = 0;
        while k < n
            invariant
                n == self@.len(),
                k <= n,
                v@ == self@.subrange(0, k as int),
            decreases n - k,
        {
            v.push(self.get(k));
            k = k + 1;
            assert(v@ =~= self@.subrange(0, k as int));
        }
        assert(self@.subrange(0, n as int) =~= self@);
        v
    }
}

impl CoeffMatrix {
    /// `Array2::zeros((n, n))`: an `n` by `n` grid of zeros. It panics only
    /// when the buffer of `n * n` elements cannot exist.
    #[verifier::external_body]
    pub(crate) fn zeros(n: usize) -> (m: CoeffMatrix)
        requires
            n * n * 8 <= isize::MAX,
        ensures
            matrix_rows(m) == Seq::new(n as nat, |i: int| Seq::new(n as nat, |j: int| 0i64)),
    {
        CoeffMatrix { arr: ndarray::Array2::<i64>::zeros((n, n)) }
    }

    /// `ArrayBase::nrows`: the number of rows.
    #[verifier::external_body]
    pub(crate) fn nrows(&self) -> (n: usize)
        ensures
            n == matrix_rows(*self).len(),
    {
        self.arr.nrows()
    }

    /// Indexing `m[(i, j)]` within bounds: entry `(i, j)`.
    #[verifier::external_body]
    pub(crate) fn get(&self, i: usize, j: usize) -> (x: i64)
        requires
            i < matrix_rows(*self).len(),
            j < matrix_rows(*self)[i as int].len(),
        ensures
            x == matrix_rows(*self)[i as int][j as int],
    {
        self.arr[(i, j)]
    }

    /// Index assignment `m[(i, j)] = x` within bounds: only entry `(i, j)`
    /// changes, and it becomes `x`.
    #[verifier::external_body]
    pub(crate) fn set(&mut self, i: usize, j: usize, x: i64)
        requires
            i < matrix_rows(*old(self)).len(),
            j < matrix_rows(*old(self))[i as int].len(),
        ensures
            matrix_rows(*final(self)) == matrix_rows(*old(self)).update(i as int, matrix_rows(*old(self))[i as int].update(j as int, x)),
    {
        self.arr[(i, j)] = x;
    }

    /// The shape `(rows, columns)` of a square matrix.
    pub fn dim(&self) -> (d: (usize, usize))
        requires
            is_square(self@, self@.len()),
        ensures
            d.0 == self@.len(),
            d.1 == self@.len(),
    {
        let n = self.nrows();
        (n, n)
    }

    /// The rows of a square matrix, each as a `Vec`.
    pub fn to_rows(&self) -> (rows: Vec<Vec<i64>>)
        requires
            is_square(self@, self@.len()),
        ensures
            rows@.len() == self@.len(),
            forall|i: int| 0 <= i < self@.len() ==> (#[trigger] rows@[i])@ == self@[i],
    {
        let n = self.nrows();
        let mut rows: Vec<Vec<i64>> = Vec::new();
        let mut i: usize = 0;
        while i < n
            invariant
                n == self@.len(),
                is_square(self@, n as nat),
                i <= n,
                rows@.len() == i,
                forall|a: int| 0 <= a < i ==> (#[trigger] rows@[a])@ == self@[a],
            decreases n - i,
        {
            let mut row: Vec<i64> = Vec::new();
            let mut j: usize = 0;
            while j < n
                invariant
                    n == self@.len(),
                    is_square(self@, n as nat),
                    i < n,
                    j <= n,
                    row@ == self@[i as int].subrange(0, j as int),
                decreases n - j,
            {
                row.push(self.get(i, j));
                j = j + 1;
                assert(row@ =~= self@[i as int].subrange(0, j as int));
            }
            assert(row@ =~= self@[i as int]);
            rows.push(row);
            i = i + 1;
        }
        rows
    }
}

} // verus!
