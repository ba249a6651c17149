use vstd::prelude::*;
use crate::error::EstimateError;

verus! {

/// True when `x` can be held by an `i64`.
pub open spec fn in_i64(x: int) -> bool {
    i64::MIN <= x <= i64::MAX
}

/// The sum of `a[i][l] * b[l][j]` over `l < n`.
pub open spec fn row_col_sum(a: Seq<Seq<int>>, b: Seq<Seq<int>>, i: int, j: int, n: nat) -> int
    decreases n,
{
    if n == 0 {
        0
    } else {
        row_col_sum(a, b, i, j, (n - 1) as nat) + a[i][n - 1] * b[n - 1][j]
    }
}

/// Every product and every partial sum of `row_col_sum(a, b, i, j, n)`, taken in
/// order of increasing `l`, can be held by an `i64`.
pub open spec fn row_col_fits(a: Seq<Seq<int>>, b: Seq<Seq<int>>, i: int, j: int, n: nat) -> bool
    decreases n,
{
    n == 0 || (row_col_fits(a, b, i, j, (n - 1) as nat) && in_i64(a[i][n - 1] * b[n - 1][j])
        && in_i64(row_col_sum(a, b, i, j, n)))
}

/// The product of an `m x inner` matrix `a` and an `inner x p` matrix `b`.
pub open spec fn mat_mul(a: Seq<Seq<int>>, b: Seq<Seq<int>>, m: nat, inner: nat, p: nat) -> Seq<Seq<int>> {
    Seq::new(m, |i: int| Seq::new(p, |j: int| row_col_sum(a, b, i, j, inner)))
}

/// The product `a * b` can be computed entry by entry in `i64` arithmetic.
pub open spec fn mat_mul_fits(a: Seq<Seq<int>>, b: Seq<Seq<int>>, m: nat, inner: nat, p: nat) -> bool {
    forall|i: int, j: int| 0 <= i < m && 0 <= j < p ==> #[trigger] row_col_fits(a, b, i, j, inner)
}

/// The transpose of a `rows x cols` matrix.
pub open spec fn transpose(a: Seq<Seq<int>>, rows: nat, cols: nat) -> Seq<Seq<int>> {
    Seq::new(cols, |j: int| Seq::new(rows, |i: int| a[i][j]))
}

/// The Gram matrix `aᵗ a` of a `rows x cols` matrix, of shape `cols x cols`.
pub open spec fn gram(a: Seq<Seq<int>>, rows: nat, cols: nat) -> Seq<Seq<int>> {
    mat_mul(transpose(a, rows, cols), a, cols, rows, cols)
}

/// The Gram matrix can be computed in `i64` arithmetic.
pub open spec fn gram_fits(a: Seq<Seq<int>>, rows: nat, cols: nat) -> bool {
    mat_mul_fits(transpose(a, rows, cols), a, cols, rows, cols)
}

/// True when `m` has `rows` rows of `cols` entries each.
pub open spec fn has_shape(m: Seq<Seq<int>>, rows: nat, cols: nat) -> bool {
    m.len() == rows && forall|i: int| 0 <= i < rows ==> (#[trigger] m[i]).len() == cols
}

/// Column `j` of a matrix.
pub open spec fn column(m: Seq<Seq<int>>, j: int) -> Seq<int> {
    Seq::new(m.len(), |i: int| m[i][j])
}

/// The integer values of a vector of `i64`.
pub open spec fn ints(v: Seq<i64>) -> Seq<int> {
    v.map_values(|x: i64| x as int)
}

proof fn lemma_row_col_fits_prefix(a: Seq<Seq<int>>, b: Seq<Seq<int>>, i: int, j: int, n: nat, m: nat)
    requires
        m <= n,
        row_col_fits(a, b, i, j, n),
    ensures
        row_col_fits(a, b, i, j, m),
    decreases n,
{
    if m < n {
        lemma_row_col_fits_prefix(a, b, i, j, (n - 1) as nat, m);
    }
}

/// A dense matrix of `i64` entries, stored by rows.
pub struct Matrix {
    data: Vec<Vec<i64>>,
    ncols: usize,
}

impl Matrix {
    /// The entries, as integers, row by row.
    pub closed spec fn view(&self) -> Seq<Seq<int>> {
        self.data@.map_values(|row: Vec<i64>| ints(row@))
    }

    pub closed spec fn rows(&self) -> nat {
        self.data@.len()
    }

    pub closed spec fn cols(&self) -> nat {
        self.ncols as nat
    }

    /// Every row holds `cols()` entries.
    pub closed spec fn wf(&self) -> bool {
        forall|i: int| 0 <= i < self.data@.len() ==> (#[trigger] self.data@[i])@.len() == self.ncols
    }

    proof fn lemma_view(&self)
        requires
            self.wf(),
        ensures
            has_shape(self@, self.rows(), self.cols()),
            forall|i: int, j: int|
                0 <= i < self.rows() && 0 <= j < self.cols() ==> #[trigger] self@[i][j]
                    == self.data@[i]@[j] as int,
    {
    }

    /// Builds a matrix from its rows, each of `ncols` entries. A row of another
    /// length is refused.
    pub fn from_rows(data: Vec<Vec<i64>>, ncols: usize) -> (r: Result<Matrix, EstimateError>)
        ensures
            (forall|i: int| 0 <= i < data@.len() ==> (#[trigger] data@[i])@.len() == ncols) <==> r is Ok,
            r is Err ==> r == Err::<Matrix, EstimateError>(EstimateError::InvalidShape),
            r matches Ok(m) ==> m.wf() && m.rows() == data@.len() && m.cols() == ncols
                && m@ == data@.map_values(|row: Vec<i64>| ints(row@)),
    {
        let mut i: usize = 0;
        while i < data.len()
            invariant
                0 <= i <= data@.len(),
                forall|t: int| 0 <= t < i ==> (#[trigger] data@[t])@.len() == ncols,
            decreases data@.len() - i,
        {
            if data[i].len() != ncols {
                return Err(EstimateError::InvalidShape);
            }
            i = i + 1;
        }
        Ok(Matrix { data, ncols })
    }

    pub fn nrows(&self) -> (r: usize)
        ensures
            r == self.rows(),
    {
        self.data.len()
    }

    pub fn ncols(&self) -> (r: usize)
        ensures
            r == self.cols(),
    {
        self.ncols
    }

    /// The entry at row `i`, column `j`.
    pub fn get(&self, i: usize, j: usize) -> (r: i64)
        requires
            self.wf(),
            i < self.rows(),
            j < self.cols(),
        ensures
            r as int == self@[i as int][j as int],
    {
        proof { self.lemma_view(); }
        self.data[i][j]
    }

    /// Column `j`, top to bottom.
    pub fn column(&self, j: usize) -> (r: Vec<i64>)
        requires
            self.wf(),
            j < self.cols(),
        ensures
            r@.len() == self.rows(),
            forall|t: int| 0 <= t < self.rows() ==> r@[t] as int == #[trigger] self@[t][j as int],
            ints(r@) == column(self@, j as int),
    {
        proof { self.lemma_view(); }
        let mut out: Vec<i64> = Vec::new();
        let mut i: usize = 0;
        while i < self.data.len()
            invariant
                self.wf(),
                j < self.cols(),
                has_shape(self@, self.rows(), self.cols()),
                0 <= i <= self.rows(),
                out@.len() == i,
                forall|t: int| 0 <= t < i ==> out@[t] as int == #[trigger] self@[t][j as int],
            decreases self.rows() - i,
        {
            proof { self.lemma_view(); }
            out.push(self.data[i][j]);
            i = i + 1;
        }
        assert(ints(out@) =~= column(self@, j as int));
        out
    }

    /// The transpose, of shape `cols() x rows()`.
    pub fn transpose(&self) -> (r: Matrix)
        requires
            self.wf(),
        ensures
            r.wf(),
            r.rows() == self.cols(),
            r.cols() == self.rows(),
            r@ == transpose(self@, self.rows(), self.cols()),
    {
        proof { self.lemma_view(); }
        let mut out: Vec<Vec<i64>> = Vec::new();
        let mut j: usize = 0;
        while j < self.ncols
            invariant
                self.wf(),
                has_shape(self@, self.rows(), self.cols()),
                forall|a: int, b: int|
                    0 <= a < self.rows() && 0 <= b < self.cols() ==> #[trigger] self@[a][b]
                        == self.data@[a]@[b] as int,
                0 <= j <= self.cols(),
                out@.len() == j,
                forall|t: int| 0 <= t < j ==> (#[trigger] out@[t])@.len() == self.rows(),
                forall|t: int, u: int|
                    0 <= t < j && 0 <= u < self.rows() ==> #[trigger] out@[t]@[u] as int
                        == self@[u][t],
            decreases self.cols() - j,
        {
            let col = self.column(j);
            out.push(col);
            j = j + 1;
        }
        let r = Matrix { data: out, ncols: self.data.len() };
        proof {
            r.lemma_view();
            let t = transpose(self@, self.rows(), self.cols());
            assert forall|x: int| 0 <= x < r.rows() implies #[trigger] r@[x] =~= t[x] by {}
            assert(r@ =~= t);
        }
        r
    }

    fn row_col(&self, other: &Matrix, i: usize, j: usize) -> (r: Option<i64>)
        requires
            self.wf(),
            other.wf(),
            self.cols() == other.rows(),
            i < self.rows(),
            j < other.cols(),
        ensures
            r is Some <==> row_col_fits(self@, other@, i as int, j as int, self.cols()),
            r matches Some(x) ==> x as int == row_col_sum(self@, other@, i as int, j as int, self.cols()),
    {
        proof {
            self.lemma_view();
            other.lemma_view();
        }
        let n = self.ncols;
        let mut acc: i64 = 0;
        let mut l: usize = 0;
        while l < n
            invariant
                self.wf(),
                other.wf(),
                has_shape(self@, self.rows(), self.cols()),
                has_shape(other@, other.rows(), other.cols()),
                forall|a: int, b: int|
                    0 <= a < self.rows() && 0 <= b < self.cols() ==> #[trigger] self@[a][b]
                        == self.data@[a]@[b] as int,
                forall|a: int, b: int|
                    0 <= a < other.rows() && 0 <= b < other.cols() ==> #[trigger] other@[a][b]
                        == other.data@[a]@[b] as int,
                n == self.cols(),
                self.cols() == other.rows(),
                i < self.rows(),
                j < other.cols(),
                0 <= l <= n,
                row_col_fits(self@, other@, i as int, j as int, l as nat),
                acc as int == row_col_sum(self@, other@, i as int, j as int, l as nat),
            decreases n - l,
        {
            let x = self.data[i][l];
            let y = other.data[l][j];
            assert(row_col_sum(self@, other@, i as int, j as int, (l + 1) as nat) == acc as int + x as int * y as int);
            match x.checked_mul(y) {
                None => {
                    proof {
                        if row_col_fits(self@, other@, i as int, j as int, n as nat) {
                            lemma_row_col_fits_prefix(self@, other@, i as int, j as int, n as nat, (l + 1) as nat);
                        }
                    }
                    return None;
                },
                Some(p) => {
                    match acc.checked_add(p) {
                        None => {
                            proof {
                                if row_col_fits(self@, other@, i as int, j as int, n as nat) {
                                    lemma_row_col_fits_prefix(self@, other@, i as int, j as int, n as nat, (l + 1) as nat);
                                }
                            }
                            return None;
                        },
                        Some(s) => {
                            acc = s;
                        },
                    }
                },
            }
            l = l + 1;
        }
        Some(acc)
    }

    fn mul_row(&self, other: &Matrix, i: usize) -> (r: Option<Vec<i64>>)
        requires
            self.wf(),
            other.wf(),
            self.cols() == other.rows(),
            i < self.rows(),
        ensures
            r is Some <==> forall|u: int| 0 <= u < other.cols() ==> #[trigger] row_col_fits(
                self@, other@, i as int, u, self.cols()),
            r matches Some(row) ==> row@.len() == other.cols() && forall|u: int| 0 <= u < other.cols()
                ==> #[trigger] row@[u] as int == row_col_sum(self@, other@, i as int, u, self.cols()),
    {
        let mut row: Vec<i64> = Vec::new();
        let mut j: usize = 0;
        while j < other.ncols
            invariant
                self.wf(),
                other.wf(),
                self.cols() == other.rows(),
                i < self.rows(),
                0 <= j <= other.cols(),
                row@.len() == j,
                forall|u: int| 0 <= u < j ==> #[trigger] row_col_fits(self@, other@, i as int, u, self.cols()),
                forall|u: int| 0 <= u < j ==> #[trigger] row@[u] as int == row_col_sum(self@, other@, i as int, u, self.cols()),
            decreases other.cols() - j,
        {
            match self.row_col(other, i, j) {
                None => {
                    return None;
                },
                Some(x) => {
                    row.push(x);
                },
            }
            j = j + 1;
        }
        Some(row)
    }

    /// The product `self * other`. Fails with `Overflow` exactly when some product
    /// or partial sum of an entry, summed in order, does not fit in an `i64`.
    pub fn mul(&self, other: &Matrix) -> (r: Result<Matrix, EstimateError>)
        requires
            self.wf(),
            other.wf(),
            self.cols() == other.rows(),
        ensures
            r is Ok <==> mat_mul_fits(self@, other@, self.rows(), self.cols(), other.cols()),
            r is Err ==> r == Err::<Matrix, EstimateError>(EstimateError::Overflow),
            r matches Ok(m) ==> m.wf() && m.rows() == self.rows() && m.cols() == other.cols()
                && m@ == mat_mul(self@, other@, self.rows(), self.cols(), other.cols()),
    {
        let ghost a = self@;
        let ghost b = other@;
        let ghost m = self.rows();
        let ghost inner = self.cols();
        let ghost p = other.cols();
        let mut out: Vec<Vec<i64>> = Vec::new();
        let mut i: usize = 0;
        while i < self.data.len()
            invariant
                self.wf(),
                other.wf(),
                self.cols() == other.rows(),
                a == self@, b == other@, m == self.rows(), inner == self.cols(), p == other.cols(),
                0 <= i <= m,
                out@.len() == i,
                forall|t: int| 0 <= t < i ==> (#[trigger] out@[t])@.len() == p,
                forall|t: int, u: int| 0 <= t < i && 0 <= u < p ==> #[trigger] row_col_fits(a, b, t, u, inner),
                forall|t: int, u: int|
                    0 <= t < i && 0 <= u < p ==> #[trigger] out@[t]@[u] as int == row_col_sum(a, b, t, u, inner),
            decreases m - i,
        {
            match self.mul_row(other, i) {
                None => {
                    proof {
                        if mat_mul_fits(a, b, m, inner, p) {
                            let u = choose|u: int| 0 <= u < p && !row_col_fits(a, b, i as int, u, inner);
                            assert(row_col_fits(a, b, i as int, u, inner));
                        }
                    }
                    return Err(EstimateError::Overflow);
                },
                Some(row) => {
                    let ghost prev = out@;
                    out.push(row);
                    proof {
                        assert forall|t: int, u: int| 0 <= t <= i && 0 <= u < p implies #[trigger] out@[t]@[u] as int
                            == row_col_sum(a, b, t, u, inner) by {
                            if t < i {
                                assert(out@[t] == prev[t]);
                            }
                        }
                    }
                },
            }
            i = i + 1;
        }
        let r = Matrix { data: out, ncols: other.ncols };
        proof {
            r.lemma_view();
            let t = mat_mul(a, b, m, inner, p);
            assert forall|x: int| 0 <= x < m implies #[trigger] r@[x] =~= t[x] by {}
            assert(r@ =~= t);
        }
        Ok(r)
    }
}

} // verus!
