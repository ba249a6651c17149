use vstd::prelude::*;
use crate::error::EstimateError;
use crate::matrix::{column, gram, gram_fits, ints, mat_mul, mat_mul_fits, row_col_sum, Matrix};

verus! {

/// `g` squared `n` times, that is `g` raised to the power `2^n`.
pub open spec fn squarings(g: Seq<Seq<int>>, c: nat, n: nat) -> Seq<Seq<int>>
    decreases n,
{
    if n == 0 {
        g
    } else {
        let h = squarings(g, c, (n - 1) as nat);
        mat_mul(h, h, c, c, c)
    }
}

/// Each of the `n` squarings of the `c x c` matrix `g` can be computed in `i64`
/// arithmetic.
pub open spec fn squarings_fit(g: Seq<Seq<int>>, c: nat, n: nat) -> bool
    decreases n,
{
    n == 0 || (squarings_fit(g, c, (n - 1) as nat) && mat_mul_fits(
        squarings(g, c, (n - 1) as nat),
        squarings(g, c, (n - 1) as nat),
        c,
        c,
        c,
    ))
}

/// The exponent convention: `k` asks for `k - 1` squarings of the Gram matrix,
/// so `k == 1` gives the Gram matrix itself. The matrix must have a row and a
/// column, and `k` must be positive.
pub open spec fn valid_input(rows: nat, cols: nat, k: nat) -> bool {
    rows >= 1 && cols >= 1 && k >= 1
}

/// `(aᵗ a)^(2^(k-1))` for a `rows x cols` matrix `a`.
pub open spec fn gram_power(a: Seq<Seq<int>>, rows: nat, cols: nat, k: nat) -> Seq<Seq<int>> {
    squarings(gram(a, rows, cols), cols, (k - 1) as nat)
}

/// `gram_power(a, rows, cols, k)` can be computed in `i64` arithmetic.
pub open spec fn power_fits(a: Seq<Seq<int>>, rows: nat, cols: nat, k: nat) -> bool {
    gram_fits(a, rows, cols) && squarings_fit(gram(a, rows, cols), cols, (k - 1) as nat)
}

/// What `sing_val` returns, as integers.
pub open spec fn power_outcome(a: Seq<Seq<int>>, rows: nat, cols: nat, k: nat) -> Result<
    Seq<Seq<int>>,
    EstimateError,
> {
    if !valid_input(rows, cols, k) {
        Err(EstimateError::InvalidShape)
    } else if !power_fits(a, rows, cols, k) {
        Err(EstimateError::Overflow)
    } else {
        Ok(gram_power(a, rows, cols, k))
    }
}

/// What `estimate` returns, as integers: the first column of the power of the
/// Gram matrix.
pub open spec fn estimate_outcome(a: Seq<Seq<int>>, rows: nat, cols: nat, k: nat) -> Result<
    Seq<int>,
    EstimateError,
> {
    match power_outcome(a, rows, cols, k) {
        Ok(g) => Ok(column(g, 0)),
        Err(e) => Err(e),
    }
}

/// A result of `estimate`, as integers.
pub open spec fn vector_outcome(r: Result<Vec<i64>, EstimateError>) -> Result<Seq<int>, EstimateError> {
    match r {
        Ok(v) => Ok(ints(v@)),
        Err(e) => Err(e),
    }
}

proof fn lemma_squarings_fit_prefix(g: Seq<Seq<int>>, c: nat, n: nat, m: nat)
    requires
        m <= n,
        squarings_fit(g, c, n),
    ensures
        squarings_fit(g, c, m),
    decreases n,
{
    if m < n {
        lemma_squarings_fit_prefix(g, c, (n - 1) as nat, m);
    }
}

/// The Gram matrix `aᵗ a`, raised to the power `2^(k-1)` by `k - 1` squarings.
///
/// Fails with `InvalidShape` when `a` has no row or no column or `k` is zero,
/// and otherwise with `Overflow` exactly when an entry of the Gram matrix or of
/// one of the squarings does not fit in an `i64`. Repeated squaring grows the
/// entries geometrically, so for all but small `k` and small entries the result
/// is `Overflow`. No rescaling between squarings is offered: the squarings are
/// exact, and an entry that grows out of range is reported, never rounded.
pub fn sing_val(a: &Matrix, k: u32) -> (r: Result<Matrix, EstimateError>)
    requires
        a.wf(),
    ensures
        match r {
            Ok(g) => g.wf() && g.rows() == a.cols() && g.cols() == a.cols()
                && power_outcome(a@, a.rows(), a.cols(), k as nat) == Ok::<Seq<Seq<int>>, EstimateError>(g@),
            Err(e) => power_outcome(a@, a.rows(), a.cols(), k as nat) == Err::<Seq<Seq<int>>, EstimateError>(e),
        },
{
    if a.nrows() == 0 || a.ncols() == 0 || k == 0 {
        return Err(EstimateError::InvalidShape);
    }
    let ghost rows = a.rows();
    let ghost c = a.cols();
    let ghost g0 = gram(a@, rows, c);
    let at = a.transpose();
    let mut g = match at.mul(a) {
        Ok(g) => g,
        Err(e) => {
            return Err(e);
        },
    };
    let mut i: u32 = 1;
    while i < k
        invariant
            a.wf(),
            rows == a.rows(),
            c == a.cols(),
            g0 == gram(a@, rows, c),
            gram_fits(a@, rows, c),
            valid_input(rows, c, k as nat),
            1 <= i <= k,
            g.wf(),
            g.rows() == c,
            g.cols() == c,
            g@ == squarings(g0, c, (i - 1) as nat),
            squarings_fit(g0, c, (i - 1) as nat),
        decreases k - i,
    {
        match g.mul(&g) {
            Ok(h) => {
                g = h;
            },
            Err(e) => {
                proof {
                    if squarings_fit(g0, c, (k - 1) as nat) {
                        lemma_squarings_fit_prefix(g0, c, (k - 1) as nat, i as nat);
                    }
                }
                return Err(e);
            },
        }
        i = i + 1;
    }
    Ok(g)
}

/// An estimate of the direction of the dominant right singular vector of `a`:
/// the first column of `(aᵗ a)^(2^(k-1))`, not normalized.
///
/// Errors as `sing_val`.
pub fn estimate(a: &Matrix, k: u32) -> (r: Result<Vec<i64>, EstimateError>)
    requires
        a.wf(),
    ensures
        vector_outcome(r) == estimate_outcome(a@, a.rows(), a.cols(), k as nat),
{
    match sing_val(a, k) {
        Ok(g) => {
            let v = g.column(0);
            Ok(v)
        },
        Err(e) => Err(e),
    }
}

/// Two results that each meet `estimate`'s contract for the same matrix and
/// exponent are equal: the estimate is determined by its inputs.
pub proof fn estimate_is_deterministic(
    a: Seq<Seq<int>>,
    rows: nat,
    cols: nat,
    k: nat,
    r1: Result<Vec<i64>, EstimateError>,
    r2: Result<Vec<i64>, EstimateError>,
)
    requires
        vector_outcome(r1) == estimate_outcome(a, rows, cols, k),
        vector_outcome(r2) == estimate_outcome(a, rows, cols, k),
    ensures
        vector_outcome(r1) == vector_outcome(r2),
        r1 is Ok <==> r2 is Ok,
{
}

/// A matrix with no column, or no row, has no estimate: the outcome is
/// `InvalidShape` whatever its entries and the exponent.
pub proof fn estimate_rejects_empty_shape(a: Seq<Seq<int>>, rows: nat, cols: nat, k: nat)
    requires
        rows == 0 || cols == 0,
    ensures
        estimate_outcome(a, rows, cols, k) == Err::<Seq<int>, EstimateError>(EstimateError::InvalidShape),
{
}

/// Every entry of the `c x c` matrix `g` off the diagonal is zero.
pub open spec fn is_diagonal(g: Seq<Seq<int>>, c: nat) -> bool {
    forall|i: int, j: int| 0 <= i < c && 0 <= j < c && i != j ==> #[trigger] g[i][j] == 0
}

proof fn lemma_diagonal_row_col_sum(h: Seq<Seq<int>>, c: nat, i: int, j: int, n: nat)
    requires
        is_diagonal(h, c),
        n <= c,
        0 <= i < c,
        0 <= j < c,
        i != j,
    ensures
        row_col_sum(h, h, i, j, n) == 0,
    decreases n,
{
    if n > 0 {
        lemma_diagonal_row_col_sum(h, c, i, j, (n - 1) as nat);
        let l = n - 1;
        if l != i {
            assert(h[i][l] == 0);
        } else {
            assert(h[l][j] == 0);
        }
    }
}

proof fn lemma_squarings_diagonal(g: Seq<Seq<int>>, c: nat, n: nat)
    requires
        is_diagonal(g, c),
    ensures
        is_diagonal(squarings(g, c, n), c),
    decreases n,
{
    if n > 0 {
        let h = squarings(g, c, (n - 1) as nat);
        lemma_squarings_diagonal(g, c, (n - 1) as nat);
        assert forall|i: int, j: int| 0 <= i < c && 0 <= j < c && i != j implies #[trigger] mat_mul(
            h,
            h,
            c,
            c,
            c,
        )[i][j] == 0 by {
            lemma_diagonal_row_col_sum(h, c, i, j, c);
        }
    }
}

/// Where the Gram matrix of `a` is diagonal (the columns of `a` are orthogonal),
/// every squaring keeps it diagonal, so the estimate points exactly along the
/// first axis for every exponent: all its entries but the first are zero.
pub proof fn diagonal_gram_estimate_on_first_axis(a: Seq<Seq<int>>, rows: nat, cols: nat, k: nat)
    requires
        valid_input(rows, cols, k),
        power_fits(a, rows, cols, k),
        is_diagonal(gram(a, rows, cols), cols),
    ensures
        estimate_outcome(a, rows, cols, k) matches Ok(v) && v.len() == cols
            && forall|i: int| 1 <= i < cols ==> #[trigger] v[i] == 0,
{
    let g = gram(a, rows, cols);
    lemma_squarings_diagonal(g, cols, (k - 1) as nat);
    lemma_squarings_shape(g, cols, (k - 1) as nat);
    let p = gram_power(a, rows, cols, k);
    assert forall|i: int| 1 <= i < cols implies #[trigger] column(p, 0)[i] == 0 by {
        assert(p[i][0] == 0);
    }
}

proof fn lemma_squarings_shape(g: Seq<Seq<int>>, c: nat, n: nat)
    requires
        g.len() == c,
    ensures
        squarings(g, c, n).len() == c,
    decreases n,
{
    if n > 0 {
        lemma_squarings_shape(g, c, (n - 1) as nat);
    }
}

} // verus!
