use vstd::prelude::*;
use crate::error::EstimateError;
use crate::matrix::ints;

verus! {

/// The sum of the squares of the entries of `v`.
pub open spec fn sum_sq(v: Seq<int>) -> int
    decreases v.len(),
{
    if v.len() == 0 {
        0
    } else {
        sum_sq(v.drop_last()) + v.last() * v.last()
    }
}

/// Every entry of `v` is zero, so `v` has no direction.
pub open spec fn is_zero_vector(v: Seq<int>) -> bool {
    forall|i: int| 0 <= i < v.len() ==> v[i] == 0
}

proof fn lemma_sum_sq_monotone(v: Seq<int>, m: int, n: int)
    requires
        0 <= m <= n <= v.len(),
    ensures
        0 <= sum_sq(v.take(m)) <= sum_sq(v.take(n)),
    decreases n,
{
    if n > 0 {
        assert(v.take(n).drop_last() =~= v.take(n - 1));
        assert(v[n - 1] * v[n - 1] >= 0) by (nonlinear_arith);
        if m < n {
            lemma_sum_sq_monotone(v, m, n - 1);
        } else {
            lemma_sum_sq_monotone(v, n - 1, n - 1);
        }
    } else {
        assert(v.take(0) =~= Seq::<int>::empty());
    }
}

/// Checks that `v` has a direction, so that it can be normalized: fails with
/// `DegenerateVector` exactly when every entry is zero (the empty vector
/// included). The norm of a vector of `i64` is always finite, so no other
/// failure arises.
pub fn check_direction(v: &Vec<i64>) -> (r: Result<(), EstimateError>)
    ensures
        r is Err <==> is_zero_vector(ints(v@)),
        r is Err ==> r == Err::<(), EstimateError>(EstimateError::DegenerateVector),
{
    let ghost w = ints(v@);
    let mut i: usize = 0;
    while i < v.len()
        invariant
            w == ints(v@),
            0 <= i <= v@.len(),
            forall|t: int| 0 <= t < i ==> w[t] == 0,
        decreases v@.len() - i,
    {
        if v[i] != 0 {
            assert(w[i as int] != 0);
            return Ok(());
        }
        i = i + 1;
    }
    Err(EstimateError::DegenerateVector)
}

/// The squared Euclidean norm of `v`, computed exactly.
///
/// Fails with `DegenerateVector` when every entry is zero, and otherwise with
/// `Overflow` exactly when the sum exceeds `u128::MAX`, which needs at least
/// four entries of large magnitude. Normalization itself asks only
/// `check_direction`.
pub fn squared_norm(v: &Vec<i64>) -> (r: Result<u128, EstimateError>)
    ensures
        r == Err::<u128, EstimateError>(EstimateError::DegenerateVector) <==> is_zero_vector(ints(v@)),
        r == Err::<u128, EstimateError>(EstimateError::Overflow) <==> !is_zero_vector(ints(v@))
            && sum_sq(ints(v@)) > u128::MAX,
        r is Ok <==> !is_zero_vector(ints(v@)) && sum_sq(ints(v@)) <= u128::MAX,
        r matches Ok(s) ==> s == sum_sq(ints(v@)),
{
    let ghost w = ints(v@);
    let mut nonzero = false;
    let mut i: usize = 0;
    while i < v.len()
        invariant
            w == ints(v@),
            0 <= i <= v@.len(),
            !nonzero ==> forall|t: int| 0 <= t < i ==> w[t] == 0,
            nonzero ==> !is_zero_vector(w),
        decreases v@.len() - i,
    {
        if v[i] != 0 {
            assert(w[i as int] != 0);
            nonzero = true;
        }
        i = i + 1;
    }
    if !nonzero {
        return Err(EstimateError::DegenerateVector);
    }
    let mut acc: u128 = 0;
    let mut i: usize = 0;
    while i < v.len()
        invariant
            w == ints(v@),
            !is_zero_vector(w),
            0 <= i <= v@.len(),
            acc == sum_sq(w.take(i as int)),
        decreases v@.len() - i,
    {
        let y: i128 = v[i] as i128;
        assert(0 <= y * y <= 0x4000_0000_0000_0000_0000_0000_0000_0000) by (nonlinear_arith)
            requires
                -0x8000_0000_0000_0000 <= y <= 0x7fff_ffff_ffff_ffff,
        ;
        let sq: u128 = (y * y) as u128;
        assert(w.take(i + 1).drop_last() =~= w.take(i as int));
        assert(sum_sq(w.take(i + 1)) == acc + sq);
        match acc.checked_add(sq) {
            Some(s) => {
                acc = s;
            },
            None => {
                proof {
                    lemma_sum_sq_monotone(w, i + 1, w.len() as int);
                    assert(w.take(w.len() as int) =~= w);
                }
                return Err(EstimateError::Overflow);
            },
        }
        i = i + 1;
    }
    assert(w.take(w.len() as int) =~= w);
    Ok(acc)
}

} // verus!
