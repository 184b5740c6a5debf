//! The discrete Fourier transform takes a signal of N samples to N complex
//! coefficients, one for each frequency bin, and its inverse takes N
//! coefficients to the N values of the signal. Neither is defined for a
//! signal without samples.
//!
//! This module holds the shape of both: one value for each bin, in the
//! order of the bins, and an error where there is none to compute; and the
//! value of a bin as a sum that takes up one term after the other, from the
//! first sample to the last. The terms and their addition are
//! floating-point arithmetic, which the caller supplies.

use vstd::prelude::*;

verus! {

/// Why a signal cannot be transformed.
#[derive(Clone, Copy, Debug, PartialEq, Eq, Structural)]
pub enum TransformError {
    /// The signal has no samples.
    InvalidLength,
}

impl TransformError {
    /// The error in words.
    pub fn message(&self) -> (text: String)
        ensures
            text@ == "a transform needs at least one sample"@,
    {
        match self {
            TransformError::InvalidLength => "a transform needs at least one sample".to_owned(),
        }
    }
}

/// The number of bins in the transform of `n_samples` samples: as many as
/// there are samples, and an error where there are none.
pub fn bin_count(n_samples: usize) -> (r: Result<usize, TransformError>)
    ensures
        n_samples == 0 ==> r == Err::<usize, TransformError>(TransformError::InvalidLength),
        n_samples > 0 ==> r == Ok::<usize, TransformError>(n_samples),
{
    if n_samples == 0 {
        Err(TransformError::InvalidLength)
    } else {
        Ok(n_samples)
    }
}

/// Transforms a signal of `n_samples` samples, given what computes the value
/// of one bin from the bin's index. A signal without samples is refused.
/// Any other gives as many values as it has samples, and the value at each
/// index is one that `bin` returns for that index.
pub fn transform_with<T, F: Fn(usize) -> T>(n_samples: usize, bin: F) -> (r: Result<
    Vec<T>,
    TransformError,
>)
    requires
        forall|k: usize| k < n_samples ==> call_requires(bin, (k,)),
    ensures
        n_samples == 0 ==> r == Err::<Vec<T>, TransformError>(TransformError::InvalidLength),
        n_samples > 0 ==> r is Ok,
        r matches Ok(values) ==> {
            &&& values@.len() == n_samples
            &&& forall|k: int|
                0 <= k < n_samples ==> call_ensures(bin, (k as usize,), #[trigger] values@[k])
        },
{
    let n_bins = match bin_count(n_samples) {
        Ok(n_bins) => n_bins,
        Err(error) => return Err(error),
    };
    let mut values: Vec<T> = Vec::new();
    let mut k: usize = 0;
    while k < n_bins
        invariant
            n_bins == n_samples,
            k <= n_bins,
            values@.len() == k,
            forall|j: usize| j < n_samples ==> call_requires(bin, (j,)),
            forall|j: int| 0 <= j < k ==> call_ensures(bin, (j as usize,), #[trigger] values@[j]),
        decreases n_bins - k,
    {
        let value = bin(k);
        values.push(value);
        k += 1;
    }
    Ok(values)
}

/// Whether each value of `partial` after the first is one that `add_term`
/// returns for the value before it and that value's index: the sums that
/// arise as the terms are taken up one after the other, from index zero on.
pub open spec fn running_sums<T, F: Fn(T, usize) -> T>(add_term: F, partial: Seq<T>) -> bool {
    forall|n: int|
        0 < n < partial.len() ==> call_ensures(
            add_term,
            (partial[n - 1], (n - 1) as usize),
            #[trigger] partial[n],
        )
}

/// Sums `n_terms` terms from `zero` on, given what adds the term of an
/// index to the sum so far. The terms are taken up in the order of their
/// indices, each added to the sum of those before it.
pub fn accumulate<T, F: Fn(T, usize) -> T>(n_terms: usize, zero: T, add_term: F) -> (sum: T)
    requires
        forall|so_far: T, n: usize| n < n_terms ==> call_requires(add_term, (so_far, n)),
    ensures
        exists|partial: Seq<T>|
            {
                &&& #[trigger] running_sums(add_term, partial)
                &&& partial.len() == n_terms + 1
                &&& partial[0] == zero
                &&& partial[n_terms as int] == sum
            },
{
    let ghost mut partial: Seq<T> = seq![zero];
    let mut sum = zero;
    let mut n: usize = 0;
    while n < n_terms
        invariant
            n <= n_terms,
            forall|so_far: T, j: usize| j < n_terms ==> call_requires(add_term, (so_far, j)),
            running_sums(add_term, partial),
            partial.len() == n + 1,
            partial[0] == zero,
            partial[n as int] == sum,
        decreases n_terms - n,
    {
        let ghost before = partial;
        sum = add_term(sum, n);
        proof {
            partial = before.push(sum);
            assert forall|j: int| 0 < j < partial.len() implies call_ensures(
                add_term,
                (partial[j - 1], (j - 1) as usize),
                #[trigger] partial[j],
            ) by {
                if j <= n {
                    assert(partial[j - 1] == before[j - 1]);
                    assert(partial[j] == before[j]);
                }
            }
        }
        n += 1;
    }
    sum
}

} // verus!
