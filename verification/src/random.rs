//! The three random draws that the library makes, each from the thread's
//! generator of the `rand` crate, which the operating system seeds when a
//! thread first draws. Nothing is known of a draw but its range, and two
//! draws from one range may differ.
use vstd::prelude::*;
use rand::Rng;

verus! {

/// `Rng::gen_range` of `rand`, on the inclusive range from `lo` to `hi`, with
/// the thread's generator. The crate's integer sampler returns `lo` plus an
/// offset below the width of the range, so the draw lies in the range; it
/// panics on an empty range, which `requires` leaves out.
#[verifier::external_body]
pub(crate) fn random_between(lo: i64, hi: i64) -> (r: i64)
    requires
        lo <= hi,
    ensures
        lo <= r <= hi,
{
    rand::thread_rng().gen_range(lo..=hi)
}

/// `Rng::gen_range` of `rand`, on the half-open range from zero to `n`, with
/// the thread's generator: an index below `n`. It panics on an empty range,
/// which `requires` leaves out.
#[verifier::external_body]
pub(crate) fn random_index(n: usize) -> (r: usize)
    requires
        n > 0,
    ensures
        r < n,
{
    rand::thread_rng().gen_range(0..n)
}

/// `Rng::sample_iter` of `rand` with `Uniform::new(0, len)`, cut after
/// `count` draws: `count` indices below `len`, drawn independently, so one
/// index may come more than once. `Uniform::new` panics where `len` is zero,
/// which `requires` leaves out; the iterator never ends by itself.
#[verifier::external_body]
pub(crate) fn sample_indices(len: usize, count: usize) -> (r: Vec<usize>)
    requires
        len > 0,
    ensures
        r@.len() == count,
        forall|i: int| 0 <= i < r@.len() ==> r@[i] < len,
{
    rand::thread_rng().sample_iter(rand::distributions::Uniform::new(0, len)).take(count).collect()
}

} // verus!
