//! The random source: draws from rand's thread-local generator.
use vstd::prelude::*;

use rand::Rng;

verus! {

/// Relies on rand's `Rng::gen_range` on `rand::thread_rng()`: a value in
/// `[lo, hi)`. It panics when `lo >= hi`, which `requires` rules out.
#[verifier::external_body]
pub(crate) fn random_range(lo: i64, hi: i64) -> (r: i64)
    requires
        lo < hi,
    ensures
        lo <= r < hi,
{
    rand::thread_rng().gen_range(lo, hi)
}

/// Relies on `rand::seq::sample_iter` with `rand::thread_rng()`: when the
/// input holds at least `amount` items it returns `Ok` with `amount` of them,
/// each input item taken at most once.
#[verifier::external_body]
pub(crate) fn sample_items<T>(items: Vec<T>, amount: usize) -> (r: Vec<T>)
    requires
        amount <= items.len(),
    ensures
        r@.len() == amount,
        forall|i: int| 0 <= i < r@.len() ==> items@.contains(#[trigger] r@[i]),
        items@.no_duplicates() ==> r@.no_duplicates(),
{
    match rand::seq::sample_iter(&mut rand::thread_rng(), items, amount) {
        Ok(v) => v,
        Err(v) => v,
    }
}

} // verus!
