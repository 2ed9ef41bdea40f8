//! Random choice of positions, for the sweep.

use vstd::prelude::*;

verus! {

/// Relies on `rand::seq::index::sample` with `rand::thread_rng`: exactly
/// `amount` distinct indices, each below `length`, in random order.
/// `sample` panics only where `amount > length`, which `requires` leaves
/// out; `thread_rng` panics only where the system cannot seed it, whatever
/// the arguments.
#[verifier::external_body]
pub(crate) fn sample_indices(length: usize, amount: usize) -> (r: Vec<usize>)
    requires
        amount <= length,
    ensures
        r@.len() == amount,
        r@.no_duplicates(),
        forall|i: int| 0 <= i < r@.len() ==> r@[i] < length,
{
    rand::seq::index::sample(&mut rand::thread_rng(), length, amount).into_vec()
}

} // verus!
