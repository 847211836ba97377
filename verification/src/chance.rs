//! Random choices, drawn from the thread-local generator of `rand`.

use vstd::prelude::*;
use rand::seq::SliceRandom;
use rand::Rng;

verus! {

/// The smaller of two lengths.
pub open spec fn min_len(a: int, b: int) -> int {
    if a < b { a } else { b }
}

/// Whether `idx` lists distinct positions of a sequence of length `len`.
pub open spec fn distinct_positions(idx: Seq<int>, len: int) -> bool {
    &&& forall|k: int| 0 <= k < idx.len() ==> 0 <= #[trigger] idx[k] < len
    &&& forall|j: int, k: int| 0 <= j < k < idx.len() ==> idx[j] != idx[k]
}

/// Calls `Rng::gen_range` on `rand::thread_rng()` with the range `low..high`:
/// a number drawn from that range (the call panics on an empty range).
#[verifier::external_body]
pub fn gen_range(low: usize, high: usize) -> (r: usize)
    requires
        low < high,
    ensures
        low <= r < high,
{
    rand::thread_rng().gen_range(low..high)
}

/// Calls `SliceRandom::choose` with `rand::thread_rng()`: nothing for an empty
/// slice, otherwise one of its items.
#[verifier::external_body]
pub fn choose_one<'a, T>(items: &'a Vec<T>) -> (r: Option<&'a T>)
    ensures
        r is None <==> items@.len() == 0,
        r matches Some(x) ==> exists|i: int| 0 <= i < items@.len() && *x == items@[i],
{
    items.as_slice().choose(&mut rand::thread_rng())
}

/// Calls `SliceRandom::choose_multiple` with `rand::thread_rng()` and collects the
/// iterator: as many items as `amount` asks and the slice has, drawn from distinct
/// positions, in random order.
#[verifier::external_body]
pub fn choose_multiple<'a, T>(items: &'a Vec<T>, amount: usize) -> (r: Vec<&'a T>)
    ensures
        r@.len() == min_len(amount as int, items@.len() as int),
        exists|idx: Seq<int>|
            idx.len() == r@.len() && distinct_positions(idx, items@.len() as int) && forall|k: int|
                0 <= k < r@.len() ==> *r@[k] == items@[#[trigger] idx[k]],
{
    items.as_slice().choose_multiple(&mut rand::thread_rng(), amount).collect()
}

} // verus!
