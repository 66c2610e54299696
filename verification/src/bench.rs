//! The statistics a signing benchmark reports: minimum and median rather
//! than a mean, because a chip's interrupts add time, they never remove it,
//! so the middle and the floor say more than the average.

use vstd::prelude::*;

verus! {

/// Ascending order.
pub open spec fn is_sorted(s: Seq<u64>) -> bool {
    forall|i: int, j: int| 0 <= i <= j < s.len() ==> s[i] <= s[j]
}

/// `<[u64]>::sort_unstable`: the same values, in ascending order.
#[verifier::external_body]
fn sort_unstable(samples: &mut [u64])
    ensures
        final(samples)@.to_multiset() == old(samples)@.to_multiset(),
        final(samples)@.len() == old(samples)@.len(),
        is_sorted(final(samples)@),
{
    samples.sort_unstable();
}

/// Minimum and median of a sample, sorting it in place: the first and the
/// middle (upper middle for an even count) of the sorted sample.
pub fn min_and_median(samples: &mut [u64]) -> (r: (u64, u64))
    requires
        old(samples)@.len() > 0,
    ensures
        final(samples)@.to_multiset() == old(samples)@.to_multiset(),
        final(samples)@.len() == old(samples)@.len(),
        is_sorted(final(samples)@),
        r.0 == final(samples)@[0],
        r.1 == final(samples)@[(final(samples)@.len() / 2) as int],
        forall|i: int| 0 <= i < final(samples)@.len() ==> r.0 <= #[trigger] final(samples)@[i],
{
    sort_unstable(samples);
    (samples[0], samples[samples.len() / 2])
}

} // verus!
