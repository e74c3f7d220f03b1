//! The arithmetic of the benchmark data generator: how many events of each
//! category it writes, and when it reports its progress.
use vstd::prelude::*;

verus! {

/// The number of events of a category with the given proportion out of
/// `divisor` (the sum of all proportions), rounded down.
pub fn category_events(num_events: usize, proportion: usize, divisor: usize) -> (n: usize)
    requires
        divisor > 0,
        num_events * proportion <= usize::MAX,
    ensures
        n == (num_events * proportion) / (divisor as int),
{
    num_events * proportion / divisor
}

/// The percentage to report at event `i` (from zero) of `n`: every
/// hundredth of `n` events (rounded down) reports the hundredths done so far
/// plus one.
pub fn progress_percent(i: usize, n: usize) -> (r: Option<usize>)
    requires
        n >= 100,
        i < n,
    ensures
        r == if i % (n / 100) == 0 {
            Some((i / (n / 100) + 1) as usize)
        } else {
            None::<usize>
        },
{
    let p = n / 100;
    if i % p == 0 {
        assert(i / p <= i) by {
            vstd::arithmetic::div_mod::lemma_div_is_ordered_by_denominator(i as int, 1, p as int);
        }
        Some(i / p + 1)
    } else {
        None
    }
}

} // verus!
