use vstd::prelude::*;

verus! {

/// Whether the signal changes sign between samples `i - 1` and `i`, zero
/// counting as positive.
pub open spec fn crosses_at(s: Seq<i16>, i: int) -> bool {
    (s[i - 1] >= 0 && s[i] < 0) || (s[i - 1] < 0 && s[i] >= 0)
}

/// Number of sign changes among the first `n` samples.
pub open spec fn crossings(s: Seq<i16>, n: int) -> nat
    decreases n,
{
    if n <= 1 {
        0
    } else {
        crossings(s, n - 1) + if crosses_at(s, n - 1) { 1nat } else { 0nat }
    }
}

/// Counts the sign changes of a signal.
pub fn count_zero_crossings(samples: &[i16]) -> (r: usize)
    ensures
        r == crossings(samples@, samples@.len() as int),
{
    if samples.len() == 0 {
        return 0;
    }
    let mut count: usize = 0;
    let mut i: usize = 1;
    while i < samples.len()
        invariant
            1 <= i <= samples@.len(),
            count == crossings(samples@, i as int),
            count < i,
        decreases samples@.len() - i,
    {
        if (samples[i - 1] >= 0 && samples[i] < 0) || (samples[i - 1] < 0 && samples[i] >= 0) {
            count = count + 1;
        }
        i = i + 1;
    }
    count
}

} // verus!
