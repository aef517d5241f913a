//! The Monte Carlo estimator: repeated independent trials of five random disk
//! points, counting those whose points lie within a common semicircle.

use vstd::prelude::*;
use crate::geometry::is_in_same_semicircle;
use crate::sampling::sample_trial;

verus! {

/// Runs `trials` independent trials and returns how many of them had all five
/// points within a common semicircle. The count never exceeds the number of
/// trials, so the empirical probability successes / trials lies in [0, 1].
pub fn monte_carlo_simulation(trials: usize, rng: &mut rand::rngs::ThreadRng) -> (successes: usize)
    requires
        trials >= 1,
    ensures
        successes <= trials,
{
    let mut successes: usize = 0;
    let mut done: usize = 0;
    while done < trials
        invariant
            successes <= done,
            done <= trials,
        decreases trials - done,
    {
        let t = sample_trial(rng);
        if is_in_same_semicircle(&t.points) {
            successes += 1;
        }
        done += 1;
    }
    successes
}

} // verus!
