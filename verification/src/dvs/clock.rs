//! Reconstruction of absolute time from a wire field that wraps around.
//!
//! A time-sync word carries the coarse part of the clock in a field of fixed
//! width. When the field wraps, the decoder counts one more rollover and adds
//! one more period to every later time base. A small step backwards is
//! jitter, not a wrap: only a drop of at least `period - threshold` counts.
use vstd::prelude::*;

verus! {

/// The time base that a time-sync word would give if it were no wrap: its own
/// contribution plus the periods already counted.
pub open spec fn candidate_base(rollovers: nat, contribution: nat, period: nat) -> nat {
    contribution + rollovers * period
}

/// True when a time-sync word is read as a wrap of the wire field: its
/// candidate lies behind the current base by at least `period - threshold`.
pub open spec fn wraps(
    current: nat,
    rollovers: nat,
    contribution: nat,
    period: nat,
    threshold: nat,
) -> bool {
    let candidate = candidate_base(rollovers, contribution, period);
    current > candidate && current - candidate >= period - threshold
}

/// The time base after a time-sync word.
pub open spec fn next_base(
    current: nat,
    rollovers: nat,
    contribution: nat,
    period: nat,
    threshold: nat,
) -> nat {
    if wraps(current, rollovers, contribution, period, threshold) {
        candidate_base(rollovers, contribution, period) + period
    } else {
        candidate_base(rollovers, contribution, period)
    }
}

/// The rollover count after a time-sync word.
pub open spec fn next_rollovers(
    current: nat,
    rollovers: nat,
    contribution: nat,
    period: nat,
    threshold: nat,
) -> nat {
    if wraps(current, rollovers, contribution, period, threshold) {
        rollovers + 1
    } else {
        rollovers
    }
}

/// True when the wire value goes from `previous` to `contribution` without
/// a small step backwards: it does not fall, or it falls by at least
/// `period - threshold`, as it does when the field wraps.
pub open spec fn steady_or_wrapping(
    previous: nat,
    contribution: nat,
    period: nat,
    threshold: nat,
) -> bool {
    contribution >= previous || previous - contribution >= period - threshold
}

/// Reconstructed time keeps increasing across a wrap of the wire field.
///
/// Take a clock whose base comes from a word with the contribution
/// `previous`. Where the next word does not fall below `previous`, or falls
/// by at least `period - threshold`, the base after it is no earlier than
/// the base before it; after a fall it is strictly later. The new base again
/// comes from the new word and the wraps counted, so the same holds for the
/// word after it.
pub proof fn lemma_time_keeps_increasing(
    rollovers: nat,
    previous: nat,
    contribution: nat,
    period: nat,
    threshold: nat,
)
    requires
        previous < period,
        contribution < period,
        threshold <= period,
        steady_or_wrapping(previous, contribution, period, threshold),
    ensures
        ({
            let current = candidate_base(rollovers, previous, period);
            let base = next_base(current, rollovers, contribution, period, threshold);
            let count = next_rollovers(current, rollovers, contribution, period, threshold);
            &&& current <= base
            &&& contribution < previous ==> current < base
            &&& base == candidate_base(count, contribution, period)
        }),
{
    assert((rollovers + 1) * period == rollovers * period + period) by (nonlinear_arith);
}

/// The bases that a run of time-sync words gives one after the other,
/// starting from a clock whose base comes from a word with the contribution
/// `previous`.
pub open spec fn replay(
    rollovers: nat,
    previous: nat,
    contributions: Seq<nat>,
    period: nat,
    threshold: nat,
) -> Seq<nat>
    decreases contributions.len(),
{
    if contributions.len() == 0 {
        Seq::empty()
    } else {
        let current = candidate_base(rollovers, previous, period);
        let first = contributions[0];
        seq![next_base(current, rollovers, first, period, threshold)] + replay(
            next_rollovers(current, rollovers, first, period, threshold),
            first,
            contributions.drop_first(),
            period,
            threshold,
        )
    }
}

/// True when each wire value of the run follows the one before it without a
/// small step backwards.
pub open spec fn run_steady_or_wrapping(
    previous: nat,
    contributions: Seq<nat>,
    period: nat,
    threshold: nat,
) -> bool
    decreases contributions.len(),
{
    contributions.len() > 0 ==> {
        &&& contributions[0] < period
        &&& steady_or_wrapping(previous, contributions[0], period, threshold)
        &&& run_steady_or_wrapping(
            contributions[0],
            contributions.drop_first(),
            period,
            threshold,
        )
    }
}

/// Over a whole run of time-sync words whose wire value never takes a small
/// step backwards, reconstructed time never goes back: every base is at
/// least the base before it, and the first is at least the base at the
/// start.
pub proof fn lemma_replay_increasing(
    rollovers: nat,
    previous: nat,
    contributions: Seq<nat>,
    period: nat,
    threshold: nat,
)
    requires
        previous < period,
        threshold <= period,
        run_steady_or_wrapping(previous, contributions, period, threshold),
    ensures
        replay(rollovers, previous, contributions, period, threshold).len() == contributions.len(),
        contributions.len() > 0 ==> candidate_base(rollovers, previous, period) <= replay(
            rollovers,
            previous,
            contributions,
            period,
            threshold,
        )[0],
        forall|i: int, j: int|
            0 <= i <= j < contributions.len() ==> replay(
                rollovers,
                previous,
                contributions,
                period,
                threshold,
            )[i] <= replay(rollovers, previous, contributions, period, threshold)[j],
    decreases contributions.len(),
{
    if contributions.len() > 0 {
        let current = candidate_base(rollovers, previous, period);
        let first = contributions[0];
        let count = next_rollovers(current, rollovers, first, period, threshold);
        let rest = contributions.drop_first();
        lemma_time_keeps_increasing(rollovers, previous, first, period, threshold);
        lemma_replay_increasing(count, first, rest, period, threshold);
        let all = replay(rollovers, previous, contributions, period, threshold);
        let tail = replay(count, first, rest, period, threshold);
        assert(all == seq![next_base(current, rollovers, first, period, threshold)] + tail);
        assert forall|i: int, j: int| 0 <= i <= j < contributions.len() implies all[i] <= all[j] by {
            if i > 0 {
                assert(all[i] == tail[i - 1]);
                assert(all[j] == tail[j - 1]);
            } else if j > 0 {
                assert(all[j] == tail[j - 1]);
                assert(tail[0] <= tail[j - 1]);
            }
        }
    }
}

} // verus!
