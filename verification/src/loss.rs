//! Bandwidth shaping: what a stream looks like behind a channel that lets
//! only so many events pass per stretch of time.
//!
//! The timeline is cut into chunks of a fixed duration. The first chunk
//! starts at the time of the first event. A pixel event that lies at or
//! behind the end of the chunk in force opens a new chunk, which starts at
//! the multiple of the duration at or below the event's time. Each chunk
//! lets `capacity` pixel events pass. Which ones is a matter of policy: the
//! first ones, or ones spread evenly over the chunk. Time-sync markers
//! always pass and count for nothing.
use crate::dvs::DVSRawEvent;
use vstd::prelude::*;

verus! {

/// Number of bits that one event takes on the channel.
pub const BITS_PER_EVENT: u64 = 32;

/// How a full chunk loses its events.
#[derive(Debug, Clone, Copy, PartialEq, Eq, Structural)]
pub enum LossPolicy {
    /// The events behind the first `capacity` ones of a chunk are lost.
    TailDrop,
    /// As many events are lost as under `TailDrop`, spread evenly over the
    /// chunk.
    UniformThin,
}

/// Number of events that pass per chunk: the bits that the channel carries
/// in one chunk, by the bits of one event, rounded down. The bandwidth is in
/// bits per second, the duration in microseconds.
pub open spec fn chunk_capacity(target_bandwidth: nat, chunk_duration: nat) -> nat {
    (target_bandwidth * chunk_duration) / (BITS_PER_EVENT * 1_000_000) as nat
}

/// The multiple of `duration` at or below `time`.
pub open spec fn aligned(time: nat, duration: nat) -> nat {
    (time - time % duration) as nat
}

/// Start of the chunk that is in force behind the first `n` events.
pub open spec fn window_start(events: Seq<DVSRawEvent>, n: nat, duration: nat) -> nat
    decreases n,
{
    if n == 0 {
        if events.len() > 0 {
            events[0].spec_timestamp()
        } else {
            0
        }
    } else {
        let before = window_start(events, (n - 1) as nat, duration);
        let event = events[n - 1];
        if event.is_marker() || event.spec_timestamp() < before + duration {
            before
        } else {
            aligned(event.spec_timestamp(), duration)
        }
    }
}

/// True when the event at index `i` is a pixel event that opens a new chunk.
pub open spec fn opens_chunk(events: Seq<DVSRawEvent>, i: int, duration: nat) -> bool {
    !events[i].is_marker() && events[i].spec_timestamp() >= window_start(
        events,
        i as nat,
        duration,
    ) + duration
}

/// Number of pixel events among the first `n` events that lie in the chunk
/// in force behind them.
pub open spec fn filled(events: Seq<DVSRawEvent>, n: nat, duration: nat) -> nat
    decreases n,
{
    if n == 0 {
        0
    } else if events[n - 1].is_marker() {
        filled(events, (n - 1) as nat, duration)
    } else if opens_chunk(events, n - 1, duration) {
        1
    } else {
        filled(events, (n - 1) as nat, duration) + 1
    }
}

/// Number of pixel events of its own chunk that come before the pixel event
/// at index `i`.
pub open spec fn rank(events: Seq<DVSRawEvent>, i: int, duration: nat) -> nat {
    if opens_chunk(events, i, duration) {
        0
    } else {
        filled(events, i as nat, duration)
    }
}

/// Number of pixel events from index `n` on that lie in the chunk in force
/// at index `n`: those before the next event that opens a chunk.
pub open spec fn follow(events: Seq<DVSRawEvent>, n: nat, duration: nat) -> nat
    decreases events.len() - n,
{
    if n >= events.len() {
        0
    } else if events[n as int].is_marker() {
        follow(events, n + 1, duration)
    } else if opens_chunk(events, n as int, duration) {
        0
    } else {
        1 + follow(events, n + 1, duration)
    }
}

/// Number of pixel events in the chunk of the pixel event at index `i`.
pub open spec fn chunk_size(events: Seq<DVSRawEvent>, i: int, duration: nat) -> nat {
    rank(events, i, duration) + 1 + follow(events, (i + 1) as nat, duration)
}

/// Number of pixel events that a chunk of `size` events must lose.
pub open spec fn excess(size: nat, capacity: nat) -> nat {
    if size > capacity {
        (size - capacity) as nat
    } else {
        0
    }
}

/// Number of events that even thinning removes among the first `k` pixel
/// events of a chunk of `size` events that must lose `lose` of them.
///
/// The `k`-th event is removed when the share of events removed before it,
/// counted against `k`, is below the share `lose / size` that is to go.
pub open spec fn removed(k: nat, size: nat, lose: nat) -> nat
    decreases k,
{
    if k == 0 {
        0
    } else {
        let before = removed((k - 1) as nat, size, lose);
        if before * size < lose * k {
            before + 1
        } else {
            before
        }
    }
}

/// True when even thinning removes the `k`-th pixel event of a chunk, `k`
/// counted from 1.
pub open spec fn thinned_out(k: nat, size: nat, lose: nat) -> bool {
    removed((k - 1) as nat, size, lose) * size < lose * k
}

/// True when the event at index `i` passes.
pub open spec fn keeps(
    policy: LossPolicy,
    events: Seq<DVSRawEvent>,
    i: int,
    duration: nat,
    capacity: nat,
) -> bool {
    events[i].is_marker() || match policy {
        LossPolicy::TailDrop => rank(events, i, duration) < capacity,
        LossPolicy::UniformThin => !thinned_out(
            rank(events, i, duration) + 1,
            chunk_size(events, i, duration),
            excess(chunk_size(events, i, duration), capacity),
        ),
    }
}

/// The events among the first `n` that pass, in their order.
pub open spec fn shaped_prefix(
    policy: LossPolicy,
    events: Seq<DVSRawEvent>,
    n: nat,
    duration: nat,
    capacity: nat,
) -> Seq<DVSRawEvent>
    decreases n,
{
    if n == 0 {
        Seq::empty()
    } else {
        let before = shaped_prefix(policy, events, (n - 1) as nat, duration, capacity);
        if keeps(policy, events, n - 1, duration, capacity) {
            before.push(events[n - 1])
        } else {
            before
        }
    }
}

/// The stream behind the channel: the events that pass, in their order.
pub open spec fn shaped(
    policy: LossPolicy,
    events: Seq<DVSRawEvent>,
    duration: nat,
    capacity: nat,
) -> Seq<DVSRawEvent> {
    shaped_prefix(policy, events, events.len(), duration, capacity)
}

/// Even thinning never removes more events than it has looked at.
pub proof fn lemma_removed_bound(k: nat, size: nat, lose: nat)
    ensures
        removed(k, size, lose) <= k,
    decreases k,
{
    if k > 0 {
        lemma_removed_bound((k - 1) as nat, size, lose);
    }
}

/// The time of the first event of a stream, at which its first chunk
/// starts.
fn first_time(events: &Vec<DVSRawEvent>) -> (zero: u64)
    requires
        events@.len() > 0,
    ensures
        zero == events@[0].spec_timestamp(),
{
    events[0].timestamp()
}

/// Moves the chunk in force to the one that holds a pixel event at `time`.
/// Returns the start of the chunk in force behind the event, and whether
/// the event has opened it.
fn enter_chunk(zero: u64, time: u64, duration: u64) -> (r: (u64, bool))
    requires
        duration > 0,
    ensures
        r.1 == (time >= zero + duration),
        r.0 == if r.1 {
            aligned(time as nat, duration as nat)
        } else {
            zero as nat
        },
{
    if (time as u128) < zero as u128 + duration as u128 {
        (zero, false)
    } else {
        (time - time % duration, true)
    }
}

/// The events that pass under `TailDrop`, for a capacity of any size.
fn tail_drop_wide(events: &Vec<DVSRawEvent>, chunk_duration: u64, capacity: u128) -> (out: Vec<
    DVSRawEvent,
>)
    requires
        chunk_duration > 0,
    ensures
        out@ == shaped(LossPolicy::TailDrop, events@, chunk_duration as nat, capacity as nat),
{
    let mut out: Vec<DVSRawEvent> = Vec::new();
    if events.len() == 0 {
        return out;
    }
    let ghost duration = chunk_duration as nat;
    let mut zero: u64 = first_time(events);
    let mut seen: usize = 0;
    let mut i: usize = 0;
    while i < events.len()
        invariant
            i <= events.len(),
            chunk_duration > 0,
            duration == chunk_duration as nat,
            zero == window_start(events@, i as nat, duration),
            seen == filled(events@, i as nat, duration),
            seen <= i,
            out@ == shaped_prefix(
                LossPolicy::TailDrop,
                events@,
                i as nat,
                duration,
                capacity as nat,
            ),
        decreases events.len() - i,
    {
        let event = events[i];
        match event {
            DVSRawEvent::TimeHigh { .. } => {
                out.push(event);
            },
            DVSRawEvent::CD(ev) => {
                let (start, opened) = enter_chunk(zero, ev.timestamp, chunk_duration);
                zero = start;
                if opened {
                    seen = 0;
                }
                assert(seen == rank(events@, i as int, duration));
                if (seen as u128) < capacity {
                    out.push(event);
                }
                seen = seen + 1;
            },
        }
        i = i + 1;
    }
    out
}

/// Number of pixel events from index `from` on that lie in the chunk in
/// force, which starts at `zero`.
fn count_following(events: &Vec<DVSRawEvent>, from: usize, zero: u64, chunk_duration: u64) -> (n:
    usize)
    requires
        from <= events@.len(),
        chunk_duration > 0,
        zero == window_start(events@, from as nat, chunk_duration as nat),
    ensures
        n == follow(events@, from as nat, chunk_duration as nat),
        n <= events@.len() - from,
{
    let ghost duration = chunk_duration as nat;
    let mut n: usize = 0;
    let mut j: usize = from;
    while j < events.len()
        invariant
            from <= j <= events.len(),
            chunk_duration > 0,
            duration == chunk_duration as nat,
            zero == window_start(events@, j as nat, duration),
            n <= j - from,
            n + follow(events@, j as nat, duration) == follow(events@, from as nat, duration),
        decreases events.len() - j,
    {
        match events[j] {
            DVSRawEvent::TimeHigh { .. } => {},
            DVSRawEvent::CD(ev) => {
                let (_, opened) = enter_chunk(zero, ev.timestamp, chunk_duration);
                if opened {
                    return n;
                }
                n = n + 1;
            },
        }
        j = j + 1;
    }
    n
}

/// The events that pass under `UniformThin`, for a capacity of any size.
fn uniform_thin_wide(events: &Vec<DVSRawEvent>, chunk_duration: u64, capacity: u128) -> (out: Vec<
    DVSRawEvent,
>)
    requires
        chunk_duration > 0,
    ensures
        out@ == shaped(LossPolicy::UniformThin, events@, chunk_duration as nat, capacity as nat),
{
    let mut out: Vec<DVSRawEvent> = Vec::new();
    if events.len() == 0 {
        return out;
    }
    let ghost duration = chunk_duration as nat;
    let mut zero: u64 = first_time(events);
    let mut seen: usize = 0;
    let mut num_removed: usize = 0;
    let mut num_in_chunk: usize = 0;
    let mut num_to_remove: usize = 0;
    let mut i: usize = 0;
    while i < events.len()
        invariant
            i <= events.len(),
            chunk_duration > 0,
            duration == chunk_duration as nat,
            zero == window_start(events@, i as nat, duration),
            seen == filled(events@, i as nat, duration),
            seen <= i,
            seen > 0 ==> {
                &&& num_in_chunk == seen + follow(events@, i as nat, duration)
                &&& num_to_remove == excess(num_in_chunk as nat, capacity as nat)
                &&& num_removed == removed(seen as nat, num_in_chunk as nat, num_to_remove as nat)
            },
            out@ == shaped_prefix(
                LossPolicy::UniformThin,
                events@,
                i as nat,
                duration,
                capacity as nat,
            ),
        decreases events.len() - i,
    {
        let event = events[i];
        match event {
            DVSRawEvent::TimeHigh { .. } => {
                out.push(event);
            },
            DVSRawEvent::CD(ev) => {
                let (start, opened) = enter_chunk(zero, ev.timestamp, chunk_duration);
                zero = start;
                if opened {
                    seen = 0;
                }
                assert(seen == rank(events@, i as int, duration));
                if seen == 0 {
                    num_in_chunk = 1 + count_following(events, i + 1, zero, chunk_duration);
                    num_to_remove = if num_in_chunk as u128 > capacity {
                        (num_in_chunk as u128 - capacity) as usize
                    } else {
                        0
                    };
                    num_removed = 0;
                }
                assert(num_in_chunk == chunk_size(events@, i as int, duration));
                proof {
                    lemma_removed_bound(seen as nat, num_in_chunk as nat, num_to_remove as nat);
                }
                seen = seen + 1;
                assert(num_removed * num_in_chunk <= 0xFFFF_FFFF_FFFF_FFFF * 0xFFFF_FFFF_FFFF_FFFF)
                    by (nonlinear_arith)
                    requires
                        num_removed <= 0xFFFF_FFFF_FFFF_FFFF,
                        num_in_chunk <= 0xFFFF_FFFF_FFFF_FFFF,
                ;
                assert(num_to_remove * seen <= 0xFFFF_FFFF_FFFF_FFFF * 0xFFFF_FFFF_FFFF_FFFF)
                    by (nonlinear_arith)
                    requires
                        num_to_remove <= 0xFFFF_FFFF_FFFF_FFFF,
                        seen <= 0xFFFF_FFFF_FFFF_FFFF,
                ;
                if (num_removed as u128) * (num_in_chunk as u128) < (num_to_remove as u128) * (
                seen as u128) {
                    num_removed = num_removed + 1;
                } else {
                    out.push(event);
                }
            },
        }
        i = i + 1;
    }
    out
}

/// The stream behind a channel that drops the tail of each chunk: of the
/// pixel events of a chunk only the first `capacity` pass.
pub fn tail_drop(events: &Vec<DVSRawEvent>, chunk_duration: u64, capacity: u64) -> (out: Vec<
    DVSRawEvent,
>)
    requires
        chunk_duration > 0,
    ensures
        out@ == shaped(LossPolicy::TailDrop, events@, chunk_duration as nat, capacity as nat),
{
    tail_drop_wide(events, chunk_duration, capacity as u128)
}

/// The stream behind a channel that thins each chunk evenly: a chunk with
/// more than `capacity` pixel events loses the events above `capacity`,
/// picked at even distances.
pub fn uniform_thin(events: &Vec<DVSRawEvent>, chunk_duration: u64, capacity: u64) -> (out: Vec<
    DVSRawEvent,
>)
    requires
        chunk_duration > 0,
    ensures
        out@ == shaped(LossPolicy::UniformThin, events@, chunk_duration as nat, capacity as nat),
{
    uniform_thin_wide(events, chunk_duration, capacity as u128)
}

/// The stream behind a channel of `target_bandwidth` bits per second, with
/// chunks of `chunk_duration` microseconds.
pub fn apply_loss(
    events: &Vec<DVSRawEvent>,
    chunk_duration: u64,
    target_bandwidth: u64,
    policy: LossPolicy,
) -> (out: Vec<DVSRawEvent>)
    requires
        chunk_duration > 0,
    ensures
        out@ == shaped(
            policy,
            events@,
            chunk_duration as nat,
            chunk_capacity(target_bandwidth as nat, chunk_duration as nat),
        ),
{
    assert(target_bandwidth * chunk_duration <= 0xFFFF_FFFF_FFFF_FFFF * 0xFFFF_FFFF_FFFF_FFFF)
        by (nonlinear_arith)
        requires
            target_bandwidth <= 0xFFFF_FFFF_FFFF_FFFF,
            chunk_duration <= 0xFFFF_FFFF_FFFF_FFFF,
    ;
    let bits: u128 = (target_bandwidth as u128) * (chunk_duration as u128);
    let capacity: u128 = bits / (BITS_PER_EVENT as u128 * 1_000_000);
    match policy {
        LossPolicy::TailDrop => tail_drop_wide(events, chunk_duration, capacity),
        LossPolicy::UniformThin => uniform_thin_wide(events, chunk_duration, capacity),
    }
}

/// The markers among the first `n` events, in their order.
pub open spec fn markers(events: Seq<DVSRawEvent>, n: nat) -> Seq<DVSRawEvent>
    decreases n,
{
    if n == 0 {
        Seq::empty()
    } else if events[n - 1].is_marker() {
        markers(events, (n - 1) as nat).push(events[n - 1])
    } else {
        markers(events, (n - 1) as nat)
    }
}

/// Number of pixel events among the first `n` events that lie in the chunk
/// in force behind them and pass.
pub open spec fn passed(
    policy: LossPolicy,
    events: Seq<DVSRawEvent>,
    n: nat,
    duration: nat,
    capacity: nat,
) -> nat
    decreases n,
{
    if n == 0 {
        0
    } else {
        let one: nat = if keeps(policy, events, n - 1, duration, capacity) {
            1
        } else {
            0
        };
        if events[n - 1].is_marker() {
            passed(policy, events, (n - 1) as nat, duration, capacity)
        } else if opens_chunk(events, n - 1, duration) {
            one
        } else {
            passed(policy, events, (n - 1) as nat, duration, capacity) + one
        }
    }
}

/// All time-sync markers survive, whatever the policy and the capacity: the
/// markers of the shaped stream are the markers of the stream, in the same
/// order.
pub proof fn lemma_markers_survive(
    policy: LossPolicy,
    events: Seq<DVSRawEvent>,
    n: nat,
    duration: nat,
    capacity: nat,
)
    requires
        n <= events.len(),
    ensures
        markers(
            shaped_prefix(policy, events, n, duration, capacity),
            shaped_prefix(policy, events, n, duration, capacity).len(),
        ) == markers(events, n),
    decreases n,
{
    if n > 0 {
        lemma_markers_survive(policy, events, (n - 1) as nat, duration, capacity);
        let before = shaped_prefix(policy, events, (n - 1) as nat, duration, capacity);
        let now = shaped_prefix(policy, events, n, duration, capacity);
        if keeps(policy, events, n - 1, duration, capacity) {
            assert(now == before.push(events[n - 1]));
            assert(now.drop_last() == before);
            lemma_markers_of_prefix(now, before.len());
        }
    }
}

/// The markers among the first `n` events do not depend on the events
/// behind them.
pub proof fn lemma_markers_of_prefix(events: Seq<DVSRawEvent>, n: nat)
    requires
        n <= events.len(),
    ensures
        markers(events.take(n as int), n) == markers(events, n),
    decreases n,
{
    if n > 0 {
        lemma_markers_of_prefix(events, (n - 1) as nat);
        lemma_markers_of_prefix(events.take(n as int), (n - 1) as nat);
        assert(events.take(n as int).take(n - 1) == events.take(n - 1));
    }
}

/// Under `TailDrop` the pixel events of a chunk that pass are as many as
/// the chunk has given so far, up to the capacity and never more.
pub proof fn lemma_tail_drop_count(
    events: Seq<DVSRawEvent>,
    n: nat,
    duration: nat,
    capacity: nat,
)
    ensures
        passed(LossPolicy::TailDrop, events, n, duration, capacity) == if filled(
            events,
            n,
            duration,
        ) <= capacity {
            filled(events, n, duration)
        } else {
            capacity
        },
        passed(LossPolicy::TailDrop, events, n, duration, capacity) <= capacity,
    decreases n,
{
    if n > 0 {
        lemma_tail_drop_count(events, (n - 1) as nat, duration, capacity);
    }
}

/// True when no event at an index from `from` up to `to`, both included,
/// opens a chunk: the events at these indices lie in one chunk.
pub open spec fn one_chunk(events: Seq<DVSRawEvent>, from: int, to: int, duration: nat) -> bool {
    forall|k: int| from <= k <= to ==> !#[trigger] opens_chunk(events, k, duration)
}

/// Within a chunk the count of pixel events only grows.
pub proof fn lemma_filled_grows(events: Seq<DVSRawEvent>, from: nat, to: nat, duration: nat)
    requires
        from <= to,
        one_chunk(events, from as int, to - 1, duration),
    ensures
        filled(events, from, duration) <= filled(events, to, duration),
    decreases to - from,
{
    if from < to {
        assert(!opens_chunk(events, to - 1, duration));
        lemma_filled_grows(events, from, (to - 1) as nat, duration);
    }
}

/// Under `TailDrop` the pixel events of a chunk that pass are the first
/// ones of the chunk: where a pixel event passes, every earlier pixel event
/// of the same chunk passes too.
pub proof fn lemma_tail_drop_prefix(
    events: Seq<DVSRawEvent>,
    earlier: int,
    later: int,
    duration: nat,
    capacity: nat,
)
    requires
        0 <= earlier < later < events.len(),
        !events[earlier].is_marker(),
        !events[later].is_marker(),
        one_chunk(events, earlier + 1, later, duration),
        keeps(LossPolicy::TailDrop, events, later, duration, capacity),
    ensures
        keeps(LossPolicy::TailDrop, events, earlier, duration, capacity),
{
    assert(!opens_chunk(events, later, duration));
    lemma_filled_grows(events, (earlier + 1) as nat, later as nat, duration);
    assert(filled(events, (earlier + 1) as nat, duration) == rank(events, earlier, duration) + 1);
}

/// Even thinning removes its events at an even pace: among the first `k`
/// events of a chunk it has removed the share `lose / size` of `k`, rounded
/// up.
pub proof fn lemma_removed_even(k: nat, size: nat, lose: nat)
    requires
        lose <= size,
        0 < size,
    ensures
        lose * k <= removed(k, size, lose) * size < lose * k + size,
    decreases k,
{
    if k > 0 {
        let before = removed((k - 1) as nat, size, lose);
        lemma_removed_even((k - 1) as nat, size, lose);
        assert(lose * k == lose * (k - 1) + lose) by (nonlinear_arith);
        assert((before + 1) * size == before * size + size) by (nonlinear_arith);
    } else {
        assert(lose * 0 == 0) by (nonlinear_arith);
        assert(0 * size == 0) by (nonlinear_arith);
    }
}

/// Even thinning removes from a whole chunk exactly the events that the
/// chunk must lose.
pub proof fn lemma_removed_total(size: nat, lose: nat)
    requires
        lose <= size,
    ensures
        removed(size, size, lose) == lose,
{
    if size > 0 {
        lemma_removed_even(size, size, lose);
        let r = removed(size, size, lose);
        assert(r == lose) by (nonlinear_arith)
            requires
                lose * size <= r * size < lose * size + size,
                0 < size,
        ;
    }
}

/// The size of a chunk is the same for all its pixel events: the events
/// counted so far and the events that follow add up to it.
pub proof fn lemma_chunk_size_steady(events: Seq<DVSRawEvent>, i: int, duration: nat)
    requires
        0 <= i < events.len(),
        !events[i].is_marker(),
    ensures
        chunk_size(events, i, duration) == filled(events, (i + 1) as nat, duration) + follow(
            events,
            (i + 1) as nat,
            duration,
        ),
        !opens_chunk(events, i, duration) ==> chunk_size(events, i, duration) == filled(
            events,
            i as nat,
            duration,
        ) + follow(events, i as nat, duration),
{
}

/// Under `UniformThin` the pixel events of a chunk that pass are those
/// counted so far less those that even thinning has removed among them.
pub proof fn lemma_uniform_thin_count(
    events: Seq<DVSRawEvent>,
    n: nat,
    duration: nat,
    capacity: nat,
)
    requires
        n <= events.len(),
    ensures
        ({
            let seen = filled(events, n, duration);
            let size = seen + follow(events, n, duration);
            seen > 0 ==> passed(LossPolicy::UniformThin, events, n, duration, capacity) + removed(
                seen,
                size,
                excess(size, capacity),
            ) == seen
        }),
        filled(events, n, duration) == 0 ==> passed(
            LossPolicy::UniformThin,
            events,
            n,
            duration,
            capacity,
        ) == 0,
    decreases n,
{
    if n > 0 {
        lemma_uniform_thin_count(events, (n - 1) as nat, duration, capacity);
        let i = n - 1;
        if !events[i].is_marker() {
            lemma_chunk_size_steady(events, i, duration);
        }
    }
}

/// Under `UniformThin` a chunk that has come to its end has let pass as many
/// pixel events as it holds, up to the capacity: its size less the events
/// above the capacity, exactly.
pub proof fn lemma_uniform_thin_retains(
    events: Seq<DVSRawEvent>,
    n: nat,
    duration: nat,
    capacity: nat,
)
    requires
        n <= events.len(),
        follow(events, n, duration) == 0,
    ensures
        passed(LossPolicy::UniformThin, events, n, duration, capacity) == filled(
            events,
            n,
            duration,
        ) - excess(filled(events, n, duration), capacity),
        passed(LossPolicy::UniformThin, events, n, duration, capacity) == if filled(
            events,
            n,
            duration,
        ) <= capacity {
            filled(events, n, duration)
        } else {
            capacity
        },
{
    let size = filled(events, n, duration);
    lemma_uniform_thin_count(events, n, duration, capacity);
    if size > 0 {
        lemma_removed_total(size, excess(size, capacity));
    }
}

} // verus!
