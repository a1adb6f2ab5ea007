use ebod::dvs::{DVSEvent, DVSRawEvent};
use ebod::loss::{apply_loss, tail_drop, uniform_thin, LossPolicy};

fn at(timestamp: u64) -> DVSRawEvent {
    DVSRawEvent::CD(DVSEvent { timestamp, x: 0, y: 0, polarity: 1 })
}

fn mark(payload: u64) -> DVSRawEvent {
    DVSRawEvent::TimeHigh { timestamp: payload }
}

fn times(events: &[DVSRawEvent]) -> Vec<u64> {
    events
        .iter()
        .filter_map(|e| match e {
            DVSRawEvent::CD(ev) => Some(ev.timestamp),
            _ => None,
        })
        .collect()
}

fn stream(timestamps: &[u64]) -> Vec<DVSRawEvent> {
    timestamps.iter().map(|t| at(*t)).collect()
}

#[test]
fn tail_drop_keeps_the_first_two_of_each_chunk() {
    let events = stream(&[0, 100, 200, 1100, 1200]);
    let out = tail_drop(&events, 1000, 2);
    assert_eq!(times(&out), vec![0, 100, 1100, 1200]);
}

#[test]
fn tail_drop_first_chunk_starts_at_the_first_event() {
    // The first chunk is [500, 1500); the next one is aligned: [1000, 2000).
    let events = stream(&[500, 900, 1400, 1499, 1500, 1999, 2000]);
    let out = tail_drop(&events, 1000, 3);
    assert_eq!(times(&out), vec![500, 900, 1400, 1500, 1999, 2000]);
}

#[test]
fn tail_drop_with_no_capacity_keeps_only_markers() {
    let events = vec![mark(0), at(1), at(2), mark(1), at(5000), mark(2)];
    let out = tail_drop(&events, 1000, 0);
    assert_eq!(out, vec![mark(0), mark(1), mark(2)]);
}

#[test]
fn markers_pass_and_do_not_count() {
    let events = vec![at(0), mark(0), mark(0), at(10), mark(0), at(20), at(30), mark(1)];
    let out = tail_drop(&events, 1000, 2);
    assert_eq!(out, vec![at(0), mark(0), mark(0), at(10), mark(0), mark(1)]);
    let thin = uniform_thin(&events, 1000, 2);
    assert_eq!(thin.iter().filter(|e| matches!(e, DVSRawEvent::TimeHigh { .. })).count(), 4);
    assert_eq!(times(&thin).len(), 2);
}

#[test]
fn first_chunk_starts_at_the_time_of_a_leading_marker() {
    // The marker stands for 64 us: the first chunk is [64, 164).
    let events = vec![mark(1), at(70), at(150), at(163), at(170), at(199)];
    let out = tail_drop(&events, 100, 2);
    assert_eq!(times(&out), vec![70, 150, 170, 199]);
}

#[test]
fn empty_stream_stays_empty() {
    assert!(tail_drop(&Vec::new(), 10, 5).is_empty());
    assert!(uniform_thin(&Vec::new(), 10, 5).is_empty());
    assert!(apply_loss(&Vec::new(), 10, 5, LossPolicy::TailDrop).is_empty());
}

#[test]
fn capacity_at_or_above_the_chunk_keeps_everything() {
    let events = stream(&[0, 1, 2, 3, 4, 1000, 1001]);
    assert_eq!(tail_drop(&events, 1000, 5), events);
    assert_eq!(uniform_thin(&events, 1000, 5), events);
    assert_eq!(uniform_thin(&events, 1000, u64::MAX), events);
}

#[test]
fn uniform_thin_removes_every_other_event_of_100() {
    let timestamps: Vec<u64> = (0..100).collect();
    let events = stream(&timestamps);
    let out = uniform_thin(&events, 1000, 50);
    let kept = times(&out);
    assert_eq!(kept.len(), 50);
    let dropped: Vec<u64> = timestamps.iter().copied().filter(|t| !kept.contains(t)).collect();
    assert_eq!(dropped.len(), 50);
    assert_eq!(dropped[0], 0);
    let mut max_gap = 0;
    for pair in dropped.windows(2) {
        max_gap = max_gap.max(pair[1] - pair[0]);
    }
    assert!(max_gap <= 3);
    assert_eq!(kept, (0..100).filter(|t| t % 2 == 1).collect::<Vec<u64>>());
}

#[test]
fn uniform_thin_spreads_three_removals_over_ten() {
    let timestamps: Vec<u64> = (0..10).collect();
    let out = uniform_thin(&stream(&timestamps), 1000, 7);
    // Removed are the events at which the count removed so far falls
    // behind 3/10 of the events seen: the 1st, the 4th and the 7th.
    assert_eq!(times(&out), vec![1, 2, 4, 5, 7, 8, 9]);
}

#[test]
fn uniform_thin_retains_capacity_in_every_chunk() {
    let mut timestamps = Vec::new();
    for chunk in 0..4u64 {
        for k in 0..(5 + 3 * chunk) {
            timestamps.push(chunk * 1000 + k);
        }
    }
    let out = uniform_thin(&stream(&timestamps), 1000, 6);
    let kept = times(&out);
    for chunk in 0..4u64 {
        let size = 5 + 3 * chunk;
        let retained = kept.iter().filter(|t| **t / 1000 == chunk).count() as u64;
        assert_eq!(retained, size.min(6));
    }
}

#[test]
fn uniform_thin_flushes_the_trailing_partial_chunk() {
    let out = uniform_thin(&stream(&[0, 1, 2, 3, 2000, 2001, 2002]), 1000, 2);
    assert_eq!(times(&out), vec![1, 3, 2001, 2002]);
}

#[test]
fn capacity_is_bandwidth_times_duration_by_32_bits() {
    let timestamps: Vec<u64> = (0..10).collect();
    let events = stream(&timestamps);
    // 64 000 bit/s over 1000 us are 64 bits: two events.
    assert_eq!(times(&apply_loss(&events, 1000, 64_000, LossPolicy::TailDrop)), vec![0, 1]);
    // 95 999 bit/s over 1000 us are just under 96 bits: still two events.
    assert_eq!(times(&apply_loss(&events, 1000, 95_999, LossPolicy::TailDrop)), vec![0, 1]);
    assert_eq!(times(&apply_loss(&events, 1000, 96_000, LossPolicy::TailDrop)), vec![0, 1, 2]);
    assert_eq!(times(&apply_loss(&events, 1000, 31_999, LossPolicy::TailDrop)), Vec::<u64>::new());
    assert_eq!(
        times(&apply_loss(&events, 1000, 160_000, LossPolicy::UniformThin)),
        vec![1, 3, 5, 7, 9]
    );
    assert_eq!(apply_loss(&events, u64::MAX, u64::MAX, LossPolicy::UniformThin), events);
}

#[test]
fn tail_drop_retained_events_are_a_prefix_of_each_chunk() {
    // Chunks: [10, 1010), [1000, 2000), [2000, 3000), [5000, 6000).
    let timestamps: Vec<u64> =
        vec![10, 20, 30, 40, 1005, 1010, 1011, 1012, 1999, 2000, 5000, 5001, 5002, 5003];
    let out = tail_drop(&stream(&timestamps), 1000, 3);
    assert_eq!(times(&out), vec![10, 20, 30, 1010, 1011, 1012, 2000, 5000, 5001, 5002]);
}

#[test]
fn an_event_before_the_chunk_start_stays_in_the_chunk() {
    // Only the end of the chunk is tested: an earlier time lies in it.
    let out = tail_drop(&stream(&[5000, 100, 5999, 6000]), 1000, 2);
    assert_eq!(times(&out), vec![5000, 100, 6000]);
}
