//! Events as runs of bytes for consumers that read 64-bit integers.
//!
//! A record holds the four fields of an event, each as a little-endian
//! integer of eight bytes: 32 bytes in all. The records travel in a `Bytes`
//! of the crate bytes, which other parts of a program can share without
//! copying.
use crate::dvs::DVSEvent;
use vstd::prelude::*;

verus! {

/// Declares the type `Bytes` of the crate bytes: a shared, immutable run
/// of bytes. Nothing of its inside is known here.
#[verifier::external_type_specification]
#[verifier::external_body]
pub struct ExBytes(bytes::Bytes);

/// The bytes that a `Bytes` of the crate bytes holds, in their order.
pub uninterp spec fn bytes_view(bytes: bytes::Bytes) -> Seq<u8>;

/// Calls `Bytes::from` of the crate bytes on the boxed slice of `bytes`.
/// The `Bytes` takes over the allocation and holds the same bytes in the
/// same order.
#[verifier::external_body]
fn bytes_from_vec(bytes: Vec<u8>) -> (packed: bytes::Bytes)
    ensures
        bytes_view(packed) == bytes@,
{
    bytes::Bytes::from(bytes.into_boxed_slice())
}

/// The lowest `width` bytes of `value`, the lowest first.
pub open spec fn le_bytes(value: nat, width: nat) -> Seq<u8>
    decreases width,
{
    if width == 0 {
        Seq::empty()
    } else {
        seq![(value % 256) as u8] + le_bytes(value / 256, (width - 1) as nat)
    }
}

/// The record of one event for consumers that read 64-bit integers: the
/// timestamp, x, y and the polarity, each as eight bytes, the lowest byte
/// first.
pub open spec fn i64_record(event: DVSEvent) -> Seq<u8> {
    le_bytes(event.timestamp as nat, 8) + le_bytes(event.x as nat, 8) + le_bytes(
        event.y as nat,
        8,
    ) + le_bytes(event.polarity as nat, 8)
}

/// The records of the first `n` events, one after the other.
pub open spec fn i64_records(events: Seq<DVSEvent>, n: nat) -> Seq<u8>
    decreases n,
{
    if n == 0 {
        Seq::empty()
    } else {
        i64_records(events, (n - 1) as nat) + i64_record(events[n - 1])
    }
}

/// Appends the eight bytes of `value` to `buffer`, the lowest first.
fn push_le(buffer: &mut Vec<u8>, value: u64)
    ensures
        final(buffer)@ == old(buffer)@ + le_bytes(value as nat, 8),
{
    let mut rest: u64 = value;
    let mut i: usize = 0;
    while i < 8
        invariant
            i <= 8,
            buffer@ + le_bytes(rest as nat, (8 - i) as nat) == old(buffer)@ + le_bytes(
                value as nat,
                8,
            ),
        decreases 8 - i,
    {
        let ghost before = buffer@;
        let ghost tail = le_bytes((rest / 256) as nat, (8 - i - 1) as nat);
        buffer.push((rest % 256) as u8);
        assert(buffer@ + tail == before + (seq![(rest % 256) as u8] + tail));
        rest = rest / 256;
        i = i + 1;
    }
    assert(buffer@ + Seq::<u8>::empty() == buffer@);
}

impl DVSEvent {
    /// Packs events for consumers that read 64-bit integers: 32 bytes per
    /// event, which hold the timestamp, x, y and the polarity as four
    /// little-endian integers of eight bytes each.
    pub fn slice_to_i64(events: &[DVSEvent]) -> (packed: bytes::Bytes)
        ensures
            bytes_view(packed) == i64_records(events@, events@.len()),
    {
        let mut array: Vec<u8> = Vec::new();
        let mut i: usize = 0;
        while i < events.len()
            invariant
                i <= events.len(),
                array@ == i64_records(events@, i as nat),
            decreases events.len() - i,
        {
            let curr = &events[i];
            let ghost before = array@;
            push_le(&mut array, curr.timestamp);
            push_le(&mut array, curr.x as u64);
            push_le(&mut array, curr.y as u64);
            push_le(&mut array, curr.polarity as u64);
            assert(array@ == before + i64_record(events@[i as int])) by {
                let a = le_bytes(curr.timestamp as nat, 8);
                let b = le_bytes(curr.x as nat, 8);
                let c = le_bytes(curr.y as nat, 8);
                let d = le_bytes(curr.polarity as nat, 8);
                assert((((before + a) + b) + c) + d =~= before + (((a + b) + c) + d));
            }
            i = i + 1;
        }
        bytes_from_vec(array)
    }
}

/// Calls `to_vec` on the slice that a `Bytes` of the crate bytes derefs to:
/// a copy of the bytes that it holds, in their order.
#[verifier::external_body]
fn bytes_to_vec(packed: &bytes::Bytes) -> (bytes: Vec<u8>)
    ensures
        bytes@ == bytes_view(*packed),
{
    packed.to_vec()
}

/// The number that eight bytes spell, the lowest byte first.
pub open spec fn le_u64(bytes: Seq<u8>) -> nat {
    (bytes[0] + bytes[1] * 0x100 + bytes[2] * 0x1_0000 + bytes[3] * 0x100_0000 + bytes[4]
        * 0x1_0000_0000 + bytes[5] * 0x100_0000_0000 + bytes[6] * 0x1_0000_0000_0000 + bytes[7]
        * 0x100_0000_0000_0000) as nat
}

/// The event that a record holds. Bytes of another length than 32 are no
/// record, nor are bytes in which a field is larger than its type.
pub open spec fn event_of_record(bytes: Seq<u8>) -> Option<DVSEvent> {
    let x = le_u64(bytes.subrange(8, 16));
    let y = le_u64(bytes.subrange(16, 24));
    let polarity = le_u64(bytes.subrange(24, 32));
    if bytes.len() == 32 && x <= u16::MAX && y <= u16::MAX && polarity <= u8::MAX {
        Some(
            DVSEvent {
                timestamp: le_u64(bytes.subrange(0, 8)) as u64,
                x: x as u16,
                y: y as u16,
                polarity: polarity as u8,
            },
        )
    } else {
        None
    }
}

/// Eight little-endian bytes spell the integer that they were made of.
pub proof fn lemma_le_u64_of_le_bytes(value: u64)
    ensures
        le_bytes(value as nat, 8).len() == 8,
        le_u64(le_bytes(value as nat, 8)) == value,
{
    reveal_with_fuel(le_bytes, 9);
    let v = value as nat;
    let bytes = le_bytes(v, 8);
    assert(bytes =~= seq![
        (v % 256) as u8,
        (v / 0x100 % 256) as u8,
        (v / 0x100 / 0x100 % 256) as u8,
        (v / 0x100 / 0x100 / 0x100 % 256) as u8,
        (v / 0x100 / 0x100 / 0x100 / 0x100 % 256) as u8,
        (v / 0x100 / 0x100 / 0x100 / 0x100 / 0x100 % 256) as u8,
        (v / 0x100 / 0x100 / 0x100 / 0x100 / 0x100 / 0x100 % 256) as u8,
        (v / 0x100 / 0x100 / 0x100 / 0x100 / 0x100 / 0x100 / 0x100 % 256) as u8,
    ]);
}

/// The record of an event holds that event.
pub proof fn lemma_record_round_trip(event: DVSEvent)
    ensures
        event_of_record(i64_record(event)) == Some(event),
{
    let a = le_bytes(event.timestamp as nat, 8);
    let b = le_bytes(event.x as nat, 8);
    let c = le_bytes(event.y as nat, 8);
    let d = le_bytes(event.polarity as nat, 8);
    lemma_le_u64_of_le_bytes(event.timestamp);
    lemma_le_u64_of_le_bytes(event.x as u64);
    lemma_le_u64_of_le_bytes(event.y as u64);
    lemma_le_u64_of_le_bytes(event.polarity as u64);
    let record = i64_record(event);
    assert(record.subrange(0, 8) =~= a);
    assert(record.subrange(8, 16) =~= b);
    assert(record.subrange(16, 24) =~= c);
    assert(record.subrange(24, 32) =~= d);
}

/// The number that the eight bytes at `at` spell, the lowest byte first.
fn read_le(bytes: &Vec<u8>, at: usize) -> (value: u64)
    requires
        at + 8 <= bytes@.len(),
    ensures
        value == le_u64(bytes@.subrange(at as int, at + 8)),
{
    let len = bytes.len();
    (bytes[at] as u64) + (bytes[at + 1] as u64) * 0x100 + (bytes[at + 2] as u64) * 0x1_0000 + (
    bytes[at + 3] as u64) * 0x100_0000 + (bytes[at + 4] as u64) * 0x1_0000_0000 + (bytes[at
        + 5] as u64) * 0x100_0000_0000 + (bytes[at + 6] as u64) * 0x1_0000_0000_0000 + (bytes[at
        + 7] as u64) * 0x100_0000_0000_0000
}

impl DVSEvent {
    /// The record of the event as a `Bytes`.
    pub fn to_bytes(self) -> (packed: bytes::Bytes)
        ensures
            bytes_view(packed) == i64_record(self),
    {
        let mut array: Vec<u8> = Vec::new();
        push_le(&mut array, self.timestamp);
        push_le(&mut array, self.x as u64);
        push_le(&mut array, self.y as u64);
        push_le(&mut array, self.polarity as u64);
        assert(array@ == i64_record(self)) by {
            assert(Seq::<u8>::empty() + le_bytes(self.timestamp as nat, 8) == le_bytes(
                self.timestamp as nat,
                8,
            ));
        }
        bytes_from_vec(array)
    }

    /// The event that the record in `value` holds, if `value` is a record.
    pub fn from_bytes(value: &bytes::Bytes) -> (event: Option<DVSEvent>)
        ensures
            event == event_of_record(bytes_view(*value)),
    {
        let bytes = bytes_to_vec(value);
        if bytes.len() != 32 {
            return None;
        }
        let timestamp = read_le(&bytes, 0);
        let x = read_le(&bytes, 8);
        let y = read_le(&bytes, 16);
        let polarity = read_le(&bytes, 24);
        if x > 0xFFFF || y > 0xFFFF || polarity > 0xFF {
            return None;
        }
        Some(DVSEvent { timestamp, x: x as u16, y: y as u16, polarity: polarity as u8 })
    }
}

} // verus!
