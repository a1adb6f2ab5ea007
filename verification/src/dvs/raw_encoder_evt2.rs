//! Encoder for EVT2 streams.
//!
//! The encoder fills a buffer with the bytes of the stream. Before the word
//! of a pixel event it makes sure that the time-sync words on the wire have
//! reached the event's time: where no time sync has been written yet, the
//! event gets one of its own, else it gets one word for each step of 64
//! microseconds that lies between the last time sync and the event. A
//! marker is written as the time-sync word that it is, and the encoder
//! takes from it the time base that a decoder will take from that word.
use crate::dvs::clock::next_base;
use crate::dvs::raw_decoder_evt2::{
    decode_word, EventTypes, Evt2State, RawEvent, RawEventCD, RawEventTime, LOOP_THRESHOLD,
    TIME_LOOP,
};
use crate::dvs::{DVSEvent, DVSRawEvent, DvsRawEncoder};
use vstd::prelude::*;
use vstd::utf8::encode_utf8;

verus! {

impl EventTypes {
    /// The type tag that names the kind on the wire.
    pub open spec fn spec_tag(self) -> u8 {
        match self {
            EventTypes::CdOff => 0x0,
            EventTypes::CdOn => 0x1,
            EventTypes::EvtTimeHigh => 0x8,
            EventTypes::ExtTrigger => 0xA,
        }
    }

    /// The type tag that names the kind on the wire.
    pub fn tag(self) -> (tag: u8)
        ensures
            tag == self.spec_tag(),
    {
        match self {
            EventTypes::CdOff => 0x0,
            EventTypes::CdOn => 0x1,
            EventTypes::EvtTimeHigh => 0x8,
            EventTypes::ExtTrigger => 0xA,
        }
    }
}

impl RawEventCD {
    /// The word of the pixel event: the low six bits of the timestamp above
    /// eleven bits of x above eleven bits of y. A field that is wider than
    /// its place is cut to it.
    pub open spec fn word(self) -> RawEvent {
        RawEvent {
            tag: self.tag,
            pad: ((self.timestamp % 0x40) * 0x40_0000 + (self.x % 0x800) * 0x800 + self.y
                % 0x800) as u32,
        }
    }
}

impl RawEventTime {
    /// The word of the time sync: its low 28 bits are the payload.
    pub open spec fn word(self) -> RawEvent {
        RawEvent { tag: self.tag, pad: self.timestamp % 0x1000_0000 }
    }
}

impl RawEvent {
    /// The four bytes of the word, the lowest byte of the payload first and
    /// the tag in the high nibble of the last.
    #[verifier::opaque]
    pub open spec fn bytes(self) -> Seq<u8> {
        seq![
            (self.pad % 0x100) as u8,
            ((self.pad / 0x100) % 0x100) as u8,
            ((self.pad / 0x1_0000) % 0x100) as u8,
            ((self.pad / 0x100_0000) % 0x10 + (self.tag % 0x10) * 0x10) as u8,
        ]
    }

    /// Reading back the bytes of a word gives the word.
    pub proof fn lemma_bytes_read_back(self)
        requires
            self.wf(),
        ensures
            self.bytes().len() == 4,
            RawEvent::of_bytes(self.bytes()[0], self.bytes()[1], self.bytes()[2], self.bytes()[3])
                == self,
    {
        reveal(RawEvent::bytes);
    }

    /// A word takes four bytes.
    pub proof fn lemma_bytes_len(self)
        ensures
            self.bytes().len() == 4,
    {
        reveal(RawEvent::bytes);
    }
}

impl From<RawEventCD> for RawEvent {
    fn from(event: RawEventCD) -> (word: Self) {
        let t = event.timestamp;
        let x = event.x;
        let y = event.y;
        assert(((t & 0x3F) as u32) << 22 | ((x & 0x7FF) as u32) << 11 | ((y & 0x7FF) as u32) == (t
            % 0x40) * 0x40_0000 + (x % 0x800) * 0x800 + y % 0x800) by (bit_vector);
        RawEvent {
            tag: event.tag,
            pad: ((t & 0x3F) as u32) << 22 | ((x & 0x7FF) as u32) << 11 | ((y & 0x7FF) as u32),
        }
    }
}

impl vstd::std_specs::convert::FromSpecImpl<RawEventCD> for RawEvent {
    open spec fn obeys_from_spec() -> bool {
        true
    }

    open spec fn from_spec(event: RawEventCD) -> Self {
        event.word()
    }
}

impl From<RawEventTime> for RawEvent {
    fn from(event: RawEventTime) -> (word: Self) {
        let t = event.timestamp;
        assert(t & 0x0FFF_FFFF == t % 0x1000_0000) by (bit_vector);
        RawEvent { tag: event.tag, pad: t & 0x0FFF_FFFF }
    }
}

impl vstd::std_specs::convert::FromSpecImpl<RawEventTime> for RawEvent {
    open spec fn obeys_from_spec() -> bool {
        true
    }

    open spec fn from_spec(event: RawEventTime) -> Self {
        event.word()
    }
}

impl RawEvent {
    /// The four bytes of the word as they stand in a stream.
    pub fn to_bytes(self) -> (value: [u8; 4])
        ensures
            value@ == self.bytes(),
    {
        let pad = self.pad;
        let tag = self.tag;
        assert((pad & 0xFF) == pad % 0x100) by (bit_vector);
        assert(((pad >> 8) & 0xFF) == (pad / 0x100) % 0x100) by (bit_vector);
        assert(((pad >> 16) & 0xFF) == (pad / 0x1_0000) % 0x100) by (bit_vector);
        assert((((pad >> 24) & 0x0F) as u8 | (tag << 4)) == (pad / 0x100_0000) % 0x10 + (tag % 0x10)
            * 0x10) by (bit_vector);
        let value: [u8; 4] = [
            (pad & 0xFF) as u8,
            ((pad >> 8) & 0xFF) as u8,
            ((pad >> 16) & 0xFF) as u8,
            ((pad >> 24) & 0x0F) as u8 | (tag << 4),
        ];
        assert(value@ =~= self.bytes()) by {
            reveal(RawEvent::bytes);
        }
        value
    }
}

impl From<RawEvent> for [u8; 4] {
    fn from(event: RawEvent) -> (value: Self) {
        let value = event.to_bytes();
        proof {
            reveal(RawEvent::bytes);
        }
        value
    }
}

impl vstd::std_specs::convert::FromSpecImpl<RawEvent> for [u8; 4] {
    open spec fn obeys_from_spec() -> bool {
        true
    }

    open spec fn from_spec(event: RawEvent) -> Self {
        [
            (event.pad % 0x100) as u8,
            ((event.pad / 0x100) % 0x100) as u8,
            ((event.pad / 0x1_0000) % 0x100) as u8,
            ((event.pad / 0x100_0000) % 0x10 + (event.tag % 0x10) * 0x10) as u8,
        ]
    }
}

/// The bytes of the time-sync word for the time base `base`: its payload is
/// the base in units of 64 microseconds, cut to 28 bits.
pub open spec fn time_high_bytes(base: nat) -> Seq<u8> {
    RawEvent { tag: 0x8, pad: ((base / 64) % 0x1000_0000) as u32 }.bytes()
}

/// The bytes of the time-sync word of a marker: its payload is that of the
/// marker, cut to 28 bits.
pub open spec fn marker_bytes(payload: u64) -> Seq<u8> {
    RawEvent { tag: 0x8, pad: (payload % 0x1000_0000) as u32 }.bytes()
}

/// The bytes of the word of a pixel event. Any polarity but 1 is written as
/// polarity 0.
pub open spec fn cd_bytes(event: DVSEvent) -> Seq<u8> {
    RawEvent {
        tag: if event.polarity == 1 {
            0x1
        } else {
            0x0
        },
        pad: ((event.timestamp % 64) * 0x40_0000 + (event.x % 0x800) * 0x800 + event.y
            % 0x800) as u32,
    }.bytes()
}

/// The time-sync words that bring the wire from the base `last` up to
/// `target`: one for each step of 64 microseconds, until the base is no
/// longer below the target. Each word carries the base that its step
/// reaches.
pub open spec fn sync_bytes(last: nat, target: nat) -> Seq<u8>
    decreases
            (if last < target {
                target - last
            } else {
                0
            }),
{
    if last >= target {
        Seq::empty()
    } else {
        time_high_bytes(last + 64) + sync_bytes(last + 64, target)
    }
}

/// The base that the steps from `last` up to `target` reach.
pub open spec fn synced_base(last: nat, target: nat) -> nat
    decreases
            (if last < target {
                target - last
            } else {
                0
            }),
{
    if last >= target {
        last
    } else {
        synced_base(last + 64, target)
    }
}

/// The time of an event without its low six bits.
pub open spec fn time_base_of(timestamp: u64) -> u64 {
    (timestamp - timestamp % 64) as u64
}

/// The bytes of the lines of a header, one line after the other, each as
/// UTF-8.
pub open spec fn header_bytes(lines: Seq<String>) -> Seq<u8>
    decreases lines.len(),
{
    if lines.len() == 0 {
        Seq::empty()
    } else {
        header_bytes(lines.drop_last()) + encode_utf8(lines.last()@)
    }
}

/// What an EVT2 encoder stands for: the bytes written so far, whether a
/// time sync has been written, and the time base that the last one stands
/// for.
pub struct Evt2EncoderView {
    pub written: Seq<u8>,
    pub time_sync_emitted: bool,
    pub last_time_sync_base: u64,
}

impl Evt2EncoderView {
    /// The encoder that has written nothing.
    pub open spec fn fresh() -> Evt2EncoderView {
        Evt2EncoderView { written: Seq::empty(), time_sync_emitted: false, last_time_sync_base: 0 }
    }

    /// The time base that a decoder has behind the time-sync word of a
    /// marker, when its base before the word is that of the encoder: the
    /// payload in microseconds, in the period of the base or, where the
    /// payload has wrapped, in the next one. A base that would not fit in 64
    /// bits leaves the encoder's base as it is.
    pub open spec fn base_after_marker(self, payload: u64) -> u64 {
        let base = next_base(
            self.last_time_sync_base as nat,
            (self.last_time_sync_base / TIME_LOOP) as nat,
            ((payload % 0x1000_0000) * 64) as nat,
            TIME_LOOP as nat,
            LOOP_THRESHOLD as nat,
        );
        if base <= u64::MAX {
            base as u64
        } else {
            self.last_time_sync_base
        }
    }

    /// The bytes that writing `event` appends.
    ///
    /// A marker is written as one time-sync word with the marker's payload.
    /// A pixel event is written as its own word behind the time-sync words
    /// that it needs: one with its time base where no time sync has been
    /// written, else the steps from the last time sync up to its time base.
    pub open spec fn bytes_of(self, event: DVSRawEvent) -> Seq<u8> {
        match event {
            DVSRawEvent::TimeHigh { timestamp } => marker_bytes(timestamp),
            DVSRawEvent::CD(ev) => if self.time_sync_emitted {
                sync_bytes(self.last_time_sync_base as nat, time_base_of(ev.timestamp) as nat)
                    + cd_bytes(ev)
            } else {
                time_high_bytes(time_base_of(ev.timestamp) as nat) + cd_bytes(ev)
            },
        }
    }

    /// The encoder after `event` has been written.
    pub open spec fn write(self, event: DVSRawEvent) -> Evt2EncoderView {
        match event {
            DVSRawEvent::TimeHigh { timestamp } => Evt2EncoderView {
                written: self.written + self.bytes_of(event),
                time_sync_emitted: true,
                last_time_sync_base: self.base_after_marker(timestamp),
            },
            DVSRawEvent::CD(ev) => Evt2EncoderView {
                written: self.written + self.bytes_of(event),
                time_sync_emitted: true,
                last_time_sync_base: if self.time_sync_emitted {
                    synced_base(
                        self.last_time_sync_base as nat,
                        time_base_of(ev.timestamp) as nat,
                    ) as u64
                } else {
                    time_base_of(ev.timestamp)
                },
            },
        }
    }

    /// The encoder after all of `events` have been written, the first one
    /// first.
    pub open spec fn write_all(self, events: Seq<DVSRawEvent>) -> Evt2EncoderView
        decreases events.len(),
    {
        if events.len() == 0 {
            self
        } else {
            self.write_all(events.drop_last()).write(events.last())
        }
    }
}

/// A time-sync word takes four bytes.
pub proof fn lemma_time_high_len(base: nat)
    ensures
        time_high_bytes(base).len() == 4,
{
    reveal(RawEvent::bytes);
}

/// A time-sync word and a pixel word take four bytes each.
pub proof fn lemma_word_lengths(base: nat, event: DVSEvent)
    ensures
        time_high_bytes(base).len() == 4,
        cd_bytes(event).len() == 4,
{
    reveal(RawEvent::bytes);
}

/// The steps from a base up to a target end at a base that is no lower than
/// the target and less than 64 above it, unless the base was above the
/// target from the start.
pub proof fn lemma_synced_base(last: nat, target: nat)
    ensures
        last >= target ==> synced_base(last, target) == last,
        last < target ==> target <= synced_base(last, target) < target + 64,
        (synced_base(last, target) - last) % 64 == 0,
        sync_bytes(last, target).len() * 16 == (synced_base(last, target) - last),
    decreases
            (if last < target {
                target - last
            } else {
                0
            }),
{
    if last < target {
        lemma_synced_base(last + 64, target);
        lemma_time_high_len(last + 64);
    }
}

/// The last of the time-sync steps up to a target carries the target: the
/// time sync that stands before the word of a pixel event is the time base
/// of the event, and so never later than the event.
pub proof fn lemma_sync_ends_at_target(last: nat, target: nat)
    requires
        last % 64 == 0,
        target % 64 == 0,
        last < target,
    ensures
        sync_bytes(last, target).len() >= 4,
        sync_bytes(last, target).skip(sync_bytes(last, target).len() - 4) == time_high_bytes(
            target,
        ),
    decreases target - last,
{
    let all = sync_bytes(last, target);
    let first = time_high_bytes(last + 64);
    let rest = sync_bytes(last + 64, target);
    lemma_time_high_len(last + 64);
    if last + 64 < target {
        lemma_sync_ends_at_target(last + 64, target);
        assert(all.skip(all.len() - 4) =~= rest.skip(rest.len() - 4));
    } else {
        assert(rest =~= Seq::<u8>::empty());
        assert(all.skip(all.len() - 4) =~= first);
    }
}

/// The time sync of an encoder stays a multiple of 64 microseconds,
/// whatever is written.
pub proof fn lemma_write_keeps_alignment(encoder: Evt2EncoderView, event: DVSRawEvent)
    requires
        encoder.last_time_sync_base % 64 == 0,
    ensures
        encoder.write(event).last_time_sync_base % 64 == 0,
{
    match event {
        DVSRawEvent::CD(ev) => {
            lemma_synced_base(
                encoder.last_time_sync_base as nat,
                time_base_of(ev.timestamp) as nat,
            );
        },
        DVSRawEvent::TimeHigh { timestamp } => {
            let rollovers = (encoder.last_time_sync_base / TIME_LOOP) as nat;
            let payload = (timestamp % 0x1000_0000) as nat;
            let units = payload + rollovers * 0x1000_0000;
            let base = next_base(
                encoder.last_time_sync_base as nat,
                rollovers,
                payload * 64,
                TIME_LOOP as nat,
                LOOP_THRESHOLD as nat,
            );
            assert(rollovers * 0x4_0000_0000 == 64 * (rollovers * 0x1000_0000))
                by (nonlinear_arith);
            assert(base == 64 * units || base == 64 * (units + 0x1000_0000));
            assert((64 * units) % 64 == 0) by (nonlinear_arith);
            assert((64 * (units + 0x1000_0000)) % 64 == 0) by (nonlinear_arith);
        },
    }
}

/// Appends `bytes` to `buffer`.
fn append(buffer: &mut Vec<u8>, bytes: &[u8])
    ensures
        final(buffer)@ == old(buffer)@ + bytes@,
{
    let mut i: usize = 0;
    while i < bytes.len()
        invariant
            i <= bytes.len(),
            buffer@ == old(buffer)@ + bytes@.take(i as int),
        decreases bytes.len() - i,
    {
        buffer.push(bytes[i]);
        assert(bytes@.take(i + 1) == bytes@.take(i as int).push(bytes@[i as int]));
        i = i + 1;
    }
    assert(bytes@.take(bytes@.len() as int) == bytes@);
}

/// An EVT2 encoder that gathers the bytes of a stream.
pub struct DVSRawEncoderEvt2 {
    buffer: Vec<u8>,
    first_timehigh_written: bool,
    ts_last_timehigh: u64,
}

impl View for DVSRawEncoderEvt2 {
    type V = Evt2EncoderView;

    closed spec fn view(&self) -> Evt2EncoderView {
        Evt2EncoderView {
            written: self.buffer@,
            time_sync_emitted: self.first_timehigh_written,
            last_time_sync_base: self.ts_last_timehigh,
        }
    }
}

impl DVSRawEncoderEvt2 {
    /// An encoder that has written nothing.
    pub fn new() -> (encoder: Self)
        ensures
            encoder@ == Evt2EncoderView::fresh(),
    {
        Self { buffer: Vec::new(), first_timehigh_written: false, ts_last_timehigh: 0 }
    }

    /// Hands out the bytes written so far and empties the buffer. The time
    /// sync of the encoder stays as it is.
    pub fn take_bytes(&mut self) -> (bytes: Vec<u8>)
        ensures
            bytes@ == old(self)@.written,
            final(self)@ == (Evt2EncoderView { written: Seq::empty(), ..old(self)@ }),
    {
        let mut bytes: Vec<u8> = Vec::new();
        std::mem::swap(&mut bytes, &mut self.buffer);
        bytes
    }

    /// Appends the time-sync word for the base `base`.
    fn push_time_high(&mut self, base: u64)
        ensures
            final(self)@ == (Evt2EncoderView {
                written: old(self)@.written + time_high_bytes(base as nat),
                ..old(self)@
            }),
    {
        let payload = ((base >> 6) & 0x0FFF_FFFF) as u32;
        assert(((base >> 6) & 0x0FFF_FFFF) == (base / 64) % 0x1000_0000) by (bit_vector);
        let raw_time_event = RawEventTime { tag: EventTypes::EvtTimeHigh.tag(), timestamp: payload };
        let raw_event = RawEvent::from(raw_time_event);
        let bytes = raw_event.to_bytes();
        append(&mut self.buffer, bytes.as_slice());
    }

    /// Appends the time-sync word of a marker with the payload `payload` and
    /// takes the time base from it.
    fn push_marker(&mut self, payload: u64)
        ensures
            final(self)@ == (Evt2EncoderView {
                written: old(self)@.written + marker_bytes(payload),
                time_sync_emitted: true,
                last_time_sync_base: old(self)@.base_after_marker(payload),
            }),
    {
        let low = (payload & 0x0FFF_FFFF) as u32;
        assert(payload & 0x0FFF_FFFF == payload % 0x1000_0000) by (bit_vector);
        let raw_time_event = RawEventTime { tag: EventTypes::EvtTimeHigh.tag(), timestamp: low };
        let raw_event = RawEvent::from(raw_time_event);
        let bytes = raw_event.to_bytes();
        append(&mut self.buffer, bytes.as_slice());
        let clock = Evt2State {
            first_time_base_set: true,
            current_time_base: self.ts_last_timehigh,
            n_time_high_loop: self.ts_last_timehigh / TIME_LOOP,
        };
        if let Some((next, _)) = decode_word(clock, raw_event) {
            self.ts_last_timehigh = next.current_time_base;
        }
        self.first_timehigh_written = true;
    }

    /// Writes the time-sync words that bring the wire up to `target` and
    /// returns their number.
    fn sync_to(&mut self, target: u64) -> (words: u64)
        requires
            target % 64 == 0,
        ensures
            final(self)@ == (Evt2EncoderView {
                written: old(self)@.written + sync_bytes(
                    old(self)@.last_time_sync_base as nat,
                    target as nat,
                ),
                last_time_sync_base: synced_base(
                    old(self)@.last_time_sync_base as nat,
                    target as nat,
                ) as u64,
                ..old(self)@
            }),
            words * 4 == sync_bytes(old(self)@.last_time_sync_base as nat, target as nat).len(),
            words <= 0x0400_0000_0000_0000,
    {
        let ghost start = self.ts_last_timehigh;
        let ghost all = sync_bytes(start as nat, target as nat);
        let mut words: u64 = 0;
        let mut last: u64 = self.ts_last_timehigh;
        proof {
            lemma_synced_base(start as nat, target as nat);
        }
        while last < target
            invariant
                target % 64 == 0,
                self.first_timehigh_written == old(self).first_timehigh_written,
                self.ts_last_timehigh == last,
                start == old(self).ts_last_timehigh,
                all == sync_bytes(start as nat, target as nat),
                start <= last,
                words * 64 == last - start,
                self.buffer@ + sync_bytes(last as nat, target as nat) == old(self).buffer@ + all,
                synced_base(last as nat, target as nat) == synced_base(start as nat, target as nat),
                all.len() * 16 == synced_base(start as nat, target as nat) - start,
            decreases
                    (if last < target {
                        target - last
                    } else {
                        0
                    }),
        {
            let ghost before = self.buffer@;
            let ghost rest = sync_bytes((last + 64) as nat, target as nat);
            last = last + 0x40;
            self.ts_last_timehigh = last;
            self.push_time_high(last);
            words = words + 1;
            assert(self.buffer@ + rest == before + (time_high_bytes(last as nat) + rest));
        }
        assert(self.buffer@ + Seq::<u8>::empty() == self.buffer@);
        words
    }

    /// Appends the word of a pixel event.
    fn push_cd(&mut self, ev: DVSEvent)
        ensures
            final(self)@ == (Evt2EncoderView {
                written: old(self)@.written + cd_bytes(ev),
                ..old(self)@
            }),
    {
        let event_type = match ev.polarity {
            0 => EventTypes::CdOff,
            1 => EventTypes::CdOn,
            _ => EventTypes::CdOff,
        };
        let timestamp = ev.timestamp;
        let timestamp_low = (timestamp & 0x3F) as u8;
        assert(timestamp & 0x3F == timestamp % 64) by (bit_vector);
        let raw_event_cd = RawEventCD {
            tag: event_type.tag(),
            timestamp: timestamp_low,
            x: ev.x,
            y: ev.y,
        };
        let raw_event = RawEvent::from(raw_event_cd);
        let bytes = raw_event.to_bytes();
        append(&mut self.buffer, bytes.as_slice());
    }
}

impl DvsRawEncoder for DVSRawEncoderEvt2 {
    open spec fn written(&self) -> Seq<u8> {
        self@.written
    }

    /// Writes the lines of a header as they are.
    fn write_header(&mut self, header: Vec<String>)
        ensures
            final(self)@ == (Evt2EncoderView {
                written: old(self)@.written + header_bytes(header@),
                ..old(self)@
            }),
    {
        let mut i: usize = 0;
        while i < header.len()
            invariant
                i <= header.len(),
                self@ == (Evt2EncoderView {
                    written: old(self)@.written + header_bytes(header@.take(i as int)),
                    ..old(self)@
                }),
            decreases header.len() - i,
        {
            let buf = header[i].as_str().as_bytes();
            append(&mut self.buffer, buf);
            proof {
                let longer = header@.take(i + 1);
                assert(longer.drop_last() == header@.take(i as int));
                assert(longer.last() == header@[i as int]);
                assert(self@.written == old(self)@.written + header_bytes(longer));
            }
            i = i + 1;
        }
        assert(header@.take(header@.len() as int) == header@);
    }

    /// Writes one event and returns the number of words that it took.
    fn write_event(&mut self, event: DVSRawEvent) -> (words: u64)
        ensures
            final(self)@ == old(self)@.write(event),
            words * 4 == old(self)@.bytes_of(event).len(),
    {
        match event {
            DVSRawEvent::CD(ev) => {
                let target: u64 = ev.timestamp - ev.timestamp % 64;
                let synced = if !self.first_timehigh_written {
                    self.first_timehigh_written = true;
                    self.ts_last_timehigh = target;
                    self.push_time_high(target);
                    1
                } else {
                    self.sync_to(target)
                };
                self.push_cd(ev);
                proof {
                    lemma_word_lengths(target as nat, ev);
                    let sync = if old(self)@.time_sync_emitted {
                        sync_bytes(old(self)@.last_time_sync_base as nat, target as nat)
                    } else {
                        time_high_bytes(target as nat)
                    };
                    assert(target == time_base_of(ev.timestamp));
                    assert(synced * 4 == sync.len());
                    assert(old(self)@.bytes_of(event) == sync + cd_bytes(ev));
                    assert((old(self)@.written + sync) + cd_bytes(ev) == old(self)@.written + (sync
                        + cd_bytes(ev)));
                }
                synced + 1
            },
            DVSRawEvent::TimeHigh { timestamp } => {
                self.push_marker(timestamp);
                proof {
                    (RawEvent { tag: 0x8, pad: (timestamp % 0x1000_0000) as u32 }).lemma_bytes_len();
                }
                1
            },
        }
    }
}

} // verus!
