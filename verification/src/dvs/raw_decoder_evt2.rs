//! Decoder for EVT2 streams: words of four bytes, little-endian, with a
//! type tag in the high nibble of the last byte and 28 payload bits.
//!
//! A pixel word carries the low six bits of its timestamp; the bits above
//! them come from the latest time-sync word, which the decoder keeps as its
//! time base. The field of a time-sync word wraps after `TIME_LOOP`
//! microseconds, so the decoder also counts the wraps.
use crate::dvs::clock::{
    candidate_base, lemma_time_keeps_increasing, next_base, next_rollovers,
};
use crate::dvs::header::{preamble, read_preamble, texts_of, Metadata, StreamFormat};
use crate::dvs::{DVSEvent, DVSRawEvent, DvsError, DvsRawDecoder};
use vstd::prelude::*;

verus! {

/// Period of the 28-bit time-sync field, in microseconds.
pub const TIME_LOOP: u64 = 0x4_0000_0000;

/// A time-sync value that falls back by less than
/// `TIME_LOOP - LOOP_THRESHOLD` is jitter and not a wrap of the field.
pub const LOOP_THRESHOLD: u64 = 640;

/// The kinds of word in an EVT2 stream.
#[derive(Debug, Clone, Copy, PartialEq, Eq, Structural)]
pub enum EventTypes {
    CdOff,
    CdOn,
    EvtTimeHigh,
    ExtTrigger,
}

impl EventTypes {
    /// The kind that a type tag names. A tag that names no kind is read as an
    /// external trigger, which the decoder passes over.
    pub open spec fn of_tag(tag: u8) -> EventTypes {
        if tag == 0x0 {
            EventTypes::CdOff
        } else if tag == 0x1 {
            EventTypes::CdOn
        } else if tag == 0x8 {
            EventTypes::EvtTimeHigh
        } else {
            EventTypes::ExtTrigger
        }
    }
}

impl From<u8> for EventTypes {
    fn from(value: u8) -> (kind: Self) {
        match value {
            0x0 => EventTypes::CdOff,
            0x1 => EventTypes::CdOn,
            0x8 => EventTypes::EvtTimeHigh,
            0xA => EventTypes::ExtTrigger,
            _ => EventTypes::ExtTrigger,
        }
    }
}

impl vstd::std_specs::convert::FromSpecImpl<u8> for EventTypes {
    open spec fn obeys_from_spec() -> bool {
        true
    }

    open spec fn from_spec(value: u8) -> Self {
        EventTypes::of_tag(value)
    }
}

/// A word of the stream, parted into its type tag and its payload.
#[derive(Debug, Clone, Copy, PartialEq, Eq, Structural)]
pub struct RawEvent {
    pub tag: u8,
    pub pad: u32,
}

/// A time-sync word: the time in units of 64 microseconds, 28 bits wide.
#[derive(Debug, Clone, Copy, PartialEq, Eq, Structural)]
pub struct RawEventTime {
    pub tag: u8,
    pub timestamp: u32,
}

/// A pixel word: six low bits of the timestamp and two coordinates of
/// eleven bits each.
#[derive(Debug, Clone, Copy, PartialEq, Eq, Structural)]
pub struct RawEventCD {
    pub tag: u8,
    pub timestamp: u8,
    pub x: u16,
    pub y: u16,
}

impl RawEvent {
    /// The word that four bytes of a stream spell: the tag is the high
    /// nibble of the last byte, the payload the 28 bits below it.
    pub open spec fn of_bytes(b0: u8, b1: u8, b2: u8, b3: u8) -> RawEvent {
        RawEvent {
            tag: b3 / 16,
            pad: ((b3 % 16) * 0x100_0000 + b2 * 0x1_0000 + b1 * 0x100 + b0) as u32,
        }
    }

    /// The word at offset `at` of `data`.
    pub open spec fn at(data: Seq<u8>, at: int) -> RawEvent {
        RawEvent::of_bytes(data[at], data[at + 1], data[at + 2], data[at + 3])
    }

    /// The word read as a time-sync word.
    pub open spec fn as_time(self) -> RawEventTime {
        RawEventTime { tag: self.tag, timestamp: self.pad }
    }

    /// The word read as a pixel word: timestamp bits 22 to 27, x bits 11 to
    /// 21, y bits 0 to 10 of the payload.
    pub open spec fn as_cd(self) -> RawEventCD {
        RawEventCD {
            tag: self.tag,
            timestamp: ((self.pad / 0x40_0000) % 0x40) as u8,
            x: ((self.pad / 0x800) % 0x800) as u16,
            y: (self.pad % 0x800) as u16,
        }
    }

    /// Every word that bytes spell has a tag of four bits and a payload of
    /// 28 bits.
    pub open spec fn wf(self) -> bool {
        self.tag < 16 && self.pad < 0x1000_0000
    }
}

impl From<[u8; 4]> for RawEvent {
    fn from(value: [u8; 4]) -> (event: Self) {
        let b0 = value[0];
        let b1 = value[1];
        let b2 = value[2];
        let b3 = value[3];
        assert(b3 >> 4 == b3 / 16) by (bit_vector);
        assert(((b3 & 0x0F) as u32) << 24 | (b2 as u32) << 16 | (b1 as u32) << 8 | b0 as u32 == (b3
            % 16) * 0x100_0000 + b2 * 0x1_0000 + b1 * 0x100 + b0) by (bit_vector);
        RawEvent {
            tag: b3 >> 4,
            pad: ((b3 & 0x0F) as u32) << 24 | (b2 as u32) << 16 | (b1 as u32) << 8 | b0 as u32,
        }
    }
}

impl vstd::std_specs::convert::FromSpecImpl<[u8; 4]> for RawEvent {
    open spec fn obeys_from_spec() -> bool {
        true
    }

    open spec fn from_spec(value: [u8; 4]) -> Self {
        RawEvent::of_bytes(value[0], value[1], value[2], value[3])
    }
}

impl From<RawEvent> for RawEventTime {
    fn from(event: RawEvent) -> (time: Self) {
        RawEventTime { tag: event.tag, timestamp: event.pad }
    }
}

impl vstd::std_specs::convert::FromSpecImpl<RawEvent> for RawEventTime {
    open spec fn obeys_from_spec() -> bool {
        true
    }

    open spec fn from_spec(event: RawEvent) -> Self {
        event.as_time()
    }
}

impl From<RawEvent> for RawEventCD {
    fn from(event: RawEvent) -> (cd: Self) {
        let pad = event.pad;
        assert(pad & 0x7FF == pad % 0x800) by (bit_vector);
        assert((pad >> 11) & 0x7FF == (pad / 0x800) % 0x800) by (bit_vector);
        assert((pad >> 22) & 0x3F == (pad / 0x40_0000) % 0x40) by (bit_vector);
        RawEventCD {
            tag: event.tag,
            timestamp: ((pad >> 22) & 0x3F) as u8,
            x: ((pad >> 11) & 0x7FF) as u16,
            y: (pad & 0x7FF) as u16,
        }
    }
}

impl vstd::std_specs::convert::FromSpecImpl<RawEvent> for RawEventCD {
    open spec fn obeys_from_spec() -> bool {
        true
    }

    open spec fn from_spec(event: RawEvent) -> Self {
        event.as_cd()
    }
}

/// What an EVT2 decoder carries from word to word.
#[derive(Debug, Clone, Copy, PartialEq, Eq, Structural)]
pub struct Evt2State {
    pub first_time_base_set: bool,
    pub current_time_base: u64,
    pub n_time_high_loop: u64,
}

impl Evt2State {
    /// The state of a decoder that has read nothing.
    pub open spec fn initial() -> Evt2State {
        Evt2State { first_time_base_set: false, current_time_base: 0, n_time_high_loop: 0 }
    }

    /// The time base that a time-sync word with this payload gives, as a
    /// mathematical integer.
    pub open spec fn base_after(self, payload: u32) -> nat {
        next_base(
            self.current_time_base as nat,
            self.n_time_high_loop as nat,
            (payload * 64) as nat,
            TIME_LOOP as nat,
            LOOP_THRESHOLD as nat,
        )
    }

    /// The rollover count after a time-sync word with this payload.
    pub open spec fn rollovers_after(self, payload: u32) -> nat {
        next_rollovers(
            self.current_time_base as nat,
            self.n_time_high_loop as nat,
            (payload * 64) as nat,
            TIME_LOOP as nat,
            LOOP_THRESHOLD as nat,
        )
    }

    /// True when the time base is the one that a time-sync word with the
    /// payload `previous` has given.
    pub open spec fn in_step_with(self, previous: u32) -> bool {
        &&& previous < 0x1000_0000
        &&& self.current_time_base == candidate_base(
            self.n_time_high_loop as nat,
            (previous * 64) as nat,
            TIME_LOOP as nat,
        )
    }

    /// Reconstructed time keeps increasing across a wrap of the 28-bit
    /// field. Where the payload of a time-sync word is not below the payload
    /// before it, or is below it by at least `2^28 - 10`, the time base
    /// after the word is no earlier than the time base before it, and
    /// strictly later where the payload has fallen.
    pub proof fn lemma_time_high_keeps_time(self, previous: u32, payload: u32)
        requires
            self.in_step_with(previous),
            payload < 0x1000_0000,
            payload >= previous || previous - payload >= 0x1000_0000 - 10,
        ensures
            self.current_time_base <= self.base_after(payload),
            payload < previous ==> self.current_time_base < self.base_after(payload),
            self.base_after(payload) <= u64::MAX ==> self.after_time_high(payload).in_step_with(
                payload,
            ),
    {
        lemma_time_keeps_increasing(
            self.n_time_high_loop as nat,
            (previous * 64) as nat,
            (payload * 64) as nat,
            TIME_LOOP as nat,
            LOOP_THRESHOLD as nat,
        );
        if self.base_after(payload) <= u64::MAX {
            assert(self.rollovers_after(payload) * TIME_LOOP <= self.base_after(payload))
                by (nonlinear_arith)
                requires
                    self.base_after(payload) == payload * 64 + self.rollovers_after(payload)
                        * TIME_LOOP,
            ;
        }
    }

    /// The state after a time-sync word with this payload.
    pub open spec fn after_time_high(self, payload: u32) -> Evt2State {
        Evt2State {
            current_time_base: self.base_after(payload) as u64,
            n_time_high_loop: self.rollovers_after(payload) as u64,
            ..self
        }
    }

    /// The pixel event that a pixel word stands for: its timestamp is the
    /// time base plus the low bits that the word carries.
    pub open spec fn pixel(self, cd: RawEventCD, polarity: u8) -> DVSEvent {
        DVSEvent {
            timestamp: (self.current_time_base + cd.timestamp) as u64,
            x: cd.x,
            y: cd.y,
            polarity,
        }
    }

    /// True when the word cannot be decoded because the time that it gives
    /// does not fit in 64 bits.
    pub open spec fn fails(self, word: RawEvent) -> bool {
        match EventTypes::of_tag(word.tag) {
            EventTypes::CdOff | EventTypes::CdOn => self.current_time_base + word.as_cd().timestamp
                > u64::MAX,
            EventTypes::EvtTimeHigh => self.base_after(word.pad) > u64::MAX,
            EventTypes::ExtTrigger => false,
        }
    }

    /// The event that the word yields, if it yields one. A time-sync word
    /// yields a marker with its payload.
    pub open spec fn yields(self, word: RawEvent) -> Option<DVSRawEvent> {
        match EventTypes::of_tag(word.tag) {
            EventTypes::CdOff => Some(DVSRawEvent::CD(self.pixel(word.as_cd(), 0))),
            EventTypes::CdOn => Some(DVSRawEvent::CD(self.pixel(word.as_cd(), 1))),
            EventTypes::EvtTimeHigh => Some(DVSRawEvent::TimeHigh { timestamp: word.pad as u64 }),
            EventTypes::ExtTrigger => None,
        }
    }

    /// The state after the word.
    pub open spec fn after(self, word: RawEvent) -> Evt2State {
        match EventTypes::of_tag(word.tag) {
            EventTypes::EvtTimeHigh => self.after_time_high(word.pad),
            _ => self,
        }
    }
}

/// Decodes one word. Returns `None` when the word cannot be decoded, else
/// the state after the word and the event that the word yields.
pub fn decode_word(state: Evt2State, word: RawEvent) -> (r: Option<(Evt2State, Option<DVSRawEvent>)>)
    ensures
        r is None <==> state.fails(word),
        r matches Some(step) ==> step.0 == state.after(word) && step.1 == state.yields(word),
{
    match EventTypes::from(word.tag) {
        EventTypes::CdOff => {
            let ev_cd = RawEventCD::from(word);
            if state.current_time_base > u64::MAX - ev_cd.timestamp as u64 {
                return None;
            }
            let t = state.current_time_base + ev_cd.timestamp as u64;
            Some((state, Some(DVSRawEvent::CD(DVSEvent { timestamp: t, x: ev_cd.x, y: ev_cd.y, polarity: 0 }))))
        },
        EventTypes::CdOn => {
            let ev_cd = RawEventCD::from(word);
            if state.current_time_base > u64::MAX - ev_cd.timestamp as u64 {
                return None;
            }
            let t = state.current_time_base + ev_cd.timestamp as u64;
            Some((state, Some(DVSRawEvent::CD(DVSEvent { timestamp: t, x: ev_cd.x, y: ev_cd.y, polarity: 1 }))))
        },
        EventTypes::EvtTimeHigh => {
            let ev_time_high = RawEventTime::from(word);
            let mut new_time_base: u128 = (ev_time_high.timestamp as u128) * 64;
            new_time_base = new_time_base + (state.n_time_high_loop as u128) * 0x4_0000_0000;
            assert(new_time_base == candidate_base(
                state.n_time_high_loop as nat,
                (word.pad * 64) as nat,
                TIME_LOOP as nat,
            ));
            let mut rollovers: u64 = state.n_time_high_loop;
            if state.current_time_base as u128 > new_time_base && state.current_time_base as u128
                - new_time_base >= (TIME_LOOP - LOOP_THRESHOLD) as u128 {
                new_time_base = new_time_base + TIME_LOOP as u128;
                if new_time_base > u64::MAX as u128 {
                    return None;
                }
                rollovers = rollovers + 1;
            }
            if new_time_base > u64::MAX as u128 {
                return None;
            }
            let next = Evt2State {
                first_time_base_set: state.first_time_base_set,
                current_time_base: new_time_base as u64,
                n_time_high_loop: rollovers,
            };
            Some((next, Some(DVSRawEvent::TimeHigh { timestamp: ev_time_high.timestamp as u64 })))
        },
        EventTypes::ExtTrigger => Some((state, None)),
    }
}

/// What an EVT2 decoder stands for: the bytes of the stream, how many of
/// them it has consumed, its clock, and the sensor size that the preamble
/// gave.
pub struct Evt2View {
    pub source: Seq<u8>,
    pub position: nat,
    pub state: Evt2State,
    pub metadata: Metadata,
}

/// The lines of a preamble together with the decoder that has read it.
pub struct Evt2Header {
    pub lines: Seq<Seq<u8>>,
    pub after: Evt2View,
}

/// Result of one read together with the decoder after it.
pub struct Evt2Read {
    pub result: Result<Option<DVSRawEvent>, DvsError>,
    pub after: Evt2View,
}

/// Offset of the first time-sync word among the words that start at `pos`,
/// `pos + 4` and so on; `None` where the data ends before one is found.
pub open spec fn seek_time_high(data: Seq<u8>, pos: int) -> Option<int>
    decreases data.len() - pos,
{
    if pos < 0 || pos + 4 > data.len() {
        None
    } else if EventTypes::of_tag(RawEvent::at(data, pos).tag) == EventTypes::EvtTimeHigh {
        Some(pos)
    } else {
        seek_time_high(data, pos + 4)
    }
}

impl Evt2View {
    /// The word at the read position.
    pub open spec fn word(self) -> RawEvent {
        RawEvent::at(self.source, self.position as int)
    }

    /// What the next read gives. Words are decoded one by one until one
    /// yields an event; the decoder then stands behind that word. The read
    /// fails, with the decoder left before the word in question, when fewer
    /// than four bytes remain or when a word cannot be decoded.
    pub open spec fn read(self) -> Evt2Read
        decreases self.source.len() - self.position,
    {
        if self.position + 4 > self.source.len() {
            Evt2Read { result: Err(DvsError::UnexpectedEndOfStream), after: self }
        } else if self.state.fails(self.word()) {
            Evt2Read { result: Err(DvsError::Overflow), after: self }
        } else {
            let next = Evt2View {
                position: self.position + 4,
                state: self.state.after(self.word()),
                ..self
            };
            match self.state.yields(self.word()) {
                Some(event) => Evt2Read { result: Ok(Some(event)), after: next },
                None => next.read(),
            }
        }
    }

    /// A read that succeeds moves the decoder forward within its stream.
    pub proof fn lemma_read_advances(self)
        ensures
            self.read().after.source == self.source,
            self.read().after.metadata == self.metadata,
            self.read().result is Ok ==> self.position < self.read().after.position
                <= self.source.len(),
            self.read().result is Err ==> self.read().after.position >= self.position,
            !(self.read().result matches Ok(None)),
        decreases self.source.len() - self.position,
    {
        if self.position + 4 <= self.source.len() && !self.state.fails(self.word()) {
            let next = Evt2View {
                position: self.position + 4,
                state: self.state.after(self.word()),
                ..self
            };
            if self.state.yields(self.word()) is None {
                next.lemma_read_advances();
            }
        }
    }

    /// The events that reads hand out one after the other, up to the first
    /// read that fails.
    pub open spec fn events(self) -> Seq<DVSRawEvent>
        decreases self.source.len() - self.position,
    {
        match self.read().result {
            Ok(Some(event)) => {
                proof {
                    self.lemma_read_advances();
                }
                seq![event] + self.read().after.events()
            },
            _ => Seq::empty(),
        }
    }

    /// What reading the header gives: the lines of the preamble at the
    /// start of the stream and the decoder behind the first time-sync word
    /// that follows it, or the failure of the preamble, or the end of the
    /// stream where no time-sync word follows.
    pub open spec fn header(self) -> Result<Evt2Header, DvsError> {
        match preamble(
            self.source,
            StreamFormat::Evt2,
            Metadata { sensor_width: -1i32, sensor_height: -1i32 },
        ) {
            Err(e) => Err(e),
            Ok(found) => match self.seeded(found.end, found.metadata) {
                None => Err(DvsError::UnexpectedEndOfStream),
                Some(after) => Ok(Evt2Header { lines: found.lines, after }),
            },
        }
    }

    /// The decoder after its header has been read, where that succeeds: it
    /// stands behind the first time-sync word that follows the preamble, and
    /// that word alone gives its time base.
    pub open spec fn seeded(self, events_from: nat, metadata: Metadata) -> Option<Evt2View> {
        match seek_time_high(self.source, events_from as int) {
            Some(at) => Some(
                Evt2View {
                    position: (at + 4) as nat,
                    state: Evt2State {
                        first_time_base_set: true,
                        current_time_base: (RawEvent::at(self.source, at).pad * 64) as u64,
                        ..self.state
                    },
                    metadata,
                    ..self
                },
            ),
            None => None,
        }
    }
}

/// An EVT2 decoder over the bytes of a stream.
pub struct DVSRawDecoderEvt2 {
    data: Vec<u8>,
    pos: usize,
    state: Evt2State,
    metadata: Metadata,
}

impl View for DVSRawDecoderEvt2 {
    type V = Evt2View;

    closed spec fn view(&self) -> Evt2View {
        Evt2View {
            source: self.data@,
            position: self.pos as nat,
            state: self.state,
            metadata: self.metadata,
        }
    }
}

impl DVSRawDecoderEvt2 {
    /// What a decoder at the start of `data` stands for when it has read
    /// nothing.
    pub open spec fn fresh(data: Seq<u8>) -> Evt2View {
        Evt2View {
            source: data,
            position: 0,
            state: Evt2State::initial(),
            metadata: Metadata { sensor_width: -1i32, sensor_height: -1i32 },
        }
    }

    /// A decoder at the start of `data` with nothing read.
    pub fn new(data: Vec<u8>) -> (decoder: Self)
        ensures
            decoder@ == Self::fresh(data@),
    {
        Self {
            data,
            pos: 0,
            state: Evt2State { first_time_base_set: false, current_time_base: 0, n_time_high_loop: 0 },
            metadata: Metadata::default(),
        }
    }

    /// The word at offset `at` of the stream.
    fn word_at(&self, at: usize) -> (word: RawEvent)
        requires
            at + 4 <= self@.source.len(),
        ensures
            word == RawEvent::at(self@.source, at as int),
            word.wf(),
    {
        let len = self.data.len();
        assert(at + 4 <= len);
        let bytes: [u8; 4] = [
            self.data[at],
            self.data[at + 1],
            self.data[at + 2],
            self.data[at + 3],
        ];
        RawEvent::from(bytes)
    }

    /// Number of bytes of the stream that the decoder has consumed.
    pub fn position(&self) -> (position: usize)
        ensures
            position == self@.position,
    {
        self.pos
    }

    /// Size of the sensor as the header gave it.
    pub fn metadata(&self) -> (metadata: Metadata)
        ensures
            metadata == self@.metadata,
    {
        self.metadata
    }

    /// What the decoder carries from word to word.
    pub fn state(&self) -> (state: Evt2State)
        ensures
            state == self@.state,
    {
        self.state
    }

    /// Gives back the bytes of the stream.
    pub fn into_bytes(self) -> (data: Vec<u8>)
        ensures
            data@ == self@.source,
    {
        self.data
    }
}

impl DvsRawDecoder for DVSRawDecoderEvt2 {
    open spec fn remaining(&self) -> Seq<DVSRawEvent> {
        self@.events()
    }

    /// Reads the preamble from the start of the stream and takes the time
    /// base from the first time-sync word behind it. Returns the lines of
    /// the preamble. Where it fails the decoder is left as it was.
    fn read_header(&mut self) -> (r: Result<Vec<String>, DvsError>)
        ensures
            match old(self)@.header() {
                Err(e) => r matches Err(x) && x == e && final(self)@ == old(self)@,
                Ok(header) => r matches Ok(lines) && texts_of(lines@, header.lines) && final(self)@
                    == header.after,
            },
    {
        let found = match read_preamble(self.data.as_slice(), StreamFormat::Evt2, Metadata::default()) {
            Ok(found) => found,
            Err(e) => {
                return Err(e);
            },
        };
        let ghost scanned = preamble(
            self@.source,
            StreamFormat::Evt2,
            Metadata { sensor_width: -1i32, sensor_height: -1i32 },
        );
        let len = self.data.len();
        let mut at: usize = found.end;
        loop
            invariant
                at <= len,
                len == self@.source.len(),
                self@ == old(self)@,
                scanned == preamble(
                    self@.source,
                    StreamFormat::Evt2,
                    Metadata { sensor_width: -1i32, sensor_height: -1i32 },
                ),
                scanned matches Ok(h) && h.end == found.end && h.metadata == found.metadata
                    && texts_of(found.lines@, h.lines),
                seek_time_high(self@.source, at as int) == seek_time_high(
                    self@.source,
                    found.end as int,
                ),
            decreases len - at,
        {
            if len - at < 4 {
                return Err(DvsError::UnexpectedEndOfStream);
            }
            let raw_event = self.word_at(at);
            match EventTypes::from(raw_event.tag) {
                EventTypes::EvtTimeHigh => {
                    let ev_time_high = RawEventTime::from(raw_event);
                    self.state.current_time_base = (ev_time_high.timestamp as u64) * 64;
                    self.state.first_time_base_set = true;
                    self.metadata = found.metadata;
                    self.pos = at + 4;
                    return Ok(found.lines);
                },
                _ => {},
            }
            at = at + 4;
        }
    }

    /// Reads the next event of the stream: a pixel event, or the marker of
    /// a time-sync word.
    fn read_event(&mut self) -> (r: Result<Option<DVSRawEvent>, DvsError>)
        ensures
            r == old(self)@.read().result,
            final(self)@ == old(self)@.read().after,
    {
        proof {
            self@.lemma_read_advances();
        }
        let len = self.data.len();
        loop
            invariant
                len == self@.source.len(),
                self@.read() == old(self)@.read(),
            decreases len - self@.position,
        {
            if self.pos > len || len - self.pos < 4 {
                return Err(DvsError::UnexpectedEndOfStream);
            }
            let raw_event = self.word_at(self.pos);
            match decode_word(self.state, raw_event) {
                None => {
                    return Err(DvsError::Overflow);
                },
                Some((state, event)) => {
                    self.state = state;
                    self.pos = self.pos + 4;
                    if let Some(event) = event {
                        return Ok(Some(event));
                    }
                },
            }
        }
    }
}

} // verus!
