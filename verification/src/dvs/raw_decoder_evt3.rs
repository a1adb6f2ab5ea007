//! Decoder for EVT3 streams: words of two bytes, little-endian, with a
//! type tag in the high nibble of the second byte and twelve payload bits.
//!
//! Most words only set a "current" field (row, base column, polarity, time).
//! A pixel word or a vector word then yields events from those fields. A
//! vector word can yield up to twelve events, which wait in a queue and are
//! handed out one per call before the next word is read.
use crate::dvs::clock::{
    candidate_base, lemma_time_keeps_increasing, next_base, next_rollovers,
};
use crate::dvs::header::{preamble, read_preamble, texts_of, Metadata, StreamFormat};
use crate::dvs::{DVSEvent, DVSRawEvent, DvsError, DvsRawDecoder};
use std::collections::VecDeque;
use vstd::prelude::*;

verus! {

/// Period of the 12-bit coarse time field, in microseconds.
pub const TIME_LOOP: u64 = 0x100_0000;

/// A coarse time that falls back by less than `TIME_LOOP - LOOP_THRESHOLD` is
/// jitter and not a wrap of the field.
pub const LOOP_THRESHOLD: u64 = 0xA000;

/// The kinds of word in an EVT3 stream.
#[derive(Debug, Clone, Copy, PartialEq, Eq, Structural)]
pub enum EventTypes {
    EvtAddrY,
    EvtAddrX,
    VectBaseX,
    Vect12,
    Vect8,
    EvtTimeLow,
    EvtTimeHigh,
    ExtTrigger,
    Continued4,
    Continued12,
    Others,
}

impl EventTypes {
    /// The kind that a type tag names. A tag that names no kind is read as an
    /// external trigger, which the decoder passes over.
    pub open spec fn of_tag(tag: u8) -> EventTypes {
        if tag == 0x0 {
            EventTypes::EvtAddrY
        } else if tag == 0x2 {
            EventTypes::EvtAddrX
        } else if tag == 0x3 {
            EventTypes::VectBaseX
        } else if tag == 0x4 {
            EventTypes::Vect12
        } else if tag == 0x5 {
            EventTypes::Vect8
        } else if tag == 0x6 {
            EventTypes::EvtTimeLow
        } else if tag == 0x8 {
            EventTypes::EvtTimeHigh
        } else if tag == 0x7 {
            EventTypes::Continued4
        } else if tag == 0xF {
            EventTypes::Continued12
        } else if tag == 0xE {
            EventTypes::Others
        } else {
            EventTypes::ExtTrigger
        }
    }

    /// Number of pixel columns that a vector word covers; 0 for other words.
    pub open spec fn vector_width(self) -> nat {
        match self {
            EventTypes::Vect12 => 12,
            EventTypes::Vect8 => 8,
            _ => 0,
        }
    }
}

impl From<u8> for EventTypes {
    fn from(value: u8) -> (kind: Self) {
        match value {
            0x0 => EventTypes::EvtAddrY,
            0x2 => EventTypes::EvtAddrX,
            0x3 => EventTypes::VectBaseX,
            0x4 => EventTypes::Vect12,
            0x5 => EventTypes::Vect8,
            0x6 => EventTypes::EvtTimeLow,
            0x8 => EventTypes::EvtTimeHigh,
            0xA => EventTypes::ExtTrigger,
            0x7 => EventTypes::Continued4,
            0xF => EventTypes::Continued12,
            0xE => EventTypes::Others,
            _ => EventTypes::ExtTrigger,
        }
    }
}

impl vstd::std_specs::convert::FromSpecImpl<u8> for EventTypes {
    open spec fn obeys_from_spec() -> bool {
        true
    }

    open spec fn from_spec(value: u8) -> Self {
        EventTypes::of_tag(value)
    }
}

/// The type tag of a word: the high nibble of its second byte.
pub open spec fn word_tag(high: u8) -> u8 {
    high / 16
}

/// The twelve payload bits of a word: the low nibble of the second byte
/// above the whole first byte.
pub open spec fn word_payload(low: u8, high: u8) -> u16 {
    ((high % 16) * 256 + low) as u16
}

/// The events of a vector word: one for each set bit of `mask` among its
/// lowest `width` bits, the lowest bit first. Bit `i` stands for the pixel
/// column `column + i`.
pub open spec fn vector_events(
    time: u64,
    column: nat,
    y: u16,
    polarity: u8,
    mask: nat,
    width: nat,
) -> Seq<DVSEvent>
    decreases width,
{
    if width == 0 {
        Seq::empty()
    } else {
        let rest = vector_events(time, column + 1, y, polarity, mask / 2, (width - 1) as nat);
        if mask % 2 == 1 {
            seq![DVSEvent { timestamp: time, x: column as u16, y, polarity }] + rest
        } else {
            rest
        }
    }
}

/// The events of a vector word come in ascending order of their columns,
/// which lie within the columns that the word covers, and share the time,
/// the row and the polarity.
pub proof fn lemma_vector_events_ascending(
    time: u64,
    column: nat,
    y: u16,
    polarity: u8,
    mask: nat,
    width: nat,
)
    requires
        column + width <= 0x1_0000,
    ensures
        vector_events(time, column, y, polarity, mask, width).len() <= width,
        forall|k: int|
            0 <= k < vector_events(time, column, y, polarity, mask, width).len() ==> {
                let event = #[trigger] vector_events(time, column, y, polarity, mask, width)[k];
                &&& event.timestamp == time
                &&& event.y == y
                &&& event.polarity == polarity
                &&& column + k <= event.x < column + width
            },
        forall|a: int, b: int|
            0 <= a < b < vector_events(time, column, y, polarity, mask, width).len()
                ==> vector_events(time, column, y, polarity, mask, width)[a].x < vector_events(
                time,
                column,
                y,
                polarity,
                mask,
                width,
            )[b].x,
    decreases width,
{
    if width > 0 {
        let all = vector_events(time, column, y, polarity, mask, width);
        let rest = vector_events(time, column + 1, y, polarity, mask / 2, (width - 1) as nat);
        lemma_vector_events_ascending(time, column + 1, y, polarity, mask / 2, (width - 1) as nat);
        if mask % 2 == 1 {
            let first = DVSEvent { timestamp: time, x: column as u16, y, polarity };
            assert(all == seq![first] + rest);
            assert forall|k: int| 0 <= k < all.len() implies ({
                let event = #[trigger] all[k];
                &&& event.timestamp == time
                &&& event.y == y
                &&& event.polarity == polarity
                &&& column + k <= event.x < column + width
            }) by {
                if k > 0 {
                    assert(all[k] == rest[k - 1]);
                }
            }
            assert forall|a: int, b: int| 0 <= a < b < all.len() implies all[a].x < all[b].x by {
                assert(all[b] == rest[b - 1]);
                if a > 0 {
                    assert(all[a] == rest[a - 1]);
                }
            }
        } else {
            assert(all == rest);
        }
    }
}

/// The "current" fields that an EVT3 decoder carries from word to word.
#[derive(Debug, Clone, Copy, PartialEq, Eq, Structural)]
pub struct Evt3State {
    pub first_time_base_set: bool,
    pub current_time_base: u64,
    pub current_time_low: u32,
    pub current_time: u64,
    pub current_ev_addr_y: u16,
    pub current_base_x: u16,
    pub current_polarity: u8,
    pub n_time_high_loop: u64,
}

impl Evt3State {
    /// The state of a decoder that has read nothing.
    pub open spec fn initial() -> Evt3State {
        Evt3State {
            first_time_base_set: false,
            current_time_base: 0,
            current_time_low: 0,
            current_time: 0,
            current_ev_addr_y: 0,
            current_base_x: 0,
            current_polarity: 0,
            n_time_high_loop: 0,
        }
    }

    /// The time base that a coarse time word with this payload gives, as a
    /// mathematical integer.
    pub open spec fn base_after(self, payload: u16) -> nat {
        next_base(
            self.current_time_base as nat,
            self.n_time_high_loop as nat,
            (payload * 0x1000) as nat,
            TIME_LOOP as nat,
            LOOP_THRESHOLD as nat,
        )
    }

    /// The rollover count after a coarse time word with this payload.
    pub open spec fn rollovers_after(self, payload: u16) -> nat {
        next_rollovers(
            self.current_time_base as nat,
            self.n_time_high_loop as nat,
            (payload * 0x1000) as nat,
            TIME_LOOP as nat,
            LOOP_THRESHOLD as nat,
        )
    }

    /// True when the time base is the one that a coarse time word with the
    /// payload `previous` has given.
    pub open spec fn in_step_with(self, previous: u16) -> bool {
        &&& previous < 0x1000
        &&& self.current_time_base == candidate_base(
            self.n_time_high_loop as nat,
            (previous * 0x1000) as nat,
            TIME_LOOP as nat,
        )
    }

    /// Reconstructed time keeps increasing across a wrap of the 12-bit
    /// field. Where the payload of a coarse time word is not below the
    /// payload before it, or is below it by at least `2^12 - 10`, the time
    /// base after the word is no earlier than the time base before it, and
    /// strictly later where the payload has fallen.
    pub proof fn lemma_time_high_keeps_time(self, previous: u16, payload: u16)
        requires
            self.in_step_with(previous),
            payload < 0x1000,
            payload >= previous || previous - payload >= 0x1000 - 10,
        ensures
            self.current_time_base <= self.base_after(payload),
            payload < previous ==> self.current_time_base < self.base_after(payload),
            self.base_after(payload) <= u64::MAX ==> self.after(
                EventTypes::EvtTimeHigh,
                payload,
            ).in_step_with(payload),
    {
        lemma_time_keeps_increasing(
            self.n_time_high_loop as nat,
            (previous * 0x1000) as nat,
            (payload * 0x1000) as nat,
            TIME_LOOP as nat,
            LOOP_THRESHOLD as nat,
        );
        if self.base_after(payload) <= u64::MAX {
            assert(self.rollovers_after(payload) * TIME_LOOP <= self.base_after(payload))
                by (nonlinear_arith)
                requires
                    self.base_after(payload) == payload * 0x1000 + self.rollovers_after(payload)
                        * TIME_LOOP,
            ;
        }
    }

    /// True when the word cannot be applied, because a value that it sets
    /// would not fit its integer type: the base column after a vector word,
    /// or the time after a time word.
    pub open spec fn fails(self, kind: EventTypes, payload: u16) -> bool {
        match kind {
            EventTypes::Vect12 | EventTypes::Vect8 => self.current_base_x + kind.vector_width()
                > u16::MAX,
            EventTypes::EvtTimeHigh => self.base_after(payload) > u64::MAX,
            EventTypes::EvtTimeLow => self.current_time_base + payload > u64::MAX,
            _ => false,
        }
    }

    /// The events that the word yields, in the order in which they are handed
    /// out.
    pub open spec fn yields(self, kind: EventTypes, payload: u16) -> Seq<DVSEvent> {
        match kind {
            EventTypes::EvtAddrX => seq![
                DVSEvent {
                    timestamp: self.current_time,
                    x: payload % 0x800,
                    y: self.current_ev_addr_y,
                    polarity: (payload / 0x800) as u8,
                },
            ],
            EventTypes::Vect12 => vector_events(
                self.current_time,
                self.current_base_x as nat,
                self.current_ev_addr_y,
                self.current_polarity,
                payload as nat,
                12,
            ),
            EventTypes::Vect8 => vector_events(
                self.current_time,
                self.current_base_x as nat,
                self.current_ev_addr_y,
                self.current_polarity,
                (payload % 0x100) as nat,
                8,
            ),
            _ => Seq::empty(),
        }
    }

    /// The state after the word.
    pub open spec fn after(self, kind: EventTypes, payload: u16) -> Evt3State {
        match kind {
            EventTypes::EvtAddrY => Evt3State { current_ev_addr_y: payload % 0x800, ..self },
            EventTypes::VectBaseX => Evt3State {
                current_base_x: payload % 0x800,
                current_polarity: (payload / 0x800) as u8,
                ..self
            },
            EventTypes::Vect12 | EventTypes::Vect8 => Evt3State {
                current_base_x: (self.current_base_x + kind.vector_width()) as u16,
                ..self
            },
            EventTypes::EvtTimeLow => Evt3State {
                current_time_low: payload as u32,
                current_time: (self.current_time_base + payload) as u64,
                ..self
            },
            EventTypes::EvtTimeHigh => Evt3State {
                current_time_base: self.base_after(payload) as u64,
                current_time: self.base_after(payload) as u64,
                n_time_high_loop: self.rollovers_after(payload) as u64,
                ..self
            },
            _ => self,
        }
    }
}

/// Appends to `queue` the events of a vector word.
fn expand_vector(
    queue: &mut VecDeque<DVSEvent>,
    time: u64,
    column: u16,
    y: u16,
    polarity: u8,
    mask: u16,
    width: u16,
)
    requires
        column + width <= u16::MAX,
    ensures
        final(queue)@ == old(queue)@ + vector_events(
            time,
            column as nat,
            y,
            polarity,
            mask as nat,
            width as nat,
        ),
{
    let mut valid: u16 = mask;
    let mut i: u16 = 0;
    while i < width
        invariant
            i <= width,
            column + width <= u16::MAX,
            queue@ + vector_events(
                time,
                (column + i) as nat,
                y,
                polarity,
                valid as nat,
                (width - i) as nat,
            ) == old(queue)@ + vector_events(
                time,
                column as nat,
                y,
                polarity,
                mask as nat,
                width as nat,
            ),
        decreases width - i,
    {
        let ghost before = queue@;
        let ghost rest = vector_events(
            time,
            (column + i + 1) as nat,
            y,
            polarity,
            (valid / 2) as nat,
            (width - i - 1) as nat,
        );
        if valid % 2 == 1 {
            let event = DVSEvent { timestamp: time, x: column + i, y, polarity };
            queue.push_back(event);
            assert(queue@ + rest == before + (seq![event] + rest));
        }
        valid = valid / 2;
        i = i + 1;
    }
}

/// Applies one word to the state and appends the events that it yields to
/// `queue`. Returns `None`, with the queue as it was, when the word cannot be
/// applied.
fn apply_word(state: Evt3State, kind: EventTypes, payload: u16, queue: &mut VecDeque<DVSEvent>) -> (next:
    Option<Evt3State>)
    requires
        payload < 0x1000,
    ensures
        next is None <==> state.fails(kind, payload),
        next is None ==> final(queue)@ == old(queue)@,
        next matches Some(s) ==> s == state.after(kind, payload) && final(queue)@ == old(queue)@
            + state.yields(kind, payload),
{
    let mut s = state;
    match kind {
        EventTypes::EvtAddrX => {
            queue.push_back(
                DVSEvent {
                    timestamp: s.current_time,
                    x: payload % 0x800,
                    y: s.current_ev_addr_y,
                    polarity: (payload / 0x800) as u8,
                },
            );
        },
        EventTypes::Vect12 => {
            if s.current_base_x > u16::MAX - 12 {
                return None;
            }
            expand_vector(
                queue,
                s.current_time,
                s.current_base_x,
                s.current_ev_addr_y,
                s.current_polarity,
                payload,
                12,
            );
            s.current_base_x = s.current_base_x + 12;
        },
        EventTypes::Vect8 => {
            if s.current_base_x > u16::MAX - 8 {
                return None;
            }
            expand_vector(
                queue,
                s.current_time,
                s.current_base_x,
                s.current_ev_addr_y,
                s.current_polarity,
                payload % 0x100,
                8,
            );
            s.current_base_x = s.current_base_x + 8;
        },
        EventTypes::EvtAddrY => {
            s.current_ev_addr_y = payload % 0x800;
        },
        EventTypes::VectBaseX => {
            s.current_polarity = (payload / 0x800) as u8;
            s.current_base_x = payload % 0x800;
        },
        EventTypes::EvtTimeHigh => {
            let mut new_time_base: u128 = (payload as u128) * 0x1000;
            new_time_base = new_time_base + (s.n_time_high_loop as u128) * 0x100_0000;
            assert(new_time_base == candidate_base(
                s.n_time_high_loop as nat,
                (payload * 0x1000) as nat,
                TIME_LOOP as nat,
            ));
            let mut rollovers: u64 = s.n_time_high_loop;
            if s.current_time_base as u128 > new_time_base && s.current_time_base as u128
                - new_time_base >= (TIME_LOOP - LOOP_THRESHOLD) as u128 {
                new_time_base = new_time_base + TIME_LOOP as u128;
                if new_time_base > u64::MAX as u128 {
                    return None;
                }
                rollovers = rollovers + 1;
            }
            if new_time_base > u64::MAX as u128 {
                return None;
            }
            s.n_time_high_loop = rollovers;
            s.current_time_base = new_time_base as u64;
            s.current_time = s.current_time_base;
        },
        EventTypes::EvtTimeLow => {
            if s.current_time_base > u64::MAX - payload as u64 {
                return None;
            }
            s.current_time_low = payload as u32;
            s.current_time = s.current_time_base + s.current_time_low as u64;
        },
        _ => {},
    }
    assert(queue@ == old(queue)@ + state.yields(kind, payload));
    Some(s)
}

/// What an EVT3 decoder stands for: the bytes of the stream, how many of
/// them it has consumed, its current fields, the events that wait to be
/// handed out, and the sensor size that the preamble gave.
pub struct Evt3View {
    pub source: Seq<u8>,
    pub position: nat,
    pub state: Evt3State,
    pub pending: Seq<DVSEvent>,
    pub metadata: Metadata,
}

/// The sensor size that an EVT3 decoder takes where the preamble gives
/// none.
pub open spec fn default_metadata() -> Metadata {
    Metadata { sensor_width: 1280i32, sensor_height: 720i32 }
}

/// Offset of the first coarse time word among the words that start at
/// `pos`, `pos + 2` and so on; `None` where the data ends before one is
/// found.
pub open spec fn seek_time_high(data: Seq<u8>, pos: int) -> Option<int>
    decreases data.len() - pos,
{
    if pos < 0 || pos + 2 > data.len() {
        None
    } else if EventTypes::of_tag(word_tag(data[pos + 1])) == EventTypes::EvtTimeHigh {
        Some(pos)
    } else {
        seek_time_high(data, pos + 2)
    }
}

/// The lines of a preamble together with the decoder that has read it.
pub struct Evt3Header {
    pub lines: Seq<Seq<u8>>,
    pub after: Evt3View,
}

/// Result of one read together with the decoder after it.
pub struct Evt3Read {
    pub result: Result<Option<DVSRawEvent>, DvsError>,
    pub after: Evt3View,
}

impl Evt3View {
    /// The kind of the word at the read position.
    pub open spec fn kind(self) -> EventTypes {
        EventTypes::of_tag(word_tag(self.source[self.position as int + 1]))
    }

    /// The payload of the word at the read position.
    pub open spec fn payload(self) -> u16 {
        word_payload(self.source[self.position as int], self.source[self.position as int + 1])
    }

    /// The decoder after the word at the read position has been applied: the
    /// events of the word wait in the queue.
    pub open spec fn advance(self) -> Evt3View {
        Evt3View {
            position: self.position + 2,
            state: self.state.after(self.kind(), self.payload()),
            pending: self.state.yields(self.kind(), self.payload()),
            ..self
        }
    }

    /// A read that succeeds moves the decoder forward within its stream, or
    /// leaves it in place with one waiting event fewer.
    pub proof fn lemma_read_advances(self)
        ensures
            self.read().after.source == self.source,
            self.read().after.metadata == self.metadata,
            self.read().result is Ok ==> {
                ||| self.position < self.read().after.position <= self.source.len()
                ||| self.position == self.read().after.position && self.read().after.pending.len()
                    < self.pending.len()
            },
            !(self.read().result matches Ok(None)),
        decreases self.source.len() - self.position, self.pending.len(),
    {
        if self.pending.len() == 0 && self.position + 2 <= self.source.len() && !self.state.fails(
            self.kind(),
            self.payload(),
        ) {
            self.advance().lemma_read_advances();
        }
    }

    /// The events that reads hand out one after the other, up to the first
    /// read that fails.
    pub open spec fn events(self) -> Seq<DVSRawEvent>
        decreases self.source.len() - self.position, self.pending.len(),
    {
        match self.read().result {
            Ok(Some(event)) => {
                proof {
                    self.lemma_read_advances();
                }
                seq![event] + self.read().after.events()
            },
            _ => Seq::empty(),
        }
    }

    /// What reading the header gives: the lines of the preamble at the
    /// start of the stream and the decoder behind the words that give its
    /// time, or the failure of the preamble, or the end of the stream where
    /// those words are missing.
    pub open spec fn header(self) -> Result<Evt3Header, DvsError> {
        match preamble(self.source, StreamFormat::Evt3, default_metadata()) {
            Err(e) => Err(e),
            Ok(found) => match self.seeded(found.end, found.metadata) {
                None => Err(DvsError::UnexpectedEndOfStream),
                Some(after) => Ok(Evt3Header { lines: found.lines, after }),
            },
        }
    }

    /// The decoder after its header has been read, where that succeeds. The
    /// first coarse time word behind the preamble and the word that follows
    /// it give the time: the first the coarse part, the second the twelve
    /// bits below it. The decoder stands behind both. Without such a pair of
    /// words there is no such decoder.
    pub open spec fn seeded(self, events_from: nat, metadata: Metadata) -> Option<Evt3View> {
        match seek_time_high(self.source, events_from as int) {
            Some(at) => if at + 4 <= self.source.len() {
                let time = (word_payload(self.source[at], self.source[at + 1]) * 0x1000
                    + word_payload(self.source[at + 2], self.source[at + 3])) as u64;
                Some(
                    Evt3View {
                        position: (at + 4) as nat,
                        state: Evt3State {
                            first_time_base_set: true,
                            current_time_base: time,
                            current_time: time,
                            ..self.state
                        },
                        metadata,
                        ..self
                    },
                )
            } else {
                None
            },
            None => None,
        }
    }

    /// What the next read gives. A waiting event is handed out first.
    /// Otherwise words are applied one by one until one yields an event. The
    /// read fails, with the decoder left before the word in question, when
    /// fewer than two bytes remain or when a word cannot be applied.
    pub open spec fn read(self) -> Evt3Read
        decreases self.source.len() - self.position, self.pending.len(),
    {
        if self.pending.len() > 0 {
            Evt3Read {
                result: Ok(Some(DVSRawEvent::CD(self.pending[0]))),
                after: Evt3View { pending: self.pending.drop_first(), ..self },
            }
        } else if self.position + 2 > self.source.len() {
            Evt3Read { result: Err(DvsError::UnexpectedEndOfStream), after: self }
        } else if self.state.fails(self.kind(), self.payload()) {
            Evt3Read { result: Err(DvsError::Overflow), after: self }
        } else {
            self.advance().read()
        }
    }
}

/// An EVT3 decoder over the bytes of a stream.
pub struct DVSRawDecoderEvt3 {
    data: Vec<u8>,
    pos: usize,
    state: Evt3State,
    event_queue: VecDeque<DVSEvent>,
    metadata: Metadata,
}

impl View for DVSRawDecoderEvt3 {
    type V = Evt3View;

    closed spec fn view(&self) -> Evt3View {
        Evt3View {
            source: self.data@,
            position: self.pos as nat,
            state: self.state,
            pending: self.event_queue@,
            metadata: self.metadata,
        }
    }
}

impl DVSRawDecoderEvt3 {
    /// What a decoder at the start of `data` stands for when it has read
    /// nothing.
    pub open spec fn fresh(data: Seq<u8>) -> Evt3View {
        Evt3View {
            source: data,
            position: 0,
            state: Evt3State::initial(),
            pending: Seq::empty(),
            metadata: default_metadata(),
        }
    }

    /// A decoder at the start of `data` with nothing read.
    pub fn new(data: Vec<u8>) -> (decoder: Self)
        ensures
            decoder@ == Self::fresh(data@),
    {
        Self {
            data,
            pos: 0,
            state: Evt3State {
                first_time_base_set: false,
                current_time_base: 0,
                current_time_low: 0,
                current_time: 0,
                current_ev_addr_y: 0,
                current_base_x: 0,
                current_polarity: 0,
                n_time_high_loop: 0,
            },
            event_queue: VecDeque::new(),
            metadata: Metadata { sensor_width: 1280, sensor_height: 720 },
        }
    }

    /// Number of bytes of the stream that the decoder has consumed.
    pub fn position(&self) -> (position: usize)
        ensures
            position == self@.position,
    {
        self.pos
    }

    /// Size of the sensor as the header gave it.
    pub fn metadata(&self) -> (metadata: Metadata)
        ensures
            metadata == self@.metadata,
    {
        self.metadata
    }

    /// What the decoder carries from word to word.
    pub fn state(&self) -> (state: Evt3State)
        ensures
            state == self@.state,
    {
        self.state
    }

    /// Gives back the bytes of the stream.
    pub fn into_bytes(self) -> (data: Vec<u8>)
        ensures
            data@ == self@.source,
    {
        self.data
    }
}

impl DvsRawDecoder for DVSRawDecoderEvt3 {
    open spec fn remaining(&self) -> Seq<DVSRawEvent> {
        self@.events()
    }

    /// Reads the preamble from the start of the stream and takes the time
    /// from the first coarse time word behind it and the word that follows.
    /// Returns the lines of the preamble. Where it fails the decoder is left
    /// as it was.
    fn read_header(&mut self) -> (r: Result<Vec<String>, DvsError>)
        ensures
            match old(self)@.header() {
                Err(e) => r matches Err(x) && x == e && final(self)@ == old(self)@,
                Ok(header) => r matches Ok(lines) && texts_of(lines@, header.lines) && final(self)@
                    == header.after,
            },
    {
        let initial = Metadata { sensor_width: 1280, sensor_height: 720 };
        let found = match read_preamble(self.data.as_slice(), StreamFormat::Evt3, initial) {
            Ok(found) => found,
            Err(e) => {
                return Err(e);
            },
        };
        let ghost scanned = preamble(self@.source, StreamFormat::Evt3, default_metadata());
        let len = self.data.len();
        let mut at: usize = found.end;
        loop
            invariant
                at <= len,
                len == self.data@.len(),
                self@ == old(self)@,
                scanned == preamble(self@.source, StreamFormat::Evt3, default_metadata()),
                scanned matches Ok(h) && h.end == found.end && h.metadata == found.metadata
                    && texts_of(found.lines@, h.lines),
                seek_time_high(self@.source, at as int) == seek_time_high(
                    self@.source,
                    found.end as int,
                ),
            decreases len - at,
        {
            if len - at < 2 {
                return Err(DvsError::UnexpectedEndOfStream);
            }
            let high = self.data[at + 1];
            match EventTypes::from(high / 16) {
                EventTypes::EvtTimeHigh => {
                    if len - at < 4 {
                        return Err(DvsError::UnexpectedEndOfStream);
                    }
                    let coarse: u16 = ((high % 16) as u16) * 256 + self.data[at] as u16;
                    let fine: u16 = ((self.data[at + 3] % 16) as u16) * 256 + self.data[at + 2] as u16;
                    self.state.current_time_base = (coarse as u64) * 0x1000 + fine as u64;
                    self.state.current_time = self.state.current_time_base;
                    self.state.first_time_base_set = true;
                    self.metadata = found.metadata;
                    self.pos = at + 4;
                    return Ok(found.lines);
                },
                _ => {},
            }
            at = at + 2;
        }
    }

    /// Hands out the next pixel event of the stream.
    fn read_event(&mut self) -> (r: Result<Option<DVSRawEvent>, DvsError>)
        ensures
            r == old(self)@.read().result,
            final(self)@ == old(self)@.read().after,
    {
        proof {
            self@.lemma_read_advances();
        }
        if let Some(event) = self.event_queue.pop_front() {
            return Ok(Some(DVSRawEvent::CD(event)));
        }
        let mut pos = self.pos;
        let mut state = self.state;
        let len = self.data.len();
        let ghost start = self@;
        loop
            invariant
                len == self.data@.len(),
                self.event_queue@.len() == 0,
                self@ == start,
                start == old(self)@,
                start.pending.len() == 0,
                (Evt3View { position: pos as nat, state, ..start }).read() == start.read(),
            decreases len - pos,
        {
            let ghost here = Evt3View { position: pos as nat, state, ..start };
            if pos > len || len - pos < 2 {
                self.pos = pos;
                self.state = state;
                return Err(DvsError::UnexpectedEndOfStream);
            }
            let low = self.data[pos];
            let high = self.data[pos + 1];
            let kind = EventTypes::from(high / 16);
            let payload: u16 = ((high % 16) as u16) * 256 + low as u16;
            assert(kind == here.kind() && payload == here.payload());
            match apply_word(state, kind, payload, &mut self.event_queue) {
                None => {
                    self.pos = pos;
                    self.state = state;
                    return Err(DvsError::Overflow);
                },
                Some(next) => {
                    state = next;
                    pos = pos + 2;
                },
            }
            let ghost advanced = here.advance();
            assert(advanced == (Evt3View {
                position: pos as nat,
                state,
                pending: self.event_queue@,
                ..start
            }));
            assert(here.read() == advanced.read());
            if let Some(event) = self.event_queue.pop_front() {
                self.pos = pos;
                self.state = state;
                assert(self.event_queue@ == advanced.pending.drop_first());
                return Ok(Some(DVSRawEvent::CD(event)));
            }
            assert(advanced.pending == start.pending);
        }
    }
}

} // verus!
