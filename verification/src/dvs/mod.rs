//! The event model shared by all stream formats.
use crate::dvs::header::{range_equals, texts_of};
use crate::dvs::raw_decoder_dat::{DVSRawDecoderDat, DatView};
use crate::dvs::raw_decoder_evt2::{DVSRawDecoderEvt2, Evt2View};
use crate::dvs::raw_decoder_evt3::{DVSRawDecoderEvt3, Evt3View};
use crate::dvs::raw_encoder_evt2::{header_bytes, DVSRawEncoderEvt2, Evt2EncoderView};
use vstd::prelude::*;
use vstd::string::StringSliceAdditionalSpecFns;

pub mod clock;
pub mod header;
pub mod packing;
pub mod raw_decoder_dat;
pub mod raw_decoder_evt2;
pub mod raw_decoder_evt3;
pub mod raw_encoder_evt2;
pub mod round_trip;

verus! {

/// Why a stream could not be read.
#[derive(Debug, Copy, Clone, PartialEq, Eq, Structural)]
pub enum DvsError {
    /// The file name carries no extension that names a known format.
    UnsupportedFormat,
    /// The header declares a format or a version that the decoder at hand
    /// does not read. Another decoder may.
    IncompatibleVersion,
    /// A header directive lacks a part, or a value in it is no number.
    MalformedHeader,
    /// Fewer bytes than one word were left where an event was expected.
    UnexpectedEndOfStream,
    /// A reconstructed timestamp or pixel column is larger than its integer
    /// type can hold.
    Overflow,
}

/// Microseconds since the start of a recording.
pub type Timestamp = u64;

/// One change-detection event: the pixel at (`x`, `y`) changed brightness at
/// `timestamp`, upwards when `polarity` is 1 and downwards when it is 0.
#[derive(Debug, Copy, Clone, PartialEq, Eq, Structural)]
pub struct DVSEvent {
    pub timestamp: u64,
    pub x: u16,
    pub y: u16,
    pub polarity: u8,
}

impl Default for DVSEvent {
    fn default() -> (ev: Self)
        ensures
            ev == (DVSEvent { timestamp: 0, x: 0, y: 0, polarity: 0 }),
    {
        DVSEvent { timestamp: 0, x: 0, y: 0, polarity: 0 }
    }
}

/// What a decoder yields and an encoder accepts: a pixel event, or a
/// time-sync marker that carries the coarse part of the clock.
#[derive(Debug, Copy, Clone, PartialEq, Eq, Structural)]
pub enum DVSRawEvent {
    CD(DVSEvent),
    TimeHigh { timestamp: Timestamp },
}

/// A decoder of one stream format: it reads the header once and then hands
/// out the events of the stream, one per call.
pub trait DvsRawDecoder: Sized {
    /// The events that the decoder will hand out from now on: those of one
    /// read after the other, up to the first read that gives none.
    spec fn remaining(&self) -> Seq<DVSRawEvent>;

    /// Reads the header of the stream and returns its lines. A header that
    /// cannot be read leaves the events that remain as they were.
    fn read_header(&mut self) -> (r: Result<Vec<String>, DvsError>)
        ensures
            r is Err ==> final(self).remaining() == old(self).remaining(),
    ;

    /// Reads the next event: the first of those that remain. A failure, or
    /// `Ok(None)`, says that the decoder has no further event to give.
    fn read_event(&mut self) -> (r: Result<Option<DVSRawEvent>, DvsError>)
        ensures
            match r {
                Ok(Some(event)) => old(self).remaining() == seq![event] + final(self).remaining(),
                _ => old(self).remaining() == Seq::<DVSRawEvent>::empty(),
            },
    ;
}

/// An encoder of one stream format: it takes the lines of a header and then
/// the events of the stream, one per call.
pub trait DvsRawEncoder: Sized {
    /// The bytes that the encoder has written and not yet handed out.
    spec fn written(&self) -> Seq<u8>;

    /// Writes the lines of a header as they are, one after the other.
    fn write_header(&mut self, header: Vec<String>)
        ensures
            final(self).written() == old(self).written() + header_bytes(header@),
    ;

    /// Writes one event behind what is written and returns the number of
    /// words that it took, which is at least one. The coordinates of a pixel
    /// event must fit the wire.
    fn write_event(&mut self, event: DVSRawEvent) -> (words: u64)
        requires
            event.fits_wire(),
        ensures
            old(self).written().is_prefix_of(final(self).written()),
            final(self).written().len() > old(self).written().len(),
            words >= 1,
    ;
}

impl DVSRawEvent {
    /// The time that the event stands for, as a mathematical integer: the
    /// timestamp of a pixel event, and for a marker its payload in
    /// microseconds, reduced to 64 bits.
    pub open spec fn spec_timestamp(self) -> nat {
        match self {
            DVSRawEvent::CD(ev) => ev.timestamp as nat,
            DVSRawEvent::TimeHigh { timestamp } => ((timestamp * 64) % 0x1_0000_0000_0000_0000) as nat,
        }
    }

    /// True when the event can stand on the wire: the coordinates of a pixel
    /// event take no more than eleven bits each.
    pub open spec fn fits_wire(self) -> bool {
        self matches DVSRawEvent::CD(ev) ==> ev.x < 0x800 && ev.y < 0x800
    }

    /// Tells whether the event can stand on the wire.
    pub fn check_fits_wire(&self) -> (fits: bool)
        ensures
            fits == self.fits_wire(),
    {
        match self {
            DVSRawEvent::CD(ev) => ev.x < 0x800 && ev.y < 0x800,
            DVSRawEvent::TimeHigh { .. } => true,
        }
    }

    /// True for a time-sync marker.
    pub open spec fn is_marker(self) -> bool {
        self is TimeHigh
    }

    /// Time of the event in microseconds.
    pub fn timestamp(&self) -> (t: Timestamp)
        ensures
            t == self.spec_timestamp(),
    {
        match self {
            DVSRawEvent::CD(ev) => ev.timestamp,
            DVSRawEvent::TimeHigh { timestamp } => {
                let ts: u64 = *timestamp;
                assert(ts << 6 == (ts * 64) % 0x1_0000_0000_0000_0000) by (bit_vector);
                ts << 6
            },
        }
    }
}

/// A decoder of any of the formats.
pub enum DvsRawDecoderEnum {
    Evt2(DVSRawDecoderEvt2),
    Evt3(DVSRawDecoderEvt3),
    Dat(DVSRawDecoderDat),
}

/// What a decoder of any format stands for.
pub enum DecoderView {
    Evt2(Evt2View),
    Evt3(Evt3View),
    Dat(DatView),
}

/// The lines of a header together with the decoder that has read it.
pub struct DecoderHeader {
    pub lines: Seq<Seq<u8>>,
    pub after: DecoderView,
}

/// Result of one read together with the decoder after it.
pub struct DecoderRead {
    pub result: Result<Option<DVSRawEvent>, DvsError>,
    pub after: DecoderView,
}

impl DecoderView {
    /// What reading the header gives, by the rules of the decoder's format.
    pub open spec fn header(self) -> Result<DecoderHeader, DvsError> {
        match self {
            DecoderView::Evt2(v) => match v.header() {
                Ok(h) => Ok(DecoderHeader { lines: h.lines, after: DecoderView::Evt2(h.after) }),
                Err(e) => Err(e),
            },
            DecoderView::Evt3(v) => match v.header() {
                Ok(h) => Ok(DecoderHeader { lines: h.lines, after: DecoderView::Evt3(h.after) }),
                Err(e) => Err(e),
            },
            DecoderView::Dat(v) => match v.header() {
                Ok(h) => Ok(
                    DecoderHeader {
                        lines: h.lines,
                        after: DecoderView::Dat(
                            DatView { position: h.end, metadata: h.metadata, ..v },
                        ),
                    },
                ),
                Err(e) => Err(e),
            },
        }
    }

    /// What the next read gives, by the rules of the decoder's format. A DAT
    /// decoder gives no event.
    pub open spec fn read(self) -> DecoderRead {
        match self {
            DecoderView::Evt2(v) => DecoderRead {
                result: v.read().result,
                after: DecoderView::Evt2(v.read().after),
            },
            DecoderView::Evt3(v) => DecoderRead {
                result: v.read().result,
                after: DecoderView::Evt3(v.read().after),
            },
            DecoderView::Dat(v) => DecoderRead { result: Ok(None), after: self },
        }
    }

    /// The events that reads hand out one after the other, up to the first
    /// read that fails or gives none.
    pub open spec fn events(self) -> Seq<DVSRawEvent> {
        match self {
            DecoderView::Evt2(v) => v.events(),
            DecoderView::Evt3(v) => v.events(),
            DecoderView::Dat(v) => Seq::empty(),
        }
    }

    /// How the events of a decoder follow from its next read: a read that
    /// gives an event gives the first of them and leaves a decoder with the
    /// others, which has fewer bytes to read or as many and fewer events
    /// waiting. A read that gives no event ends them.
    pub proof fn lemma_events_step(self)
        ensures
            self.read().result matches Ok(Some(event)) ==> {
                &&& self.events() == seq![event] + self.read().after.events()
                &&& {
                    ||| 0 <= self.read().after.unread() < self.unread()
                    ||| self.read().after.unread() == self.unread() && self.read().after.waiting()
                        < self.waiting()
                }
            },
            !(self.read().result matches Ok(Some(_))) ==> self.events() == Seq::<
                DVSRawEvent,
            >::empty(),
    {
        match self {
            DecoderView::Evt2(v) => {
                v.lemma_read_advances();
            },
            DecoderView::Evt3(v) => {
                v.lemma_read_advances();
            },
            DecoderView::Dat(v) => {},
        }
    }

    /// Number of bytes of the stream that the decoder has not consumed.
    pub open spec fn unread(self) -> int {
        match self {
            DecoderView::Evt2(v) => v.source.len() - v.position,
            DecoderView::Evt3(v) => v.source.len() - v.position,
            DecoderView::Dat(v) => v.source.len() - v.position,
        }
    }

    /// Number of decoded events that wait to be handed out.
    pub open spec fn waiting(self) -> nat {
        match self {
            DecoderView::Evt3(v) => v.pending.len(),
            _ => 0,
        }
    }
}

impl View for DvsRawDecoderEnum {
    type V = DecoderView;

    open spec fn view(&self) -> DecoderView {
        match self {
            DvsRawDecoderEnum::Evt2(decoder) => DecoderView::Evt2(decoder@),
            DvsRawDecoderEnum::Evt3(decoder) => DecoderView::Evt3(decoder@),
            DvsRawDecoderEnum::Dat(decoder) => DecoderView::Dat(decoder@),
        }
    }
}

impl DvsRawDecoder for DvsRawDecoderEnum {
    open spec fn remaining(&self) -> Seq<DVSRawEvent> {
        self@.events()
    }

    /// Reads the header with the decoder that `self` holds.
    fn read_header(&mut self) -> (r: Result<Vec<String>, DvsError>)
        ensures
            match old(self)@.header() {
                Err(e) => r matches Err(x) && x == e && final(self)@ == old(self)@,
                Ok(header) => r matches Ok(lines) && texts_of(lines@, header.lines) && final(self)@
                    == header.after,
            },
    {
        match self {
            DvsRawDecoderEnum::Evt2(decoder) => decoder.read_header(),
            DvsRawDecoderEnum::Evt3(decoder) => decoder.read_header(),
            DvsRawDecoderEnum::Dat(decoder) => decoder.read_header(),
        }
    }

    /// Reads the next event with the decoder that `self` holds.
    fn read_event(&mut self) -> (r: Result<Option<DVSRawEvent>, DvsError>)
        ensures
            r == old(self)@.read().result,
            final(self)@ == old(self)@.read().after,
    {
        proof {
            self@.lemma_events_step();
        }
        match self {
            DvsRawDecoderEnum::Evt2(decoder) => decoder.read_event(),
            DvsRawDecoderEnum::Evt3(decoder) => decoder.read_event(),
            DvsRawDecoderEnum::Dat(decoder) => decoder.read_event(),
        }
    }
}

/// The extension `.dat`.
pub open spec fn dat_extension() -> Seq<u8> {
    seq![0x2Eu8, 0x64, 0x61, 0x74]
}

/// The extension `.raw`.
pub open spec fn raw_extension() -> Seq<u8> {
    seq![0x2Eu8, 0x72, 0x61, 0x77]
}

/// True when the name `path` ends with `extension`.
pub open spec fn has_extension(path: Seq<u8>, extension: Seq<u8>) -> bool {
    extension.len() <= path.len() && path.skip(path.len() - extension.len()) == extension
}

/// The decoder that is chosen for a stream, with its header read.
///
/// A name that ends with `.dat` gets the DAT decoder. A name that ends with
/// `.raw` gets the EVT2 decoder; where that one finds the header
/// malformed or of another format or version, the EVT3 decoder is tried
/// on the same bytes. Any other failure of a header is final, and any other
/// name is not supported.
pub open spec fn chosen_decoder(path: Seq<u8>, data: Seq<u8>) -> Result<DecoderView, DvsError> {
    if has_extension(path, dat_extension()) {
        match DVSRawDecoderDat::fresh(data).header() {
            Ok(found) => Ok(
                DecoderView::Dat(
                    DatView {
                        position: found.end,
                        metadata: found.metadata,
                        ..DVSRawDecoderDat::fresh(data)
                    },
                ),
            ),
            Err(e) => Err(e),
        }
    } else if has_extension(path, raw_extension()) {
        match DVSRawDecoderEvt2::fresh(data).header() {
            Ok(header) => Ok(DecoderView::Evt2(header.after)),
            Err(DvsError::IncompatibleVersion) | Err(DvsError::MalformedHeader) => {
                match DVSRawDecoderEvt3::fresh(data).header() {
                    Ok(header) => Ok(DecoderView::Evt3(header.after)),
                    Err(e) => Err(e),
                }
            },
            Err(e) => Err(e),
        }
    } else {
        Err(DvsError::UnsupportedFormat)
    }
}

/// True when `path` ends with the four bytes `extension`.
fn ends_with(path: &[u8], extension: &[u8]) -> (found: bool)
    ensures
        found == has_extension(path@, extension@),
{
    if path.len() < extension.len() {
        return false;
    }
    let from = path.len() - extension.len();
    assert(path@.skip(from as int) == path@.subrange(from as int, path@.len() as int));
    range_equals(path, from, path.len(), extension)
}

/// Chooses the decoder for the stream `data` by the name of its file and
/// reads the header with it.
pub fn prep_file_decoder(file_path: &str, data: Vec<u8>) -> (r: Result<DvsRawDecoderEnum, DvsError>)
    ensures
        match chosen_decoder(file_path.spec_bytes(), data@) {
            Ok(view) => r matches Ok(decoder) && decoder@ == view,
            Err(e) => r matches Err(x) && x == e,
        },
{
    let path = file_path.as_bytes();
    let dat: [u8; 4] = [0x2E, 0x64, 0x61, 0x74];
    let raw: [u8; 4] = [0x2E, 0x72, 0x61, 0x77];
    assert(dat@ == dat_extension());
    assert(raw@ == raw_extension());
    if ends_with(path, dat.as_slice()) {
        let mut decoder = DVSRawDecoderDat::new(data);
        match decoder.read_header() {
            Ok(_) => Ok(DvsRawDecoderEnum::Dat(decoder)),
            Err(e) => Err(e),
        }
    } else if ends_with(path, raw.as_slice()) {
        let mut decoder = DVSRawDecoderEvt2::new(data);
        match decoder.read_header() {
            Ok(_) => Ok(DvsRawDecoderEnum::Evt2(decoder)),
            Err(DvsError::IncompatibleVersion) | Err(DvsError::MalformedHeader) => {
                let mut decoder = DVSRawDecoderEvt3::new(decoder.into_bytes());
                match decoder.read_header() {
                    Ok(_) => Ok(DvsRawDecoderEnum::Evt3(decoder)),
                    Err(e) => Err(e),
                }
            },
            Err(e) => Err(e),
        }
    } else {
        Err(DvsError::UnsupportedFormat)
    }
}

/// The header lines and the events of a stream, as `decode_events` gives
/// them: the decoder is chosen by the name of the file, the header is read,
/// and events are read up to the first read that gives none.
pub struct Decoded {
    pub lines: Seq<Seq<u8>>,
    pub events: Seq<DVSRawEvent>,
}

/// What `decode_events` gives for a file name and the bytes of the file.
pub open spec fn decoded(path: Seq<u8>, data: Seq<u8>) -> Result<Decoded, DvsError> {
    match chosen_decoder(path, data) {
        Err(e) => Err(e),
        Ok(view) => match view.header() {
            Err(e) => Err(e),
            Ok(header) => Ok(Decoded { lines: header.lines, events: header.after.events() }),
        },
    }
}

/// Reads the next event of a stream, or `None` where the stream gives no
/// further event.
fn next_event(decoder: &mut DvsRawDecoderEnum) -> (next: Option<DVSRawEvent>)
    ensures
        match next {
            Some(event) => {
                &&& old(decoder)@.events() == seq![event] + final(decoder)@.events()
                &&& {
                    ||| 0 <= final(decoder)@.unread() < old(decoder)@.unread()
                    ||| final(decoder)@.unread() == old(decoder)@.unread() && final(decoder)@.waiting()
                        < old(decoder)@.waiting()
                }
            },
            None => old(decoder)@.events() == Seq::<DVSRawEvent>::empty(),
        },
{
    proof {
        decoder@.lemma_events_step();
    }
    match decoder.read_event() {
        Ok(Some(event)) => Some(event),
        _ => None,
    }
}

/// Decodes a whole stream: returns its events in the order of the stream,
/// and the lines of its header.
pub fn decode_events(file_path: &str, data: Vec<u8>) -> (r: Result<
    (Vec<DVSRawEvent>, Vec<String>),
    DvsError,
>)
    ensures
        match decoded(file_path.spec_bytes(), data@) {
            Ok(all) => r matches Ok(pair) && pair.0@ == all.events && texts_of(pair.1@, all.lines),
            Err(e) => r matches Err(x) && x == e,
        },
{
    let ghost expected = decoded(file_path.spec_bytes(), data@);
    let mut decoder = match prep_file_decoder(file_path, data) {
        Ok(decoder) => decoder,
        Err(e) => {
            return Err(e);
        },
    };
    let header = match decoder.read_header() {
        Ok(header) => header,
        Err(e) => {
            return Err(e);
        },
    };
    let ghost start = decoder@;
    let mut events: Vec<DVSRawEvent> = Vec::new();
    loop
        invariant_except_break
            events@ + decoder@.events() == start.events(),
        invariant
            expected matches Ok(all) && all.events == start.events() && texts_of(
                header@,
                all.lines,
            ),
        ensures
            expected matches Ok(all) && all.events == events@ && texts_of(header@, all.lines),
        decreases decoder@.unread(), decoder@.waiting(),
    {
        let ghost collected = events@;
        match next_event(&mut decoder) {
            Some(event) => {
                events.push(event);
                let ghost rest = decoder@.events();
                assert(events@ + rest == collected + (seq![event] + rest));
            },
            None => {
                assert(collected + Seq::<DVSRawEvent>::empty() == collected);
                break;
            },
        }
    }
    Ok((events, header))
}

/// An encoder of any of the formats that can be written.
pub enum DvsRawEncoderEnum {
    Evt2(DVSRawEncoderEvt2),
}

impl View for DvsRawEncoderEnum {
    type V = Evt2EncoderView;

    open spec fn view(&self) -> Evt2EncoderView {
        match self {
            DvsRawEncoderEnum::Evt2(encoder) => encoder@,
        }
    }
}

impl DvsRawEncoderEnum {
    /// Hands out the bytes written so far and empties the buffer.
    pub fn take_bytes(&mut self) -> (bytes: Vec<u8>)
        ensures
            bytes@ == old(self)@.written,
            final(self)@ == (Evt2EncoderView { written: Seq::empty(), ..old(self)@ }),
    {
        match self {
            DvsRawEncoderEnum::Evt2(encoder) => encoder.take_bytes(),
        }
    }
}

impl DvsRawEncoder for DvsRawEncoderEnum {
    open spec fn written(&self) -> Seq<u8> {
        self@.written
    }

    /// Writes the lines of a header with the encoder that `self` holds.
    fn write_header(&mut self, header: Vec<String>)
        ensures
            final(self)@ == (Evt2EncoderView {
                written: old(self)@.written + header_bytes(header@),
                ..old(self)@
            }),
    {
        match self {
            DvsRawEncoderEnum::Evt2(encoder) => encoder.write_header(header),
        }
    }

    /// Writes one event with the encoder that `self` holds.
    fn write_event(&mut self, event: DVSRawEvent) -> (words: u64)
        ensures
            final(self)@ == old(self)@.write(event),
            words * 4 == old(self)@.bytes_of(event).len(),
    {
        match self {
            DvsRawEncoderEnum::Evt2(encoder) => encoder.write_event(event),
        }
    }
}

/// The encoder for an output file: an EVT2 encoder that has written nothing.
pub fn prep_file_encoder() -> (encoder: DvsRawEncoderEnum)
    ensures
        encoder@ == Evt2EncoderView::fresh(),
{
    DvsRawEncoderEnum::Evt2(DVSRawEncoderEvt2::new())
}

/// The bytes of an EVT2 file with the header `header` and the events
/// `events`.
pub open spec fn encoded(events: Seq<DVSRawEvent>, header: Seq<String>) -> Seq<u8> {
    (Evt2EncoderView { written: header_bytes(header), ..Evt2EncoderView::fresh() }).write_all(
        events,
    ).written
}

/// Encodes a whole stream: returns the bytes of the file that holds the
/// header and then the events in their order.
pub fn encode_events(events: Vec<DVSRawEvent>, header: Vec<String>) -> (bytes: Vec<u8>)
    requires
        forall|i: int| 0 <= i < events@.len() ==> (#[trigger] events@[i]).fits_wire(),
    ensures
        bytes@ == encoded(events@, header@),
{
    let mut encoder = prep_file_encoder();
    let ghost lines = header@;
    encoder.write_header(header);
    let ghost start = encoder@;
    assert(start == (Evt2EncoderView { written: header_bytes(lines), ..Evt2EncoderView::fresh() }))
        by {
        assert(Seq::<u8>::empty() + header_bytes(lines) == header_bytes(lines));
    }
    let mut i: usize = 0;
    while i < events.len()
        invariant
            i <= events.len(),
            forall|k: int| 0 <= k < events@.len() ==> (#[trigger] events@[k]).fits_wire(),
            encoder@ == start.write_all(events@.take(i as int)),
        decreases events.len() - i,
    {
        let _ = encoder.write_event(events[i]);
        proof {
            let longer = events@.take(i + 1);
            assert(longer.drop_last() == events@.take(i as int));
            assert(longer.last() == events@[i as int]);
        }
        i = i + 1;
    }
    assert(events@.take(events@.len() as int) == events@);
    encoder.take_bytes()
}

} // verus!
