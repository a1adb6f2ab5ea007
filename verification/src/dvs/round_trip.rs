//! What the EVT2 encoder writes, the EVT2 decoder reads back.
//!
//! The law of this module speaks of streams that stay within one period of
//! the time-sync field: the pixel events that a decoder reads from the
//! bytes of such a stream are the pixel events of the stream, in their
//! order and with every field as it was.
use crate::dvs::raw_decoder_evt2::{
    seek_time_high, DVSRawDecoderEvt2, Evt2State, Evt2View, RawEvent, TIME_LOOP,
};
use crate::dvs::header::{preamble, Metadata, StreamFormat};
use crate::dvs::raw_encoder_evt2::{
    cd_bytes, header_bytes, lemma_synced_base, lemma_time_high_len, lemma_word_lengths,
    marker_bytes, sync_bytes, synced_base, time_base_of, time_high_bytes, Evt2EncoderView,
};
use crate::dvs::{encoded, DVSEvent, DVSRawEvent};
use vstd::prelude::*;

verus! {

/// The pixel events of a stream, in their order.
pub open spec fn pixels(events: Seq<DVSRawEvent>) -> Seq<DVSEvent>
    decreases events.len(),
{
    if events.len() == 0 {
        Seq::empty()
    } else {
        let first = match events[0] {
            DVSRawEvent::CD(ev) => seq![ev],
            DVSRawEvent::TimeHigh { .. } => Seq::empty(),
        };
        first + pixels(events.drop_first())
    }
}

/// True when the event can be written and read back as it is, and lies in
/// the first period of the time-sync field: coordinates of eleven bits, a
/// polarity of 0 or 1, and a time below `TIME_LOOP`.
pub open spec fn in_first_period(event: DVSRawEvent) -> bool {
    match event {
        DVSRawEvent::CD(ev) => ev.x < 0x800 && ev.y < 0x800 && ev.polarity <= 1 && ev.timestamp
            < TIME_LOOP,
        DVSRawEvent::TimeHigh { timestamp } => timestamp < 0x1000_0000,
    }
}

/// True when the stream stays within one period of the time-sync field and
/// its time never goes back.
pub open spec fn in_one_window(events: Seq<DVSRawEvent>) -> bool {
    &&& forall|i: int| 0 <= i < events.len() ==> in_first_period(#[trigger] events[i])
    &&& forall|i: int, j: int|
        0 <= i <= j < events.len() ==> (#[trigger] events[i]).spec_timestamp() <= (
        #[trigger] events[j]).spec_timestamp()
}

/// The bytes that an encoder appends for `events`, the first event first.
pub open spec fn encode_from(encoder: Evt2EncoderView, events: Seq<DVSRawEvent>) -> Seq<u8>
    decreases events.len(),
{
    if events.len() == 0 {
        Seq::empty()
    } else {
        encoder.bytes_of(events[0]) + encode_from(encoder.write(events[0]), events.drop_first())
    }
}

/// Writing a stream is writing its first event and then the others.
pub proof fn lemma_write_first(
    encoder: Evt2EncoderView,
    first: DVSRawEvent,
    others: Seq<DVSRawEvent>,
)
    ensures
        encoder.write_all(seq![first] + others) == encoder.write(first).write_all(others),
    decreases others.len(),
{
    let all = seq![first] + others;
    if others.len() == 0 {
        assert(all.drop_last() == Seq::<DVSRawEvent>::empty());
        assert(encoder.write_all(all.drop_last()) == encoder);
    } else {
        assert(all.drop_last() == seq![first] + others.drop_last());
        assert(all.last() == others.last());
        lemma_write_first(encoder, first, others.drop_last());
    }
}

/// The bytes that an encoder has written after a stream are those that it
/// had written before and those that it appends for the stream.
pub proof fn lemma_write_all_appends(encoder: Evt2EncoderView, events: Seq<DVSRawEvent>)
    ensures
        encoder.write_all(events).written == encoder.written + encode_from(encoder, events),
    decreases events.len(),
{
    if events.len() == 0 {
        assert(encoder.written + Seq::<u8>::empty() == encoder.written);
    } else {
        let first = events[0];
        let others = events.drop_first();
        assert(events == seq![first] + others);
        lemma_write_first(encoder, first, others);
        lemma_write_all_appends(encoder.write(first), others);
        assert(encoder.write(first).written == encoder.written + encoder.bytes_of(first));
        assert((encoder.written + encoder.bytes_of(first)) + encode_from(
            encoder.write(first),
            others,
        ) == encoder.written + (encoder.bytes_of(first) + encode_from(
            encoder.write(first),
            others,
        )));
    }
}

/// A stream that stays within one window still does so without its first
/// event, and none of its events lies before the first.
pub proof fn lemma_window_tail(events: Seq<DVSRawEvent>)
    requires
        in_one_window(events),
        events.len() > 0,
    ensures
        in_one_window(events.drop_first()),
        in_first_period(events[0]),
        forall|i: int|
            0 <= i < events.drop_first().len() ==> events[0].spec_timestamp() <= (
            #[trigger] events.drop_first()[i]).spec_timestamp(),
{
    let rest = events.drop_first();
    assert forall|i: int| 0 <= i < rest.len() implies in_first_period(#[trigger] rest[i]) by {
        assert(rest[i] == events[i + 1]);
    }
    assert forall|i: int, j: int| 0 <= i <= j < rest.len() implies (#[trigger] rest[i]).spec_timestamp()
        <= (#[trigger] rest[j]).spec_timestamp() by {
        assert(rest[i] == events[i + 1]);
        assert(rest[j] == events[j + 1]);
    }
    assert forall|i: int| 0 <= i < rest.len() implies events[0].spec_timestamp() <= (
    #[trigger] rest[i]).spec_timestamp() by {
        assert(rest[i] == events[i + 1]);
    }
}

/// The word at an offset of a stream whose four bytes there are those of
/// `word` is `word`.
pub proof fn lemma_word_at(source: Seq<u8>, at: int, word: RawEvent)
    requires
        0 <= at,
        at + 4 <= source.len(),
        source.subrange(at, at + 4) == word.bytes(),
        word.wf(),
    ensures
        RawEvent::at(source, at) == word,
{
    word.lemma_bytes_read_back();
    let part = source.subrange(at, at + 4);
    assert(part[0] == source[at]);
    assert(part[1] == source[at + 1]);
    assert(part[2] == source[at + 2]);
    assert(part[3] == source[at + 3]);
}

/// A decoder that has counted no wrap reads a time-sync word whose time is
/// no earlier than its base as a marker with the payload of the word, and
/// takes the time of the word as its base.
pub proof fn lemma_read_time_high(view: Evt2View, payload: u32)
    requires
        view.position + 4 <= view.source.len(),
        view.source.subrange(view.position as int, view.position as int + 4) == (RawEvent {
            tag: 0x8,
            pad: payload,
        }).bytes(),
        payload < 0x1000_0000,
        view.state.n_time_high_loop == 0,
        view.state.current_time_base <= payload * 64,
    ensures
        view.read().result == Ok::<Option<DVSRawEvent>, crate::dvs::DvsError>(
            Some(DVSRawEvent::TimeHigh { timestamp: payload as u64 }),
        ),
        view.read().after == (Evt2View {
            position: view.position + 4,
            state: Evt2State { current_time_base: (payload * 64) as u64, ..view.state },
            ..view
        }),
{
    lemma_word_at(view.source, view.position as int, RawEvent { tag: 0x8, pad: payload });
}

/// The fields of a pixel word come back from its payload.
proof fn lemma_cd_fields(t: u32, x: u32, y: u32)
    by (bit_vector)
    requires
        t < 0x40,
        x < 0x800,
        y < 0x800,
    ensures
        t * 0x40_0000 + x * 0x800 + y < 0x1000_0000,
        ((t * 0x40_0000 + x * 0x800 + y) / 0x40_0000) % 0x40 == t,
        ((t * 0x40_0000 + x * 0x800 + y) / 0x800) % 0x800 == x,
        (t * 0x40_0000 + x * 0x800 + y) % 0x800 == y,
{
}

/// A decoder whose base is the time base of a pixel event reads the word of
/// the event as the event.
pub proof fn lemma_read_cd(view: Evt2View, ev: DVSEvent)
    requires
        view.position + 4 <= view.source.len(),
        view.source.subrange(view.position as int, view.position as int + 4) == cd_bytes(ev),
        ev.x < 0x800,
        ev.y < 0x800,
        ev.polarity <= 1,
        view.state.current_time_base == time_base_of(ev.timestamp),
    ensures
        view.read().result == Ok::<Option<DVSRawEvent>, crate::dvs::DvsError>(
            Some(DVSRawEvent::CD(ev)),
        ),
        view.read().after == (Evt2View { position: view.position + 4, ..view }),
{
    let t = (ev.timestamp % 64) as u32;
    let x = ev.x as u32;
    let y = ev.y as u32;
    lemma_cd_fields(t, x, y);
    let word = RawEvent {
        tag: if ev.polarity == 1 {
            0x1
        } else {
            0x0
        },
        pad: ((ev.timestamp % 64) * 0x40_0000 + (ev.x % 0x800) * 0x800 + ev.y % 0x800) as u32,
    };
    assert(word.pad == t * 0x40_0000 + x * 0x800 + y);
    lemma_word_at(view.source, view.position as int, word);
    assert(word.as_cd().timestamp == t);
    assert(word.as_cd().x == ev.x);
    assert(word.as_cd().y == ev.y);
}

/// A decoder in step with the encoder reads the time-sync steps of the
/// encoder without a pixel event, and arrives at the base that the steps
/// reach.
pub proof fn lemma_read_sync(view: Evt2View, target: nat)
    requires
        view.state.n_time_high_loop == 0,
        view.state.current_time_base % 64 == 0,
        target % 64 == 0,
        target < TIME_LOOP,
        view.position + sync_bytes(view.state.current_time_base as nat, target).len()
            <= view.source.len(),
        view.source.subrange(
            view.position as int,
            view.position as int + sync_bytes(view.state.current_time_base as nat, target).len(),
        ) == sync_bytes(view.state.current_time_base as nat, target),
    ensures
        pixels(view.events()) == pixels(
            (Evt2View {
                position: view.position + sync_bytes(
                    view.state.current_time_base as nat,
                    target,
                ).len(),
                state: Evt2State {
                    current_time_base: synced_base(
                        view.state.current_time_base as nat,
                        target,
                    ) as u64,
                    ..view.state
                },
                ..view
            }).events(),
        ),
    decreases
            (if view.state.current_time_base < target {
                target - view.state.current_time_base
            } else {
                0
            }),
{
    let last = view.state.current_time_base as nat;
    let all = sync_bytes(last, target);
    if last < target {
        let next = last + 64;
        let rest = sync_bytes(next, target);
        let payload = (next / 64) as u32;
        lemma_time_high_len(next);
        assert(all == time_high_bytes(next) + rest);
        assert((next / 64) % 0x1000_0000 == next / 64);
        assert(view.source.subrange(view.position as int, view.position as int + 4) == time_high_bytes(
            next,
        )) by {
            assert(view.source.subrange(view.position as int, view.position as int + 4)
                =~= view.source.subrange(view.position as int, view.position as int + all.len()).subrange(
                0,
                4,
            ));
            assert(all.subrange(0, 4) =~= time_high_bytes(next));
        }
        lemma_read_time_high(view, payload);
        let after = view.read().after;
        assert(after.state.current_time_base == next);
        assert(view.source.subrange(after.position as int, after.position as int + rest.len()) == rest)
            by {
            assert(view.source.subrange(after.position as int, after.position as int + rest.len())
                =~= view.source.subrange(view.position as int, view.position as int + all.len()).subrange(
                4,
                all.len() as int,
            ));
            assert(all.subrange(4, all.len() as int) =~= rest);
        }
        lemma_read_sync(after, target);
        view.lemma_read_advances();
        let marker = DVSRawEvent::TimeHigh { timestamp: payload as u64 };
        assert(view.events() == seq![marker] + after.events());
        assert((seq![marker] + after.events()).drop_first() == after.events());
        assert(pixels(view.events()) == Seq::<DVSEvent>::empty() + pixels(after.events()));
        assert(Seq::<DVSEvent>::empty() + pixels(after.events()) == pixels(after.events()));
    } else {
        assert(all.len() == 0);
        assert(view == (Evt2View {
            position: view.position + all.len(),
            state: Evt2State { current_time_base: last as u64, ..view.state },
            ..view
        }));
    }
}

/// Where the rest of a stream from an offset on is one run of bytes and
/// then another, the first run stands at the offset and the second behind
/// it.
pub proof fn lemma_split(source: Seq<u8>, at: int, head: Seq<u8>, tail: Seq<u8>)
    requires
        0 <= at <= source.len(),
        source.skip(at) == head + tail,
    ensures
        at + head.len() <= source.len(),
        source.subrange(at, at + head.len()) == head,
        source.skip(at + head.len()) == tail,
{
    assert(source.skip(at).len() == head.len() + tail.len());
    assert(source.subrange(at, at + head.len()) =~= source.skip(at).subrange(
        0,
        head.len() as int,
    ));
    assert((head + tail).subrange(0, head.len() as int) =~= head);
    assert(source.skip(at + head.len()) =~= source.skip(at).skip(head.len() as int));
    assert((head + tail).skip(head.len() as int) =~= tail);
}

/// The pixel events of a stream are the pixel event that its first event
/// may be, and then those of the other events.
pub proof fn lemma_pixels_first(first: DVSRawEvent, others: Seq<DVSRawEvent>)
    ensures
        pixels(seq![first] + others) == match first {
            DVSRawEvent::CD(ev) => seq![ev] + pixels(others),
            DVSRawEvent::TimeHigh { .. } => pixels(others),
        },
{
    let all = seq![first] + others;
    assert(all.drop_first() == others);
    assert(all[0] == first);
    assert(Seq::<DVSEvent>::empty() + pixels(others) == pixels(others));
}

/// True when a decoder stands in step with an encoder: it has counted no
/// wrap, and its time base is that of the encoder's last time sync.
pub open spec fn in_step(view: Evt2View, encoder: Evt2EncoderView) -> bool {
    &&& encoder.time_sync_emitted
    &&& encoder.last_time_sync_base == view.state.current_time_base
    &&& encoder.last_time_sync_base % 64 == 0
    &&& view.state.n_time_high_loop == 0
    &&& view.position <= view.source.len()
}

/// The decoder behind the bytes of one event: `width` bytes further on,
/// with the time base `base`.
pub open spec fn moved(view: Evt2View, width: nat, base: nat) -> Evt2View {
    Evt2View {
        position: view.position + width,
        state: Evt2State { current_time_base: base as u64, ..view.state },
        ..view
    }
}

/// A decoder in step with the encoder reads the word of a marker as the
/// marker, and is in step with the encoder again behind it.
pub proof fn lemma_step_marker(
    view: Evt2View,
    encoder: Evt2EncoderView,
    timestamp: u64,
    tail: Seq<u8>,
)
    requires
        in_step(view, encoder),
        timestamp < 0x1000_0000,
        encoder.last_time_sync_base <= timestamp * 64,
        view.source.skip(view.position as int) == marker_bytes(timestamp) + tail,
    ensures
        ({
            let event = DVSRawEvent::TimeHigh { timestamp };
            let after = moved(view, 4, (timestamp * 64) as nat);
            &&& in_step(after, encoder.write(event))
            &&& after.source.skip(after.position as int) == tail
            &&& pixels(view.events()) == pixels(after.events())
        }),
{
    let event = DVSRawEvent::TimeHigh { timestamp };
    let payload = timestamp as u32;
    let word = RawEvent { tag: 0x8, pad: payload };
    assert(timestamp % 0x1000_0000 == timestamp);
    word.lemma_bytes_len();
    lemma_split(view.source, view.position as int, marker_bytes(timestamp), tail);
    lemma_read_time_high(view, payload);
    let after = view.read().after;
    assert(after == moved(view, 4, (timestamp * 64) as nat));
    assert(encoder.last_time_sync_base / TIME_LOOP == 0);
    assert(encoder.write(event).last_time_sync_base == timestamp * 64);
    view.lemma_read_advances();
    assert(view.events() == seq![event] + after.events());
    lemma_pixels_first(event, after.events());
}

/// What an encoder in step writes for a pixel event that is no earlier
/// than its time sync: the steps up to the time base of the event, and then
/// the word of the event. Its time sync is then the time base of the event.
pub proof fn lemma_write_cd(encoder: Evt2EncoderView, ev: DVSEvent)
    requires
        encoder.time_sync_emitted,
        encoder.last_time_sync_base % 64 == 0,
        encoder.last_time_sync_base <= ev.timestamp,
    ensures
        ({
            let event = DVSRawEvent::CD(ev);
            let last = encoder.last_time_sync_base as nat;
            let target = time_base_of(ev.timestamp) as nat;
            &&& last <= target
            &&& encoder.bytes_of(event) == sync_bytes(last, target) + cd_bytes(ev)
            &&& cd_bytes(ev).len() == 4
            &&& synced_base(last, target) == target
            &&& encoder.write(event).time_sync_emitted
            &&& encoder.write(event).last_time_sync_base == target
        }),
{
    let last = encoder.last_time_sync_base as nat;
    let target = time_base_of(ev.timestamp) as nat;
    lemma_synced_base(last, target);
    lemma_word_lengths(target, ev);
}

/// A decoder in step with the encoder reads the words of a pixel event as
/// that event and no other pixel event, and is in step with the encoder
/// again behind them.
pub proof fn lemma_step_cd(view: Evt2View, encoder: Evt2EncoderView, ev: DVSEvent, tail: Seq<u8>)
    requires
        in_step(view, encoder),
        ev.x < 0x800,
        ev.y < 0x800,
        ev.polarity <= 1,
        ev.timestamp < TIME_LOOP,
        encoder.last_time_sync_base <= ev.timestamp,
        view.source.skip(view.position as int) == encoder.bytes_of(DVSRawEvent::CD(ev)) + tail,
    ensures
        ({
            let event = DVSRawEvent::CD(ev);
            let after = moved(
                view,
                encoder.bytes_of(event).len(),
                time_base_of(ev.timestamp) as nat,
            );
            &&& in_step(after, encoder.write(event))
            &&& after.source.skip(after.position as int) == tail
            &&& pixels(view.events()) == seq![ev] + pixels(after.events())
        }),
{
    let event = DVSRawEvent::CD(ev);
    let target = time_base_of(ev.timestamp) as nat;
    let sync = sync_bytes(encoder.last_time_sync_base as nat, target);
    let word = cd_bytes(ev);
    lemma_write_cd(encoder, ev);
    let synced = moved(view, sync.len(), target);
    assert(pixels(view.events()) == pixels(synced.events()) && synced.position + 4
        <= synced.source.len() && synced.source.subrange(
        synced.position as int,
        synced.position as int + 4,
    ) == word && synced.source.skip(synced.position as int + 4) == tail) by {
        assert((sync + word) + tail =~= sync + (word + tail));
        lemma_split(view.source, view.position as int, sync, word + tail);
        lemma_read_sync(view, target);
        lemma_split(view.source, view.position as int + sync.len(), word, tail);
    }
    assert(pixels(synced.events()) == seq![ev] + pixels(synced.read().after.events())
        && synced.read().after == moved(view, sync.len() + 4, target)) by {
        lemma_read_cd(synced, ev);
        synced.lemma_read_advances();
        assert(synced.events() == seq![event] + synced.read().after.events());
        lemma_pixels_first(event, synced.read().after.events());
    }
}

/// A decoder in step with the encoder reads the pixel events of a stream
/// from the bytes that the encoder appends for it.
pub proof fn lemma_read_encoded(view: Evt2View, encoder: Evt2EncoderView, events: Seq<DVSRawEvent>)
    requires
        in_one_window(events),
        in_step(view, encoder),
        forall|i: int|
            0 <= i < events.len() ==> encoder.last_time_sync_base <= (
            #[trigger] events[i]).spec_timestamp(),
        view.source.skip(view.position as int) == encode_from(encoder, events),
    ensures
        pixels(view.events()) == pixels(events),
    decreases events.len(),
{
    if events.len() == 0 {
        assert(view.source.skip(view.position as int).len() == 0);
        assert(view.events() == Seq::<DVSRawEvent>::empty());
    } else {
        let first = events[0];
        let others = events.drop_first();
        let next = encoder.write(first);
        let tail = encode_from(next, others);
        lemma_window_tail(events);
        assert(events == seq![first] + others);
        lemma_pixels_first(first, others);
        match first {
            DVSRawEvent::TimeHigh { timestamp } => {
                assert(first.spec_timestamp() == timestamp * 64);
                lemma_step_marker(view, encoder, timestamp, tail);
                let after = moved(view, 4, (timestamp * 64) as nat);
                lemma_read_encoded(after, next, others);
            },
            DVSRawEvent::CD(ev) => {
                assert(first.spec_timestamp() == ev.timestamp);
                lemma_step_cd(view, encoder, ev, tail);
                let after = moved(
                    view,
                    encoder.bytes_of(first).len(),
                    time_base_of(ev.timestamp) as nat,
                );
                lemma_read_encoded(after, next, others);
            },
        }
    }
}

/// The bytes that an encoder appends for a stream do not depend on the
/// bytes that it has written before.
pub proof fn lemma_encode_from_written(
    one: Evt2EncoderView,
    other: Evt2EncoderView,
    events: Seq<DVSRawEvent>,
)
    requires
        one.time_sync_emitted == other.time_sync_emitted,
        one.last_time_sync_base == other.last_time_sync_base,
    ensures
        encode_from(one, events) == encode_from(other, events),
    decreases events.len(),
{
    if events.len() > 0 {
        lemma_encode_from_written(one.write(events[0]), other.write(events[0]), events.drop_first());
    }
}

/// The decoder at the start of a file that holds `header` and then the
/// bytes that a fresh encoder writes for a stream.
pub open spec fn start_of(header: Seq<u8>, events: Seq<DVSRawEvent>, metadata: Metadata) -> Evt2View {
    Evt2View {
        source: header + encode_from(Evt2EncoderView::fresh(), events),
        position: 0,
        state: Evt2State::initial(),
        metadata,
    }
}

/// The time base of the first event of a stream: that of a pixel event, or
/// the time of a marker.
pub open spec fn first_base(event: DVSRawEvent) -> u64 {
    match event {
        DVSRawEvent::CD(ev) => time_base_of(ev.timestamp),
        DVSRawEvent::TimeHigh { timestamp } => (timestamp * 64) as u64,
    }
}

/// The encoder that has written a time sync for the base `base` and nothing
/// else.
pub open spec fn primed(base: u64) -> Evt2EncoderView {
    Evt2EncoderView { written: Seq::empty(), time_sync_emitted: true, last_time_sync_base: base }
}

/// A decoder takes its time base from the first word that a fresh encoder
/// writes for a stream, and is then in step with the encoder. Behind that
/// word stand the pixel word of the first event, if it is a pixel event,
/// and the bytes of the other events.
pub proof fn lemma_seed(
    header: Seq<u8>,
    events: Seq<DVSRawEvent>,
    metadata: Metadata,
    found: Metadata,
)
    requires
        events.len() > 0,
        in_first_period(events[0]),
    ensures
        ({
            let fresh = Evt2EncoderView::fresh();
            let start = start_of(header, events, metadata);
            let seeded = Evt2View {
                position: header.len() + 4,
                state: Evt2State {
                    first_time_base_set: true,
                    current_time_base: first_base(events[0]),
                    n_time_high_loop: 0,
                },
                metadata: found,
                ..start
            };
            &&& start.seeded(header.len(), found) == Some(seeded)
            &&& start.source.len() >= header.len() + 4
            &&& match events[0] {
                DVSRawEvent::CD(ev) => start.source.skip(header.len() as int + 4) == primed(
                    first_base(events[0]),
                ).bytes_of(events[0]) + encode_from(fresh.write(events[0]), events.drop_first()),
                DVSRawEvent::TimeHigh { .. } => start.source.skip(header.len() as int + 4) == encode_from(
                    fresh.write(events[0]),
                    events.drop_first(),
                ),
            }
        }),
{
    let fresh = Evt2EncoderView::fresh();
    let written = encode_from(fresh, events);
    let source = header + written;
    let at = header.len() as int;
    let first = events[0];
    let bytes = fresh.bytes_of(first);
    let tail = encode_from(fresh.write(first), events.drop_first());
    assert(written == bytes + tail);
    assert(source.skip(at) =~= written);
    match first {
        DVSRawEvent::TimeHigh { timestamp } => {
            let word = RawEvent { tag: 0x8, pad: timestamp as u32 };
            assert(timestamp % 0x1000_0000 == timestamp);
            assert(bytes == word.bytes());
            word.lemma_bytes_len();
            lemma_split(source, at, bytes, tail);
            lemma_word_at(source, at, word);
            assert(seek_time_high(source, at) == Some(at));
        },
        DVSRawEvent::CD(ev) => {
            let target = time_base_of(ev.timestamp) as nat;
            let word = RawEvent { tag: 0x8, pad: (target / 64) as u32 };
            assert((target / 64) % 0x1000_0000 == target / 64);
            lemma_word_lengths(target, ev);
            assert(bytes == time_high_bytes(target) + cd_bytes(ev));
            assert(written == time_high_bytes(target) + (cd_bytes(ev) + tail)) by {
                assert((time_high_bytes(target) + cd_bytes(ev)) + tail =~= time_high_bytes(target)
                    + (cd_bytes(ev) + tail));
            }
            lemma_split(source, at, time_high_bytes(target), cd_bytes(ev) + tail);
            lemma_word_at(source, at, word);
            assert(seek_time_high(source, at) == Some(at));
            assert(sync_bytes(target, target) == Seq::<u8>::empty());
            assert(Seq::<u8>::empty() + cd_bytes(ev) == cd_bytes(ev));
        },
    }
}

/// Round trip of a stream that begins with a marker.
proof fn lemma_round_trip_marker(
    header: Seq<u8>,
    events: Seq<DVSRawEvent>,
    metadata: Metadata,
    found: Metadata,
    timestamp: u64,
)
    requires
        in_one_window(events),
        events.len() > 0,
        events[0] == (DVSRawEvent::TimeHigh { timestamp }),
    ensures
        start_of(header, events, metadata).seeded(header.len(), found) is Some,
        pixels(start_of(header, events, metadata).seeded(header.len(), found).unwrap().events())
            == pixels(events),
{
    let first = events[0];
    let others = events.drop_first();
    let next = Evt2EncoderView::fresh().write(first);
    lemma_window_tail(events);
    lemma_seed(header, events, metadata, found);
    let seeded = start_of(header, events, metadata).seeded(header.len(), found).unwrap();
    assert(first.spec_timestamp() == timestamp * 64);
    assert(next.last_time_sync_base == timestamp * 64);
    assert(in_step(seeded, next));
    lemma_read_encoded(seeded, next, others);
    assert(events == seq![first] + others);
    lemma_pixels_first(first, others);
}

/// Round trip of a stream that begins with a pixel event.
proof fn lemma_round_trip_cd(
    header: Seq<u8>,
    events: Seq<DVSRawEvent>,
    metadata: Metadata,
    found: Metadata,
    ev: DVSEvent,
)
    requires
        in_one_window(events),
        events.len() > 0,
        events[0] == DVSRawEvent::CD(ev),
    ensures
        start_of(header, events, metadata).seeded(header.len(), found) is Some,
        pixels(start_of(header, events, metadata).seeded(header.len(), found).unwrap().events())
            == pixels(events),
{
    let first = events[0];
    let others = events.drop_first();
    let next = Evt2EncoderView::fresh().write(first);
    let tail = encode_from(next, others);
    lemma_window_tail(events);
    lemma_seed(header, events, metadata, found);
    let seeded = start_of(header, events, metadata).seeded(header.len(), found).unwrap();
    let base = time_base_of(ev.timestamp);
    let before = primed(base);
    assert(in_step(seeded, before));
    lemma_step_cd(seeded, before, ev, tail);
    let after = moved(seeded, before.bytes_of(first).len(), base as nat);
    assert(synced_base(base as nat, base as nat) == base);
    assert(first.spec_timestamp() == ev.timestamp);
    lemma_encode_from_written(before.write(first), next, others);
    lemma_read_encoded(after, before.write(first), others);
    assert(events == seq![first] + others);
    lemma_pixels_first(first, others);
}

/// Round trip behind any header. In a file that holds a header and then the
/// bytes that a fresh encoder writes for a stream within one window, a
/// decoder that takes its time base from the first time-sync word behind
/// the header reads the pixel events of the stream: the same number, in the
/// same order, each with its timestamp, its coordinates and its polarity.
pub proof fn lemma_round_trip_behind(
    header: Seq<u8>,
    events: Seq<DVSRawEvent>,
    metadata: Metadata,
    found: Metadata,
)
    requires
        in_one_window(events),
        events.len() > 0,
    ensures
        start_of(header, events, metadata).seeded(header.len(), found) is Some,
        pixels(start_of(header, events, metadata).seeded(header.len(), found).unwrap().events())
            == pixels(events),
{
    match events[0] {
        DVSRawEvent::TimeHigh { timestamp } => {
            lemma_round_trip_marker(header, events, metadata, found, timestamp);
        },
        DVSRawEvent::CD(ev) => {
            lemma_round_trip_cd(header, events, metadata, found, ev);
        },
    }
}

/// Round trip of a file. Encode a stream that stays within one window,
/// behind a header whose preamble ends where the events begin. A decoder
/// that reads the header of the file and then its events reads the pixel
/// events of the stream: the same number, in the same order, each with its
/// timestamp, its coordinates and its polarity.
pub proof fn lemma_round_trip(lines: Seq<String>, events: Seq<DVSRawEvent>)
    requires
        in_one_window(events),
        events.len() > 0,
        preamble(
            encoded(events, lines),
            StreamFormat::Evt2,
            Metadata { sensor_width: -1i32, sensor_height: -1i32 },
        ) matches Ok(found) && found.end == header_bytes(lines).len(),
    ensures
        DVSRawDecoderEvt2::fresh(encoded(events, lines)).header() matches Ok(header) && pixels(
            header.after.events(),
        ) == pixels(events),
{
    let fresh = Evt2EncoderView::fresh();
    let header = header_bytes(lines);
    let behind = Evt2EncoderView { written: header, ..fresh };
    let unknown = Metadata { sensor_width: -1i32, sensor_height: -1i32 };
    lemma_write_all_appends(behind, events);
    lemma_encode_from_written(behind, fresh, events);
    assert(encoded(events, lines) == header + encode_from(fresh, events));
    let found = preamble(encoded(events, lines), StreamFormat::Evt2, unknown).unwrap();
    lemma_round_trip_behind(header, events, unknown, found.metadata);
    assert(DVSRawDecoderEvt2::fresh(encoded(events, lines)) == start_of(header, events, unknown));
}

} // verus!
