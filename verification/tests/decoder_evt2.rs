use ebod::dvs::raw_decoder_evt2::{
    decode_word, DVSRawDecoderEvt2, EventTypes, Evt2State, RawEvent, RawEventCD, RawEventTime,
    LOOP_THRESHOLD, TIME_LOOP,
};
use ebod::dvs::{DVSEvent, DVSRawEvent, DvsError, DvsRawDecoder};

fn word(tag: u32, payload: u32) -> [u8; 4] {
    ((tag << 28) | (payload & 0x0FFF_FFFF)).to_le_bytes()
}

fn time_high(payload: u32) -> [u8; 4] {
    word(0x8, payload)
}

fn cd(on: bool, low_ts: u32, x: u32, y: u32) -> [u8; 4] {
    word(if on { 1 } else { 0 }, (low_ts << 22) | (x << 11) | y)
}

fn stream(words: &[[u8; 4]]) -> Vec<u8> {
    let mut bytes = Vec::new();
    for w in words {
        bytes.extend_from_slice(w);
    }
    bytes
}

#[test]
fn time_high_then_cd_decodes_to_marker_and_pixel() {
    let mut decoder = DVSRawDecoderEvt2::new(stream(&[time_high(0), cd(true, 3, 5, 10)]));
    assert_eq!(decoder.read_event(), Ok(Some(DVSRawEvent::TimeHigh { timestamp: 0 })));
    assert_eq!(
        decoder.read_event(),
        Ok(Some(DVSRawEvent::CD(DVSEvent { timestamp: 3, x: 5, y: 10, polarity: 1 })))
    );
    assert_eq!(decoder.read_event(), Err(DvsError::UnexpectedEndOfStream));
}

#[test]
fn cd_takes_its_high_bits_from_the_time_base() {
    let mut decoder = DVSRawDecoderEvt2::new(stream(&[time_high(7), cd(false, 63, 2047, 2047)]));
    assert_eq!(decoder.read_event(), Ok(Some(DVSRawEvent::TimeHigh { timestamp: 7 })));
    assert_eq!(
        decoder.read_event(),
        Ok(Some(DVSRawEvent::CD(DVSEvent { timestamp: 7 * 64 + 63, x: 2047, y: 2047, polarity: 0 })))
    );
    assert_eq!(decoder.state().current_time_base, 448);
    assert_eq!(decoder.position(), 8);
}

#[test]
fn triggers_and_unknown_words_are_passed_over() {
    let bytes = stream(&[word(0xA, 123), word(0x5, 1), word(0xF, 0), cd(true, 1, 2, 3)]);
    let mut decoder = DVSRawDecoderEvt2::new(bytes);
    assert_eq!(
        decoder.read_event(),
        Ok(Some(DVSRawEvent::CD(DVSEvent { timestamp: 1, x: 2, y: 3, polarity: 1 })))
    );
    assert_eq!(decoder.position(), 16);
}

#[test]
fn fewer_bytes_than_a_word_end_the_stream() {
    let mut bytes = stream(&[word(0xA, 0)]);
    bytes.extend_from_slice(&[1, 2, 3]);
    let mut decoder = DVSRawDecoderEvt2::new(bytes);
    assert_eq!(decoder.read_event(), Err(DvsError::UnexpectedEndOfStream));
    assert_eq!(decoder.position(), 4);
    let mut empty = DVSRawDecoderEvt2::new(Vec::new());
    assert_eq!(empty.read_event(), Err(DvsError::UnexpectedEndOfStream));
}

#[test]
fn a_wrap_of_the_time_field_counts_a_rollover() {
    let top = (1u32 << 28) - 1;
    let mut decoder = DVSRawDecoderEvt2::new(stream(&[time_high(top), time_high(0), cd(true, 5, 1, 1)]));
    assert_eq!(decoder.read_event(), Ok(Some(DVSRawEvent::TimeHigh { timestamp: top as u64 })));
    assert_eq!(decoder.state().current_time_base, (top as u64) << 6);
    assert_eq!(decoder.read_event(), Ok(Some(DVSRawEvent::TimeHigh { timestamp: 0 })));
    assert_eq!(decoder.state().n_time_high_loop, 1);
    assert_eq!(decoder.state().current_time_base, TIME_LOOP);
    assert_eq!(
        decoder.read_event(),
        Ok(Some(DVSRawEvent::CD(DVSEvent { timestamp: TIME_LOOP + 5, x: 1, y: 1, polarity: 1 })))
    );
}

#[test]
fn wrap_threshold_is_ten_units_below_the_period() {
    // A fall by exactly TIME_LOOP - LOOP_THRESHOLD is a wrap.
    let top = (1u32 << 28) - 1;
    let state = Evt2State {
        first_time_base_set: true,
        current_time_base: (top as u64) << 6,
        n_time_high_loop: 0,
    };
    let falls_by = TIME_LOOP - LOOP_THRESHOLD;
    let payload = (((top as u64) << 6) - falls_by) >> 6;
    assert_eq!(payload, 9);
    let (next, _) = decode_word(state, RawEvent { tag: 8, pad: 9 }).unwrap();
    assert_eq!(next.n_time_high_loop, 1);
    assert_eq!(next.current_time_base, 9 * 64 + TIME_LOOP);
    // A fall by one unit less is jitter: time goes back.
    let (next, _) = decode_word(state, RawEvent { tag: 8, pad: 10 }).unwrap();
    assert_eq!(next.n_time_high_loop, 0);
    assert_eq!(next.current_time_base, 10 * 64);
}

#[test]
fn time_that_leaves_64_bits_is_an_overflow() {
    let state = Evt2State {
        first_time_base_set: true,
        current_time_base: u64::MAX - 10,
        n_time_high_loop: 0,
    };
    assert_eq!(decode_word(state, RawEvent { tag: 0, pad: 63 << 22 }), None);
    let full = Evt2State {
        first_time_base_set: true,
        current_time_base: 0,
        n_time_high_loop: 1 << 30,
    };
    assert_eq!(decode_word(full, RawEvent { tag: 8, pad: 0 }), None);
    let ok = decode_word(state, RawEvent { tag: 0, pad: 10 << 22 });
    assert_eq!(
        ok,
        Some((state, Some(DVSRawEvent::CD(DVSEvent { timestamp: u64::MAX, x: 0, y: 0, polarity: 0 }))))
    );
}

#[test]
fn successive_wraps_keep_time_increasing() {
    let top = (1u32 << 28) - 1;
    let words = [time_high(top - 3), time_high(2), time_high(top), time_high(1), time_high(5)];
    let mut decoder = DVSRawDecoderEvt2::new(stream(&words));
    let mut last = 0u64;
    let mut bases = Vec::new();
    for _ in 0..words.len() {
        decoder.read_event().unwrap();
        let base = decoder.state().current_time_base;
        assert!(base >= last);
        last = base;
        bases.push(base);
    }
    assert_eq!(bases[1], 2 * 64 + TIME_LOOP);
    assert_eq!(bases[3], 64 + 2 * TIME_LOOP);
    assert_eq!(bases[4], 5 * 64 + 2 * TIME_LOOP);
    assert_eq!(decoder.state().n_time_high_loop, 2);
}

#[test]
fn raw_event_from_bytes_parts_tag_and_payload() {
    let raw = RawEvent::from([0x78, 0x56, 0x34, 0x12]);
    assert_eq!(raw, RawEvent { tag: 1, pad: 0x0234_5678 });
    let time = RawEventTime::from(raw);
    assert_eq!(time, RawEventTime { tag: 1, timestamp: 0x0234_5678 });
    let cd_word = RawEventCD::from(RawEvent::from(cd(true, 33, 1234, 567)));
    assert_eq!(cd_word, RawEventCD { tag: 1, timestamp: 33, x: 1234, y: 567 });
}

#[test]
fn event_types_from_tag() {
    assert_eq!(EventTypes::from(0x0), EventTypes::CdOff);
    assert_eq!(EventTypes::from(0x1), EventTypes::CdOn);
    assert_eq!(EventTypes::from(0x8), EventTypes::EvtTimeHigh);
    assert_eq!(EventTypes::from(0xA), EventTypes::ExtTrigger);
    assert_eq!(EventTypes::from(0x3), EventTypes::ExtTrigger);
}

#[test]
fn header_seeds_the_time_base_from_the_first_time_high() {
    let mut bytes = b"% camera one\n% evt 2.0\n% format EVT2;height=480;width=640\n% end\n".to_vec();
    bytes.extend_from_slice(&stream(&[cd(true, 1, 1, 1), time_high(100), cd(false, 2, 3, 4)]));
    let mut decoder = DVSRawDecoderEvt2::new(bytes);
    let header = decoder.read_header().unwrap();
    assert_eq!(
        header,
        vec![
            "% camera one\n".to_string(),
            "% evt 2.0\n".to_string(),
            "% format EVT2;height=480;width=640\n".to_string(),
            "% end\n".to_string()
        ]
    );
    assert_eq!(decoder.state().current_time_base, 6400);
    assert!(decoder.state().first_time_base_set);
    assert_eq!(decoder.metadata().sensor_width, 640);
    assert_eq!(decoder.metadata().sensor_height, 480);
    assert_eq!(
        decoder.read_event(),
        Ok(Some(DVSRawEvent::CD(DVSEvent { timestamp: 6402, x: 3, y: 4, polarity: 0 })))
    );
    assert_eq!(decoder.read_event(), Err(DvsError::UnexpectedEndOfStream));
}

#[test]
fn header_without_time_high_is_the_end_of_the_stream() {
    let mut bytes = b"% end\n".to_vec();
    bytes.extend_from_slice(&stream(&[cd(true, 1, 1, 1)]));
    let mut decoder = DVSRawDecoderEvt2::new(bytes);
    assert_eq!(decoder.read_header(), Err(DvsError::UnexpectedEndOfStream));
    assert_eq!(decoder.position(), 0);
}

#[test]
fn header_of_another_version_is_incompatible() {
    let mut bytes = b"% evt 3.0\n% end\n".to_vec();
    bytes.extend_from_slice(&stream(&[time_high(1)]));
    let mut decoder = DVSRawDecoderEvt2::new(bytes);
    assert_eq!(decoder.read_header(), Err(DvsError::IncompatibleVersion));
}

#[test]
fn header_of_another_format_is_incompatible() {
    let mut bytes = b"% format EVT3;width=10\n% end\n".to_vec();
    bytes.extend_from_slice(&stream(&[time_high(1)]));
    let mut decoder = DVSRawDecoderEvt2::new(bytes);
    assert_eq!(decoder.read_header(), Err(DvsError::IncompatibleVersion));
}

#[test]
fn reading_the_header_twice_gives_the_same() {
    let mut bytes = b"% end\n".to_vec();
    bytes.extend_from_slice(&stream(&[time_high(4), cd(true, 1, 2, 3)]));
    let mut decoder = DVSRawDecoderEvt2::new(bytes);
    let first = decoder.read_header().unwrap();
    let event = decoder.read_event();
    let second = decoder.read_header().unwrap();
    assert_eq!(first, second);
    assert_eq!(decoder.read_event(), event);
}
