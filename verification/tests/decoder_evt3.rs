use ebod::dvs::raw_decoder_evt3::{DVSRawDecoderEvt3, EventTypes, TIME_LOOP};
use ebod::dvs::{DVSEvent, DVSRawEvent, DvsError, DvsRawDecoder};

fn word3(tag: u16, payload: u16) -> [u8; 2] {
    ((tag << 12) | (payload & 0x0FFF)).to_le_bytes()
}

fn stream3(words: &[[u8; 2]]) -> Vec<u8> {
    let mut bytes = Vec::new();
    for w in words {
        bytes.extend_from_slice(w);
    }
    bytes
}

fn read_pixel(decoder: &mut DVSRawDecoderEvt3) -> DVSEvent {
    match decoder.read_event() {
        Ok(Some(DVSRawEvent::CD(ev))) => ev,
        other => panic!("no pixel event: {:?}", other),
    }
}

#[test]
fn vect12_expands_to_the_set_columns_in_ascending_order() {
    let words = [
        word3(0x8, 1),
        word3(0x6, 5),
        word3(0x0, 77),
        word3(0x3, 0x800),
        word3(0x4, 0b1010_1010_1010),
    ];
    let mut decoder = DVSRawDecoderEvt3::new(stream3(&words));
    let mut xs = Vec::new();
    for _ in 0..6 {
        let ev = read_pixel(&mut decoder);
        assert_eq!(ev.timestamp, 4096 + 5);
        assert_eq!(ev.y, 77);
        assert_eq!(ev.polarity, 1);
        xs.push(ev.x);
    }
    assert_eq!(xs, vec![1, 3, 5, 7, 9, 11]);
    assert_eq!(decoder.read_event(), Err(DvsError::UnexpectedEndOfStream));
    assert_eq!(decoder.state().current_base_x, 12);
}

#[test]
fn vect8_reads_eight_columns_and_moves_the_base() {
    let words = [word3(0x3, 100), word3(0x5, 0b1000_0001), word3(0x5, 0xF01), word3(0x2, 0x805)];
    let mut decoder = DVSRawDecoderEvt3::new(stream3(&words));
    assert_eq!(read_pixel(&mut decoder), DVSEvent { timestamp: 0, x: 100, y: 0, polarity: 0 });
    assert_eq!(read_pixel(&mut decoder), DVSEvent { timestamp: 0, x: 107, y: 0, polarity: 0 });
    // The high payload bits of a Vect8 word are no columns.
    assert_eq!(read_pixel(&mut decoder), DVSEvent { timestamp: 0, x: 108, y: 0, polarity: 0 });
    assert_eq!(decoder.state().current_base_x, 116);
    assert_eq!(read_pixel(&mut decoder), DVSEvent { timestamp: 0, x: 5, y: 0, polarity: 1 });
}

#[test]
fn empty_vector_yields_nothing_but_moves_the_base() {
    let words = [word3(0x3, 10), word3(0x4, 0), word3(0x4, 1)];
    let mut decoder = DVSRawDecoderEvt3::new(stream3(&words));
    assert_eq!(read_pixel(&mut decoder).x, 22);
    assert_eq!(decoder.state().current_base_x, 34);
}

#[test]
fn queued_events_come_before_new_words() {
    let words = [word3(0x4, 0b11), word3(0x0, 9), word3(0x2, 3)];
    let mut decoder = DVSRawDecoderEvt3::new(stream3(&words));
    assert_eq!(read_pixel(&mut decoder).x, 0);
    assert_eq!(decoder.position(), 2);
    let second = read_pixel(&mut decoder);
    assert_eq!((second.x, second.y), (1, 0));
    assert_eq!(decoder.position(), 2);
    let third = read_pixel(&mut decoder);
    assert_eq!((third.x, third.y), (3, 9));
    assert_eq!(decoder.position(), 6);
}

#[test]
fn addr_x_uses_the_current_row_and_time() {
    let words = [word3(0x0, 0x800 | 300), word3(0x8, 2), word3(0x6, 4095), word3(0x2, 0x7FF)];
    let mut decoder = DVSRawDecoderEvt3::new(stream3(&words));
    assert_eq!(
        read_pixel(&mut decoder),
        DVSEvent { timestamp: 2 * 4096 + 4095, x: 2047, y: 300, polarity: 0 }
    );
}

#[test]
fn time_high_resets_the_fine_time() {
    let words = [word3(0x8, 1), word3(0x6, 7), word3(0x8, 2), word3(0x2, 1)];
    let mut decoder = DVSRawDecoderEvt3::new(stream3(&words));
    assert_eq!(read_pixel(&mut decoder).timestamp, 2 * 4096);
}

#[test]
fn coarse_time_wrap_counts_a_rollover() {
    let words = [word3(0x8, 4095), word3(0x8, 0), word3(0x6, 3), word3(0x2, 1)];
    let mut decoder = DVSRawDecoderEvt3::new(stream3(&words));
    assert_eq!(read_pixel(&mut decoder).timestamp, TIME_LOOP + 3);
    assert_eq!(decoder.state().n_time_high_loop, 1);
    assert_eq!(decoder.state().current_time_base, TIME_LOOP);
}

#[test]
fn small_step_back_is_no_wrap() {
    let words = [word3(0x8, 4095), word3(0x8, 4090), word3(0x2, 1)];
    let mut decoder = DVSRawDecoderEvt3::new(stream3(&words));
    assert_eq!(read_pixel(&mut decoder).timestamp, 4090 * 4096);
    assert_eq!(decoder.state().n_time_high_loop, 0);
}

#[test]
fn ignored_words_yield_nothing() {
    let words = [word3(0xA, 1), word3(0x7, 2), word3(0xF, 3), word3(0xE, 4), word3(0x1, 5)];
    let mut decoder = DVSRawDecoderEvt3::new(stream3(&words));
    assert_eq!(decoder.read_event(), Err(DvsError::UnexpectedEndOfStream));
    assert_eq!(decoder.position(), 10);
}

#[test]
fn base_column_beyond_sixteen_bits_is_an_overflow() {
    let mut words = vec![word3(0x3, 2047)];
    // 2047 + 5290 * 12 = 65527; one more Vect12 word would pass 65535.
    for _ in 0..5290 {
        words.push(word3(0x4, 0));
    }
    words.push(word3(0x4, 1));
    words.push(word3(0x2, 1));
    let mut decoder = DVSRawDecoderEvt3::new(stream3(&words));
    assert_eq!(decoder.read_event(), Err(DvsError::Overflow));
    assert_eq!(decoder.state().current_base_x, 65527);
    assert_eq!(decoder.position(), 2 * 5291);
    assert_eq!(decoder.read_event(), Err(DvsError::Overflow));
}

#[test]
fn odd_trailing_byte_ends_the_stream() {
    let mut bytes = stream3(&[word3(0x0, 1)]);
    bytes.push(0x42);
    let mut decoder = DVSRawDecoderEvt3::new(bytes);
    assert_eq!(decoder.read_event(), Err(DvsError::UnexpectedEndOfStream));
    assert_eq!(decoder.position(), 2);
}

#[test]
fn evt3_event_types_from_tag() {
    assert_eq!(EventTypes::from(0x0), EventTypes::EvtAddrY);
    assert_eq!(EventTypes::from(0x2), EventTypes::EvtAddrX);
    assert_eq!(EventTypes::from(0x3), EventTypes::VectBaseX);
    assert_eq!(EventTypes::from(0x4), EventTypes::Vect12);
    assert_eq!(EventTypes::from(0x5), EventTypes::Vect8);
    assert_eq!(EventTypes::from(0x6), EventTypes::EvtTimeLow);
    assert_eq!(EventTypes::from(0x7), EventTypes::Continued4);
    assert_eq!(EventTypes::from(0x8), EventTypes::EvtTimeHigh);
    assert_eq!(EventTypes::from(0xA), EventTypes::ExtTrigger);
    assert_eq!(EventTypes::from(0xE), EventTypes::Others);
    assert_eq!(EventTypes::from(0xF), EventTypes::Continued12);
    assert_eq!(EventTypes::from(0x1), EventTypes::ExtTrigger);
}

#[test]
fn evt3_header_takes_time_from_high_and_low_words() {
    let mut bytes = b"% evt 3.0\n% format EVT3;height=720;width=1280\n% end\n".to_vec();
    bytes.extend_from_slice(&stream3(&[
        word3(0x0, 5),
        word3(0x8, 3),
        word3(0x6, 9),
        word3(0x2, 0x800 | 7),
    ]));
    let mut decoder = DVSRawDecoderEvt3::new(bytes);
    let header = decoder.read_header().unwrap();
    assert_eq!(header.len(), 3);
    assert_eq!(header[2], "% end\n");
    assert_eq!(decoder.state().current_time_base, 3 * 4096 + 9);
    assert_eq!(decoder.state().current_time, 3 * 4096 + 9);
    assert!(decoder.state().first_time_base_set);
    // The row word before the time words is passed over, not applied.
    assert_eq!(
        read_pixel(&mut decoder),
        DVSEvent { timestamp: 3 * 4096 + 9, x: 7, y: 0, polarity: 1 }
    );
}

#[test]
fn evt3_default_geometry_is_1280_by_720() {
    let mut bytes = b"% end\n".to_vec();
    bytes.extend_from_slice(&stream3(&[word3(0x8, 0), word3(0x6, 0)]));
    let mut decoder = DVSRawDecoderEvt3::new(bytes);
    assert_eq!(decoder.metadata().sensor_width, 1280);
    decoder.read_header().unwrap();
    assert_eq!(decoder.metadata().sensor_width, 1280);
    assert_eq!(decoder.metadata().sensor_height, 720);
}

#[test]
fn evt3_header_needs_the_word_behind_time_high() {
    let mut bytes = b"% end\n".to_vec();
    bytes.extend_from_slice(&stream3(&[word3(0x8, 3)]));
    let mut decoder = DVSRawDecoderEvt3::new(bytes);
    assert_eq!(decoder.read_header(), Err(DvsError::UnexpectedEndOfStream));
}

#[test]
fn evt3_header_of_version_2_is_incompatible() {
    let mut bytes = b"% evt 2.0\n% end\n".to_vec();
    bytes.extend_from_slice(&stream3(&[word3(0x8, 3), word3(0x6, 0)]));
    let mut decoder = DVSRawDecoderEvt3::new(bytes);
    assert_eq!(decoder.read_header(), Err(DvsError::IncompatibleVersion));
}
