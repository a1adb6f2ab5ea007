use ebod::dvs::{
    decode_events, encode_events, prep_file_decoder, DVSEvent, DVSRawEvent, DvsError,
    DvsRawDecoder, DvsRawDecoderEnum,
};
use ebod::dvs::raw_decoder_dat::DVSRawDecoderDat;
use ebod::loss::{apply_loss, LossPolicy};

fn evt2_file() -> Vec<u8> {
    let mut bytes = b"% evt 2.0\n% format EVT2;height=480;width=640\n% end\n".to_vec();
    for w in [0x8000_0002u32, 0x1000_0000 | (3 << 22) | (5 << 11) | 10, 0x8000_0003, (7 << 22) | 1] {
        bytes.extend_from_slice(&w.to_le_bytes());
    }
    bytes
}

fn evt3_file() -> Vec<u8> {
    let mut bytes = b"% evt 3.0\n% format EVT3;height=720;width=1280\n% end\n".to_vec();
    for w in [0x8001u16, 0x6002, 0x0007, 0x2805] {
        bytes.extend_from_slice(&w.to_le_bytes());
    }
    bytes
}

#[test]
fn raw_file_of_evt2_gets_the_evt2_decoder() {
    let decoder = prep_file_decoder("recording.raw", evt2_file()).unwrap();
    match decoder {
        DvsRawDecoderEnum::Evt2(d) => {
            assert_eq!(d.state().current_time_base, 128);
            assert_eq!(d.metadata().sensor_width, 640);
        }
        _ => panic!("wrong decoder"),
    }
}

#[test]
fn raw_file_of_evt3_falls_through_to_the_evt3_decoder() {
    let decoder = prep_file_decoder("dir.raw/recording.raw", evt3_file()).unwrap();
    match decoder {
        DvsRawDecoderEnum::Evt3(d) => {
            assert_eq!(d.state().current_time_base, 4096 + 2);
            assert_eq!(d.metadata().sensor_height, 720);
        }
        _ => panic!("wrong decoder"),
    }
}

#[test]
fn malformed_header_falls_through_and_the_second_failure_is_reported() {
    let mut bytes = b"% geometry wide\n% end\n".to_vec();
    bytes.extend_from_slice(&[0, 0x80, 0, 0x60]);
    assert_eq!(prep_file_decoder("a.raw", bytes).err(), Some(DvsError::MalformedHeader));
}

#[test]
fn end_of_stream_in_the_evt2_attempt_is_final() {
    // EVT3 would find its time words here; EVT2 finds no whole word.
    let mut bytes = b"% end\n".to_vec();
    bytes.extend_from_slice(&[0x01, 0x80]);
    assert_eq!(prep_file_decoder("a.raw", bytes).err(), Some(DvsError::UnexpectedEndOfStream));
}

#[test]
fn dat_file_gets_the_dat_decoder() {
    let bytes = b"% width 304\n% height 240\n\x00\x08rest".to_vec();
    let decoder = prep_file_decoder("old.dat", bytes).unwrap();
    match decoder {
        DvsRawDecoderEnum::Dat(d) => {
            assert_eq!(d.metadata().sensor_width, 304);
            assert_eq!(d.position(), 25);
        }
        _ => panic!("wrong decoder"),
    }
}

#[test]
fn other_extensions_are_not_supported() {
    assert_eq!(prep_file_decoder("a.bin", evt2_file()).err(), Some(DvsError::UnsupportedFormat));
    assert_eq!(prep_file_decoder("raw", evt2_file()).err(), Some(DvsError::UnsupportedFormat));
    assert_eq!(prep_file_decoder("a.RAW", evt2_file()).err(), Some(DvsError::UnsupportedFormat));
    assert_eq!(prep_file_decoder("", evt2_file()).err(), Some(DvsError::UnsupportedFormat));
    assert_eq!(prep_file_decoder("a.raw.txt", evt2_file()).err(), Some(DvsError::UnsupportedFormat));
}

#[test]
fn dat_decoder_yields_no_event() {
    let mut decoder = DVSRawDecoderDat::new(b"% width 3\n\x00\x01\x02\x03\x04\x05\x06\x07".to_vec());
    assert_eq!(decoder.read_header().unwrap(), vec!["% width 3\n"]);
    assert_eq!(decoder.read_event(), Ok(None));
    assert_eq!(decoder.read_event(), Ok(None));
    assert_eq!(decoder.position(), 10);
    let (events, header) = decode_events("x.dat", b"% height 2\n\x01\x02".to_vec()).unwrap();
    assert!(events.is_empty());
    assert_eq!(header, vec!["% height 2\n"]);
}

#[test]
fn decode_events_gives_header_and_all_events() {
    let (events, header) = decode_events("a.raw", evt2_file()).unwrap();
    assert_eq!(header.len(), 3);
    assert_eq!(header[0], "% evt 2.0\n");
    assert_eq!(
        events,
        vec![
            DVSRawEvent::CD(DVSEvent { timestamp: 131, x: 5, y: 10, polarity: 1 }),
            DVSRawEvent::TimeHigh { timestamp: 3 },
            DVSRawEvent::CD(DVSEvent { timestamp: 199, x: 0, y: 1, polarity: 0 }),
        ]
    );
}

#[test]
fn decode_events_of_evt3() {
    let (events, header) = decode_events("b.raw", evt3_file()).unwrap();
    assert_eq!(header.len(), 3);
    assert_eq!(events, vec![DVSRawEvent::CD(DVSEvent { timestamp: 4098, x: 5, y: 7, polarity: 1 })]);
}

#[test]
fn decode_events_reports_the_failure_of_the_header() {
    assert_eq!(decode_events("a.txt", evt2_file()).err(), Some(DvsError::UnsupportedFormat));
    assert_eq!(decode_events("a.raw", Vec::new()).err(), Some(DvsError::UnexpectedEndOfStream));
}

#[test]
fn enum_decoder_reads_like_the_decoder_it_holds() {
    let mut decoder = prep_file_decoder("a.raw", evt2_file()).unwrap();
    let header = decoder.read_header().unwrap();
    assert_eq!(header.len(), 3);
    assert_eq!(
        decoder.read_event(),
        Ok(Some(DVSRawEvent::CD(DVSEvent { timestamp: 131, x: 5, y: 10, polarity: 1 })))
    );
}

#[test]
fn decode_shape_encode_keeps_markers_and_capacity() {
    let (events, header) = decode_events("a.raw", evt2_file()).unwrap();
    let shaped = apply_loss(&events, 1000, 32_000, LossPolicy::TailDrop);
    assert_eq!(
        shaped,
        vec![
            DVSRawEvent::CD(DVSEvent { timestamp: 131, x: 5, y: 10, polarity: 1 }),
            DVSRawEvent::TimeHigh { timestamp: 3 },
        ]
    );
    let bytes = encode_events(shaped, header);
    let (again, _) = decode_events("b.raw", bytes).unwrap();
    assert_eq!(
        again,
        vec![
            DVSRawEvent::CD(DVSEvent { timestamp: 131, x: 5, y: 10, polarity: 1 }),
            DVSRawEvent::TimeHigh { timestamp: 3 },
        ]
    );
}
