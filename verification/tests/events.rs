use ebod::dvs::{DVSEvent, DVSRawEvent};

fn pixel(timestamp: u64, x: u16, y: u16, polarity: u8) -> DVSEvent {
    DVSEvent { timestamp, x, y, polarity }
}

#[test]
fn marker_time_is_payload_times_64() {
    let marker = DVSRawEvent::TimeHigh { timestamp: 3 };
    assert_eq!(marker.timestamp(), 192);
}

#[test]
fn pixel_time_is_its_timestamp() {
    let event = DVSRawEvent::CD(pixel(77, 1, 2, 1));
    assert_eq!(event.timestamp(), 77);
}

#[test]
fn marker_time_is_cut_to_64_bits() {
    let marker = DVSRawEvent::TimeHigh { timestamp: u64::MAX };
    assert_eq!(marker.timestamp(), u64::MAX - 63);
    let marker = DVSRawEvent::TimeHigh { timestamp: 1 << 58 };
    assert_eq!(marker.timestamp(), 0);
}

#[test]
fn default_event_is_all_zero() {
    let event = DVSEvent::default();
    assert_eq!(event, pixel(0, 0, 0, 0));
}

#[test]
fn wire_fit_checks_both_coordinates() {
    assert!(DVSRawEvent::CD(pixel(0, 2047, 2047, 1)).check_fits_wire());
    assert!(!DVSRawEvent::CD(pixel(0, 2048, 0, 1)).check_fits_wire());
    assert!(!DVSRawEvent::CD(pixel(0, 0, 2048, 1)).check_fits_wire());
    assert!(DVSRawEvent::TimeHigh { timestamp: u64::MAX }.check_fits_wire());
}

#[test]
fn slice_to_i64_gives_four_integers_per_event() {
    let events = vec![pixel(0x0102_0304_0506_0708, 0x1122, 0x3344, 1), pixel(9, 8, 7, 0)];
    let packed = DVSEvent::slice_to_i64(&events);
    let mut expected: Vec<u8> = Vec::new();
    for value in [0x0102_0304_0506_0708u64, 0x1122, 0x3344, 1, 9, 8, 7, 0] {
        expected.extend_from_slice(&value.to_le_bytes());
    }
    assert_eq!(packed.len(), 64);
    assert_eq!(packed.as_ref(), expected.as_slice());
}

#[test]
fn slice_to_i64_of_nothing_is_empty() {
    let packed = DVSEvent::slice_to_i64(&[]);
    assert!(packed.is_empty());
}

#[test]
fn one_event_packs_to_one_record() {
    let event = pixel(0x0102_0304_0506_0708, 0x1122, 0x3344, 1);
    let packed = event.to_bytes();
    assert_eq!(packed, DVSEvent::slice_to_i64(&[event]));
    assert_eq!(packed.len(), 32);
    assert_eq!(&packed[0..8], &[8u8, 7, 6, 5, 4, 3, 2, 1]);
    assert_eq!(&packed[8..16], &[0x22u8, 0x11, 0, 0, 0, 0, 0, 0]);
    assert_eq!(&packed[16..24], &[0x44u8, 0x33, 0, 0, 0, 0, 0, 0]);
    assert_eq!(&packed[24..32], &[1u8, 0, 0, 0, 0, 0, 0, 0]);
}

#[test]
fn record_unpacks_to_its_event() {
    for event in [pixel(0, 0, 0, 0), pixel(u64::MAX, u16::MAX, u16::MAX, u8::MAX), pixel(77, 5, 10, 1)] {
        assert_eq!(DVSEvent::from_bytes(&event.to_bytes()), Some(event));
    }
}

#[test]
fn bytes_that_are_no_record_unpack_to_nothing() {
    let good = pixel(1, 2, 3, 1).to_bytes();
    assert_eq!(DVSEvent::from_bytes(&good.slice(0..31)), None);
    assert_eq!(DVSEvent::from_bytes(&bytes::Bytes::new()), None);
    let two = DVSEvent::slice_to_i64(&[pixel(1, 2, 3, 1), pixel(1, 2, 3, 1)]);
    assert_eq!(DVSEvent::from_bytes(&two), None);
    let mut wide = good.to_vec();
    wide[10] = 1; // x no longer fits 16 bits
    assert_eq!(DVSEvent::from_bytes(&bytes::Bytes::from(wide)), None);
    let mut wide = good.to_vec();
    wide[25] = 1; // polarity no longer fits 8 bits
    assert_eq!(DVSEvent::from_bytes(&bytes::Bytes::from(wide)), None);
    let mut wide = good.to_vec();
    wide[23] = 0x80; // y no longer fits 16 bits
    assert_eq!(DVSEvent::from_bytes(&bytes::Bytes::from(wide)), None);
}
