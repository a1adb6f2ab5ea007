use ebod::dvs::header::{
    find_byte, find_line_end, parse_number, range_equals, range_starts_with, read_directive,
    read_preamble, Metadata, StreamFormat,
};
use ebod::dvs::DvsError;

fn unknown() -> Metadata {
    Metadata { sensor_width: -1, sensor_height: -1 }
}

fn directive_of(line: &str, format: StreamFormat) -> Result<Metadata, DvsError> {
    read_directive(line.as_bytes(), 0, line.len(), format, unknown())
}

#[test]
fn metadata_default_is_unknown() {
    assert_eq!(Metadata::default(), unknown());
}

#[test]
fn line_end_is_behind_the_newline_or_at_the_end() {
    let data = b"ab\ncd";
    assert_eq!(find_line_end(data, 0), 3);
    assert_eq!(find_line_end(data, 2), 3);
    assert_eq!(find_line_end(data, 3), 5);
    assert_eq!(find_line_end(data, 5), 5);
}

#[test]
fn find_byte_gives_the_first_or_the_end() {
    let data = b"a;b;c";
    assert_eq!(find_byte(data, 0, 5, b';'), 1);
    assert_eq!(find_byte(data, 2, 5, b';'), 3);
    assert_eq!(find_byte(data, 4, 5, b';'), 5);
    assert_eq!(find_byte(data, 2, 2, b';'), 2);
}

#[test]
fn range_comparisons() {
    let data = b"hello world";
    assert!(range_equals(data, 6, 11, b"world"));
    assert!(!range_equals(data, 6, 10, b"world"));
    assert!(!range_equals(data, 0, 5, b"help!"));
    assert!(range_starts_with(data, 0, 11, b"hell"));
    assert!(range_starts_with(data, 3, 11, b""));
    assert!(!range_starts_with(data, 8, 11, b"rldx"));
}

#[test]
fn numbers_are_plain_decimal_digits() {
    assert_eq!(parse_number(b"1280", 0, 4), Some(1280));
    assert_eq!(parse_number(b"x0720", 1, 5), Some(720));
    assert_eq!(parse_number(b"0", 0, 1), Some(0));
    assert_eq!(parse_number(b"2147483647", 0, 10), Some(i32::MAX));
    assert_eq!(parse_number(b"2147483648", 0, 10), None);
    assert_eq!(parse_number(b"99999999999999999999999", 0, 23), None);
    assert_eq!(parse_number(b"", 0, 0), None);
    assert_eq!(parse_number(b"12a", 0, 3), None);
    assert_eq!(parse_number(b"-5", 0, 2), None);
    assert_eq!(parse_number(b" 5", 0, 2), None);
}

#[test]
fn format_directive_sets_width_and_height() {
    let meta = directive_of(" format EVT2;width=640;height=480;\n", StreamFormat::Evt2).unwrap();
    assert_eq!(meta, Metadata { sensor_width: 640, sensor_height: 480 });
    let meta = directive_of(" format EVT3;height=720;width=1280", StreamFormat::Evt3).unwrap();
    assert_eq!(meta, Metadata { sensor_width: 1280, sensor_height: 720 });
    let meta = directive_of(" format EVT3;other=1;;width=3\n", StreamFormat::Evt3).unwrap();
    assert_eq!(meta, Metadata { sensor_width: 3, sensor_height: -1 });
    let meta = directive_of(" format EVT2\n", StreamFormat::Evt2).unwrap();
    assert_eq!(meta, unknown());
}

#[test]
fn format_directive_of_the_other_format_is_incompatible() {
    assert_eq!(
        directive_of(" format EVT3;width=640\n", StreamFormat::Evt2),
        Err(DvsError::IncompatibleVersion)
    );
    assert_eq!(
        directive_of(" format EVT2;width=640\n", StreamFormat::Evt3),
        Err(DvsError::IncompatibleVersion)
    );
    assert_eq!(directive_of(" format \n", StreamFormat::Evt3), Err(DvsError::IncompatibleVersion));
}

#[test]
fn format_directive_with_bad_fields_is_malformed() {
    assert_eq!(
        directive_of(" format EVT2;width=abc\n", StreamFormat::Evt2),
        Err(DvsError::MalformedHeader)
    );
    assert_eq!(
        directive_of(" format EVT2;width\n", StreamFormat::Evt2),
        Err(DvsError::MalformedHeader)
    );
    assert_eq!(
        directive_of(" format EVT2;height=\n", StreamFormat::Evt2),
        Err(DvsError::MalformedHeader)
    );
}

#[test]
fn geometry_directive_gives_width_by_height() {
    let meta = directive_of(" geometry 1280x720\n", StreamFormat::Evt3).unwrap();
    assert_eq!(meta, Metadata { sensor_width: 1280, sensor_height: 720 });
    assert_eq!(directive_of(" geometry 1280\n", StreamFormat::Evt3), Err(DvsError::MalformedHeader));
    assert_eq!(
        directive_of(" geometry 12x7x2\n", StreamFormat::Evt2),
        Err(DvsError::MalformedHeader)
    );
    assert_eq!(directive_of(" geometry x7\n", StreamFormat::Evt2), Err(DvsError::MalformedHeader));
}

#[test]
fn version_directive_must_match_the_decoder() {
    assert_eq!(directive_of(" evt 2.0\n", StreamFormat::Evt2), Ok(unknown()));
    assert_eq!(directive_of(" evt 3.0\n", StreamFormat::Evt3), Ok(unknown()));
    assert_eq!(directive_of(" evt 2.1\n", StreamFormat::Evt2), Err(DvsError::IncompatibleVersion));
    assert_eq!(directive_of(" evt 3.0\n", StreamFormat::Evt2), Err(DvsError::IncompatibleVersion));
    assert_eq!(directive_of(" evt \n", StreamFormat::Evt3), Err(DvsError::IncompatibleVersion));
}

#[test]
fn other_lines_are_no_directives() {
    assert_eq!(directive_of(" date 2024-01-01\n", StreamFormat::Evt2), Ok(unknown()));
    assert_eq!(directive_of("format EVT3\n", StreamFormat::Evt2), Ok(unknown()));
    assert_eq!(directive_of("", StreamFormat::Evt2), Ok(unknown()));
    assert_eq!(directive_of(" width 640\n", StreamFormat::Evt2), Ok(unknown()));
    assert_eq!(directive_of(" evt 9.9\n", StreamFormat::Dat), Ok(unknown()));
}

#[test]
fn dat_directives_are_width_and_height_lines() {
    let meta = directive_of(" width 304\n", StreamFormat::Dat).unwrap();
    assert_eq!(meta, Metadata { sensor_width: 304, sensor_height: -1 });
    let meta = directive_of(" height 240\n", StreamFormat::Dat).unwrap();
    assert_eq!(meta, Metadata { sensor_width: -1, sensor_height: 240 });
    assert_eq!(directive_of(" width wide\n", StreamFormat::Dat), Err(DvsError::MalformedHeader));
}

#[test]
fn preamble_ends_behind_the_terminator() {
    let data = b"% a\n% geometry 10x20\n% end\n% not a header line\n";
    let found = read_preamble(data, StreamFormat::Evt2, unknown()).unwrap();
    assert_eq!(found.end, 27);
    assert_eq!(found.metadata, Metadata { sensor_width: 10, sensor_height: 20 });
    assert_eq!(found.lines, vec!["% a\n", "% geometry 10x20\n", "% end\n"]);
}

#[test]
fn preamble_ends_before_the_first_byte_that_is_no_marker() {
    let data = b"% a\n\x01\x02\x03\x04";
    let found = read_preamble(data, StreamFormat::Evt3, unknown()).unwrap();
    assert_eq!(found.end, 4);
    assert_eq!(found.lines, vec!["% a\n"]);
    let none = read_preamble(b"\x00abc", StreamFormat::Evt2, unknown()).unwrap();
    assert_eq!(none.end, 0);
    assert!(none.lines.is_empty());
}

#[test]
fn dat_preamble_has_no_terminator() {
    let data = b"% width 304\n% end\n% height 240\nrest";
    let found = read_preamble(data, StreamFormat::Dat, unknown()).unwrap();
    assert_eq!(found.end, 31);
    assert_eq!(found.metadata, Metadata { sensor_width: 304, sensor_height: 240 });
    assert_eq!(found.lines.len(), 3);
}

#[test]
fn preamble_without_events_is_the_end_of_the_stream() {
    assert_eq!(
        read_preamble(b"% a\n% b\n", StreamFormat::Evt2, unknown()).err(),
        Some(DvsError::UnexpectedEndOfStream)
    );
    assert_eq!(
        read_preamble(b"", StreamFormat::Evt2, unknown()).err(),
        Some(DvsError::UnexpectedEndOfStream)
    );
    // The terminator needs its newline.
    assert_eq!(
        read_preamble(b"% end", StreamFormat::Evt2, unknown()).err(),
        Some(DvsError::UnexpectedEndOfStream)
    );
    assert!(read_preamble(b"% end\n", StreamFormat::Evt2, unknown()).is_ok());
}

#[test]
fn preamble_line_that_is_no_text_is_malformed() {
    let data = b"% caf\xC3\xA9\n% end\n";
    let found = read_preamble(data, StreamFormat::Evt2, unknown()).unwrap();
    assert_eq!(found.lines[0], "% caf\u{e9}\n");
    let broken = b"% \xFF\xFE\n% end\n";
    assert_eq!(
        read_preamble(broken, StreamFormat::Evt2, unknown()).err(),
        Some(DvsError::MalformedHeader)
    );
}

#[test]
fn first_failing_directive_ends_the_preamble() {
    let data = b"% geometry bad\n% evt 9.9\n% end\n";
    assert_eq!(
        read_preamble(data, StreamFormat::Evt2, unknown()).err(),
        Some(DvsError::MalformedHeader)
    );
    let data = b"% evt 9.9\n% geometry bad\n% end\n";
    assert_eq!(
        read_preamble(data, StreamFormat::Evt2, unknown()).err(),
        Some(DvsError::IncompatibleVersion)
    );
}
