//! The text preamble of a stream.
//!
//! A stream starts with lines of text, each behind a `%` marker. Some of
//! them are directives that name the format, its version and the size of
//! the sensor. The preamble of an EVT2 or EVT3 stream ends with the
//! line `% end`; that of a DAT stream ends where a line starts with
//! another byte than the marker. The functions here work on the bytes of
//! the stream and tell where the events begin.
use crate::dvs::DvsError;
use vstd::prelude::*;
use vstd::utf8::{decode_utf8, valid_utf8};

verus! {

/// The byte `%`, which opens every line of a preamble.
pub const MARKER: u8 = 0x25;

/// The byte that closes a line.
pub const NEWLINE: u8 = 0x0A;

/// The stream formats that have a preamble.
#[derive(Debug, Clone, Copy, PartialEq, Eq, Structural)]
pub enum StreamFormat {
    Evt2,
    Evt3,
    Dat,
}

/// Size of the sensor in pixels, as far as the preamble tells it. A value of
/// -1 stands for a size that no directive has given.
#[derive(Debug, Clone, Copy, PartialEq, Eq, Structural)]
pub struct Metadata {
    pub sensor_width: i32,
    pub sensor_height: i32,
}

impl Default for Metadata {
    fn default() -> (metadata: Self)
        ensures
            metadata.sensor_width == -1,
            metadata.sensor_height == -1,
    {
        Metadata { sensor_width: -1, sensor_height: -1 }
    }
}

/// Index just behind the line that starts at `start`: behind its newline,
/// or the end of the data where no newline follows.
pub open spec fn line_end(data: Seq<u8>, start: int) -> int
    decreases data.len() - start,
{
    if start >= data.len() {
        data.len() as int
    } else if data[start] == NEWLINE {
        start + 1
    } else {
        line_end(data, start + 1)
    }
}

/// Index of the first `byte` in `text`, or the length of `text` where it
/// holds none.
pub open spec fn position_of(text: Seq<u8>, byte: u8) -> int
    decreases text.len(),
{
    if text.len() == 0 || text[0] == byte {
        0
    } else {
        1 + position_of(text.drop_first(), byte)
    }
}

/// What follows the separator at `cut`; nothing where `cut` is the end.
pub open spec fn behind(text: Seq<u8>, cut: int) -> Seq<u8> {
    if 0 <= cut < text.len() {
        text.skip(cut + 1)
    } else {
        Seq::empty()
    }
}

/// The value of a text of decimal digits.
pub open spec fn decimal_value(text: Seq<u8>) -> nat
    decreases text.len(),
{
    if text.len() == 0 {
        0
    } else {
        (decimal_value(text.drop_last()) * 10 + (text.last() - 0x30)) as nat
    }
}

/// True when `text` holds decimal digits and nothing else.
pub open spec fn all_digits(text: Seq<u8>) -> bool {
    forall|i: int| 0 <= i < text.len() ==> 0x30 <= #[trigger] text[i] <= 0x39
}

/// The number that `text` spells: one or more decimal digits whose value
/// fits in 31 bits. Anything else is no number.
pub open spec fn number(text: Seq<u8>) -> Option<i32> {
    if text.len() > 0 && all_digits(text) && decimal_value(text) <= i32::MAX {
        Some(decimal_value(text) as i32)
    } else {
        None
    }
}

/// The first index at which `byte` stands is the position of `byte`.
pub proof fn lemma_position_of(text: Seq<u8>, byte: u8, at: int)
    requires
        0 <= at <= text.len(),
        forall|i: int| 0 <= i < at ==> text[i] != byte,
        at < text.len() ==> text[at] == byte,
    ensures
        position_of(text, byte) == at,
    decreases at,
{
    if at > 0 {
        lemma_position_of(text.drop_first(), byte, at - 1);
    }
}

/// The position of a byte lies within the text, no earlier index holds the
/// byte, and the position holds it unless it is the end.
pub proof fn lemma_position_of_bounds(text: Seq<u8>, byte: u8)
    ensures
        0 <= position_of(text, byte) <= text.len(),
        forall|i: int| 0 <= i < position_of(text, byte) ==> text[i] != byte,
        position_of(text, byte) < text.len() ==> text[position_of(text, byte)] == byte,
    decreases text.len(),
{
    if text.len() == 0 || text[0] == byte {
    } else {
        let rest = text.drop_first();
        lemma_position_of_bounds(rest, byte);
        assert forall|i: int| 0 <= i < position_of(text, byte) implies text[i] != byte by {
            if i > 0 {
                assert(rest[i - 1] == text[i]);
            }
        }
    }
}

/// The end of a line lies behind its start and within the data.
pub proof fn lemma_line_end_bounds(data: Seq<u8>, start: int)
    requires
        0 <= start < data.len(),
    ensures
        start < line_end(data, start) <= data.len(),
    decreases data.len() - start,
{
    if data[start] != NEWLINE {
        if start + 1 < data.len() {
            lemma_line_end_bounds(data, start + 1);
        } else {
            assert(line_end(data, start + 1) == data.len());
        }
    }
}

/// A longer text of digits has no smaller value than its beginning.
pub proof fn lemma_decimal_prefix(text: Seq<u8>, prefix: int)
    requires
        0 <= prefix <= text.len(),
        all_digits(text),
    ensures
        decimal_value(text.take(prefix)) <= decimal_value(text),
    decreases text.len() - prefix,
{
    if prefix == text.len() {
        assert(text.take(prefix) == text);
    } else {
        let shorter = text.drop_last();
        assert(all_digits(shorter)) by {
            assert forall|i: int| 0 <= i < shorter.len() implies 0x30 <= #[trigger] shorter[i]
                <= 0x39 by {
                assert(shorter[i] == text[i]);
            }
        }
        assert(shorter.take(prefix) == text.take(prefix));
        lemma_decimal_prefix(shorter, prefix);
        assert(0x30 <= text[text.len() - 1]);
    }
}

/// Index just behind the line of `data` that starts at `start`.
pub fn find_line_end(data: &[u8], start: usize) -> (end: usize)
    requires
        start <= data.len(),
    ensures
        end == line_end(data@, start as int),
        start <= end <= data.len(),
{
    let mut i: usize = start;
    while i < data.len()
        invariant
            start <= i <= data.len(),
            line_end(data@, i as int) == line_end(data@, start as int),
        decreases data.len() - i,
    {
        if data[i] == NEWLINE {
            return i + 1;
        }
        i = i + 1;
    }
    i
}

/// Index of the first `byte` among `data[from..to]`, or `to` where there is
/// none.
pub fn find_byte(data: &[u8], from: usize, to: usize, byte: u8) -> (at: usize)
    requires
        from <= to <= data.len(),
    ensures
        from <= at <= to,
        at - from == position_of(data@.subrange(from as int, to as int), byte),
{
    let ghost text = data@.subrange(from as int, to as int);
    let mut i: usize = from;
    while i < to
        invariant
            from <= i <= to <= data.len(),
            text == data@.subrange(from as int, to as int),
            forall|k: int| 0 <= k < i - from ==> text[k] != byte,
        decreases to - i,
    {
        if data[i] == byte {
            proof {
                lemma_position_of(text, byte, i - from);
            }
            return i;
        }
        i = i + 1;
    }
    proof {
        lemma_position_of(text, byte, to - from);
    }
    to
}

/// True when `data[from..to]` is `pattern`.
pub fn range_equals(data: &[u8], from: usize, to: usize, pattern: &[u8]) -> (same: bool)
    requires
        from <= to <= data.len(),
    ensures
        same == (data@.subrange(from as int, to as int) == pattern@),
{
    if to - from != pattern.len() {
        return false;
    }
    let ghost text = data@.subrange(from as int, to as int);
    let mut i: usize = 0;
    while i < pattern.len()
        invariant
            from <= to <= data.len(),
            to - from == pattern.len(),
            i <= pattern.len(),
            text == data@.subrange(from as int, to as int),
            forall|k: int| 0 <= k < i ==> text[k] == pattern@[k],
        decreases pattern.len() - i,
    {
        if data[from + i] != pattern[i] {
            assert(text[i as int] != pattern@[i as int]);
            return false;
        }
        i = i + 1;
    }
    assert(text =~= pattern@);
    true
}

/// True when `data[from..to]` begins with `pattern`.
pub fn range_starts_with(data: &[u8], from: usize, to: usize, pattern: &[u8]) -> (found: bool)
    requires
        from <= to <= data.len(),
    ensures
        found == pattern@.is_prefix_of(data@.subrange(from as int, to as int)),
{
    if to - from < pattern.len() {
        return false;
    }
    let found = range_equals(data, from, from + pattern.len(), pattern);
    proof {
        let text = data@.subrange(from as int, to as int);
        assert(text.subrange(0, pattern@.len() as int) =~= data@.subrange(
            from as int,
            from + pattern@.len(),
        ));
    }
    found
}

/// The number that `data[from..to]` spells, if it spells one.
pub fn parse_number(data: &[u8], from: usize, to: usize) -> (value: Option<i32>)
    requires
        from <= to <= data.len(),
    ensures
        value == number(data@.subrange(from as int, to as int)),
{
    let ghost text = data@.subrange(from as int, to as int);
    if from == to {
        return None;
    }
    let mut acc: i64 = 0;
    let mut i: usize = from;
    while i < to
        invariant
            from <= i <= to <= data.len(),
            text == data@.subrange(from as int, to as int),
            all_digits(text.take(i - from)),
            acc == decimal_value(text.take(i - from)),
            0 <= acc <= i32::MAX,
        decreases to - i,
    {
        let byte = data[i];
        if byte < 0x30 || byte > 0x39 {
            assert(text[i - from] == byte);
            return None;
        }
        let ghost longer = text.take(i - from + 1);
        assert(longer.drop_last() == text.take(i - from));
        assert(longer.last() == byte);
        assert(all_digits(longer)) by {
            assert forall|k: int| 0 <= k < longer.len() implies 0x30 <= #[trigger] longer[k]
                <= 0x39 by {
                if k < i - from {
                    assert(text.take(i - from)[k] == longer[k]);
                }
            }
        }
        acc = acc * 10 + (byte - 0x30) as i64;
        if acc > i32::MAX as i64 {
            proof {
                if all_digits(text) {
                    lemma_decimal_prefix(text, i - from + 1);
                }
            }
            return None;
        }
        i = i + 1;
    }
    assert(text.take(to - from) == text);
    Some(acc as i32)
}

/// The byte `;`, which parts the fields of a format directive.
pub const SEMICOLON: u8 = 0x3B;

/// The byte `=`, which parts the name of a field from its value.
pub const EQUALS: u8 = 0x3D;

/// The byte `x`, which parts width and height in a geometry directive.
pub const TIMES: u8 = 0x78;

/// The line ` end` with its newline, which closes a preamble.
pub open spec fn end_line() -> Seq<u8> {
    seq![0x20u8, 0x65, 0x6E, 0x64, 0x0A]
}

/// The text ` format `, which opens a format directive.
pub open spec fn format_key() -> Seq<u8> {
    seq![0x20u8, 0x66, 0x6F, 0x72, 0x6D, 0x61, 0x74, 0x20]
}

/// The text ` geometry `, which opens a geometry directive.
pub open spec fn geometry_key() -> Seq<u8> {
    seq![0x20u8, 0x67, 0x65, 0x6F, 0x6D, 0x65, 0x74, 0x72, 0x79, 0x20]
}

/// The text ` evt `, which opens a version directive.
pub open spec fn evt_key() -> Seq<u8> {
    seq![0x20u8, 0x65, 0x76, 0x74, 0x20]
}

/// The text ` width `, which opens the width line of a DAT preamble.
pub open spec fn width_key() -> Seq<u8> {
    seq![0x20u8, 0x77, 0x69, 0x64, 0x74, 0x68, 0x20]
}

/// The text ` height `, which opens the height line of a DAT preamble.
pub open spec fn height_key() -> Seq<u8> {
    seq![0x20u8, 0x68, 0x65, 0x69, 0x67, 0x68, 0x74, 0x20]
}

/// The field name `width`.
pub open spec fn width_name() -> Seq<u8> {
    seq![0x77u8, 0x69, 0x64, 0x74, 0x68]
}

/// The field name `height`.
pub open spec fn height_name() -> Seq<u8> {
    seq![0x68u8, 0x65, 0x69, 0x67, 0x68, 0x74]
}

impl StreamFormat {
    /// The name by which a format directive calls the format: `EVT2` or
    /// `EVT3`. A DAT preamble has no format directive.
    pub open spec fn name(self) -> Seq<u8> {
        match self {
            StreamFormat::Evt2 => seq![0x45u8, 0x56, 0x54, 0x32],
            StreamFormat::Evt3 => seq![0x45u8, 0x56, 0x54, 0x33],
            StreamFormat::Dat => Seq::empty(),
        }
    }

    /// The version that a version directive must give: `2.0` or `3.0`.
    pub open spec fn version(self) -> Seq<u8> {
        match self {
            StreamFormat::Evt2 => seq![0x32u8, 0x2E, 0x30],
            StreamFormat::Evt3 => seq![0x33u8, 0x2E, 0x30],
            StreamFormat::Dat => Seq::empty(),
        }
    }
}

/// A line without the newline that closes it.
pub open spec fn line_body(line: Seq<u8>) -> Seq<u8> {
    if line.len() > 0 && line.last() == NEWLINE {
        line.drop_last()
    } else {
        line
    }
}

/// The metadata with the width that `text` spells, or the failure that
/// `text` is no number.
pub open spec fn with_width(metadata: Metadata, text: Seq<u8>) -> Result<Metadata, DvsError> {
    match number(text) {
        Some(width) => Ok(Metadata { sensor_width: width, ..metadata }),
        None => Err(DvsError::MalformedHeader),
    }
}

/// The metadata with the height that `text` spells, or the failure that
/// `text` is no number.
pub open spec fn with_height(metadata: Metadata, text: Seq<u8>) -> Result<Metadata, DvsError> {
    match number(text) {
        Some(height) => Ok(Metadata { sensor_height: height, ..metadata }),
        None => Err(DvsError::MalformedHeader),
    }
}

/// What one field of a format directive does to the metadata. An empty
/// field does nothing. Any other field is a name, `=` and a value; the
/// names `width` and `height` set a size, other names are passed over.
pub open spec fn apply_option(field: Seq<u8>, metadata: Metadata) -> Result<Metadata, DvsError> {
    let cut = position_of(field, EQUALS);
    if field.len() == 0 {
        Ok(metadata)
    } else if cut == field.len() {
        Err(DvsError::MalformedHeader)
    } else if field.take(cut) == width_name() {
        with_width(metadata, behind(field, cut))
    } else if field.take(cut) == height_name() {
        with_height(metadata, behind(field, cut))
    } else {
        Ok(metadata)
    }
}

/// What the fields of a format directive, parted by `;`, do to the
/// metadata, the first field first. The first failure ends it.
pub open spec fn apply_options(fields: Seq<u8>, metadata: Metadata) -> Result<Metadata, DvsError>
    decreases fields.len(),
{
    if fields.len() == 0 {
        Ok(metadata)
    } else {
        let cut = position_of(fields, SEMICOLON);
        match apply_option(fields.take(cut), metadata) {
            Err(e) => Err(e),
            Ok(next) => {
                proof {
                    lemma_position_of_bounds(fields, SEMICOLON);
                }
                apply_options(behind(fields, cut), next)
            },
        }
    }
}

/// What a format directive does: its first field must name the format of
/// the decoder, the others are options.
pub open spec fn apply_format(text: Seq<u8>, format: StreamFormat, metadata: Metadata) -> Result<
    Metadata,
    DvsError,
> {
    let cut = position_of(text, SEMICOLON);
    if text.take(cut) == format.name() {
        apply_options(behind(text, cut), metadata)
    } else {
        Err(DvsError::IncompatibleVersion)
    }
}

/// What a geometry directive does: it gives width and height as two
/// numbers with an `x` between them.
pub open spec fn apply_geometry(text: Seq<u8>, metadata: Metadata) -> Result<Metadata, DvsError> {
    let cut = position_of(text, TIMES);
    if cut == text.len() {
        Err(DvsError::MalformedHeader)
    } else {
        match (number(text.take(cut)), number(behind(text, cut))) {
            (Some(width), Some(height)) => Ok(
                Metadata { sensor_width: width, sensor_height: height },
            ),
            _ => Err(DvsError::MalformedHeader),
        }
    }
}

/// What follows `key` in a text that begins with it.
pub open spec fn strip(text: Seq<u8>, key: Seq<u8>) -> Option<Seq<u8>> {
    if key.is_prefix_of(text) {
        Some(text.skip(key.len() as int))
    } else {
        None
    }
}

/// What one line of a DAT preamble does to the metadata: a width line or a
/// height line sets a size, any other line does nothing.
pub open spec fn dat_directive(text: Seq<u8>, metadata: Metadata) -> Result<Metadata, DvsError> {
    if let Some(rest) = strip(text, width_key()) {
        with_width(metadata, rest)
    } else if let Some(rest) = strip(text, height_key()) {
        with_height(metadata, rest)
    } else {
        Ok(metadata)
    }
}

/// What one line of an EVT2 or EVT3 preamble does to the metadata.
/// A version directive must give the version of the decoder's format.
pub open spec fn raw_directive(text: Seq<u8>, format: StreamFormat, metadata: Metadata) -> Result<
    Metadata,
    DvsError,
> {
    if let Some(rest) = strip(text, format_key()) {
        apply_format(rest, format, metadata)
    } else if let Some(rest) = strip(text, geometry_key()) {
        apply_geometry(rest, metadata)
    } else if let Some(rest) = strip(text, evt_key()) {
        if rest == format.version() {
            Ok(metadata)
        } else {
            Err(DvsError::IncompatibleVersion)
        }
    } else {
        Ok(metadata)
    }
}

/// What one line of a preamble does to the metadata. `line` is the line
/// behind its marker. A line that is no directive does nothing.
pub open spec fn directive(line: Seq<u8>, format: StreamFormat, metadata: Metadata) -> Result<
    Metadata,
    DvsError,
> {
    if format == StreamFormat::Dat {
        dat_directive(line_body(line), metadata)
    } else {
        raw_directive(line_body(line), format, metadata)
    }
}

/// Sets the width to the number that `data[from..to]` spells.
fn set_width(data: &[u8], from: usize, to: usize, metadata: Metadata) -> (r: Result<
    Metadata,
    DvsError,
>)
    requires
        from <= to <= data.len(),
    ensures
        r == with_width(metadata, data@.subrange(from as int, to as int)),
{
    match parse_number(data, from, to) {
        Some(width) => Ok(Metadata { sensor_width: width, sensor_height: metadata.sensor_height }),
        None => Err(DvsError::MalformedHeader),
    }
}

/// Sets the height to the number that `data[from..to]` spells.
fn set_height(data: &[u8], from: usize, to: usize, metadata: Metadata) -> (r: Result<
    Metadata,
    DvsError,
>)
    requires
        from <= to <= data.len(),
    ensures
        r == with_height(metadata, data@.subrange(from as int, to as int)),
{
    match parse_number(data, from, to) {
        Some(height) => Ok(Metadata { sensor_width: metadata.sensor_width, sensor_height: height }),
        None => Err(DvsError::MalformedHeader),
    }
}

/// Applies the field `data[from..to]` of a format directive.
fn read_option(data: &[u8], from: usize, to: usize, metadata: Metadata) -> (r: Result<
    Metadata,
    DvsError,
>)
    requires
        from <= to <= data.len(),
    ensures
        r == apply_option(data@.subrange(from as int, to as int), metadata),
{
    let ghost field = data@.subrange(from as int, to as int);
    if from == to {
        return Ok(metadata);
    }
    let cut = find_byte(data, from, to, EQUALS);
    if cut == to {
        return Err(DvsError::MalformedHeader);
    }
    assert(field.take(cut - from) == data@.subrange(from as int, cut as int));
    assert(behind(field, cut - from) == data@.subrange(cut + 1, to as int));
    let width: [u8; 5] = [0x77, 0x69, 0x64, 0x74, 0x68];
    let height: [u8; 6] = [0x68, 0x65, 0x69, 0x67, 0x68, 0x74];
    assert(width@ == width_name());
    assert(height@ == height_name());
    if range_equals(data, from, cut, width.as_slice()) {
        set_width(data, cut + 1, to, metadata)
    } else if range_equals(data, from, cut, height.as_slice()) {
        set_height(data, cut + 1, to, metadata)
    } else {
        Ok(metadata)
    }
}

/// Applies the fields `data[from..to]` of a format directive.
fn read_options(data: &[u8], from: usize, to: usize, metadata: Metadata) -> (r: Result<
    Metadata,
    DvsError,
>)
    requires
        from <= to <= data.len(),
    ensures
        r == apply_options(data@.subrange(from as int, to as int), metadata),
{
    let mut start: usize = from;
    let mut current = metadata;
    while start < to
        invariant
            from <= start <= to <= data.len(),
            apply_options(data@.subrange(start as int, to as int), current) == apply_options(
                data@.subrange(from as int, to as int),
                metadata,
            ),
        decreases to - start,
    {
        let ghost fields = data@.subrange(start as int, to as int);
        let cut = find_byte(data, start, to, SEMICOLON);
        assert(fields.take(cut - start) == data@.subrange(start as int, cut as int));
        let next = if cut < to {
            cut + 1
        } else {
            to
        };
        assert(behind(fields, cut - start) == data@.subrange(next as int, to as int));
        match read_option(data, start, cut, current) {
            Err(e) => {
                return Err(e);
            },
            Ok(changed) => {
                current = changed;
            },
        }
        start = next;
    }
    Ok(current)
}

/// Applies the format directive whose text behind the key is
/// `data[from..to]`.
fn read_format(data: &[u8], from: usize, to: usize, format: StreamFormat, metadata: Metadata) -> (r:
    Result<Metadata, DvsError>)
    requires
        from <= to <= data.len(),
    ensures
        r == apply_format(data@.subrange(from as int, to as int), format, metadata),
{
    let ghost text = data@.subrange(from as int, to as int);
    let cut = find_byte(data, from, to, SEMICOLON);
    assert(text.take(cut - from) == data@.subrange(from as int, cut as int));
    let next = if cut < to {
        cut + 1
    } else {
        to
    };
    assert(behind(text, cut - from) == data@.subrange(next as int, to as int));
    let evt2: [u8; 4] = [0x45, 0x56, 0x54, 0x32];
    let evt3: [u8; 4] = [0x45, 0x56, 0x54, 0x33];
    assert(evt2@ == StreamFormat::Evt2.name());
    assert(evt3@ == StreamFormat::Evt3.name());
    let named = match format {
        StreamFormat::Evt2 => range_equals(data, from, cut, evt2.as_slice()),
        StreamFormat::Evt3 => range_equals(data, from, cut, evt3.as_slice()),
        StreamFormat::Dat => from == cut,
    };
    assert(named == (text.take(cut - from) == format.name())) by {
        if format == StreamFormat::Dat {
            assert(text.take(cut - from).len() == cut - from);
            if from == cut {
                assert(text.take(cut - from) =~= format.name());
            }
        }
    }
    if named {
        read_options(data, next, to, metadata)
    } else {
        Err(DvsError::IncompatibleVersion)
    }
}

/// Applies the geometry directive whose text behind the key is
/// `data[from..to]`.
fn read_geometry(data: &[u8], from: usize, to: usize, metadata: Metadata) -> (r: Result<
    Metadata,
    DvsError,
>)
    requires
        from <= to <= data.len(),
    ensures
        r == apply_geometry(data@.subrange(from as int, to as int), metadata),
{
    let ghost text = data@.subrange(from as int, to as int);
    let cut = find_byte(data, from, to, TIMES);
    if cut == to {
        return Err(DvsError::MalformedHeader);
    }
    assert(text.take(cut - from) == data@.subrange(from as int, cut as int));
    assert(behind(text, cut - from) == data@.subrange(cut + 1, to as int));
    let width = parse_number(data, from, cut);
    let height = parse_number(data, cut + 1, to);
    match (width, height) {
        (Some(w), Some(h)) => Ok(Metadata { sensor_width: w, sensor_height: h }),
        _ => Err(DvsError::MalformedHeader),
    }
}

/// Where `data[from..to]` goes on behind `pattern`, if it begins with it.
fn strip_prefix(data: &[u8], from: usize, to: usize, pattern: &[u8]) -> (rest: Option<usize>)
    requires
        from <= to <= data.len(),
    ensures
        match strip(data@.subrange(from as int, to as int), pattern@) {
            Some(text) => rest matches Some(at) && from <= at <= to && data@.subrange(
                at as int,
                to as int,
            ) == text,
            None => rest is None,
        },
{
    if range_starts_with(data, from, to, pattern) {
        assert(data@.subrange(from as int, to as int).skip(pattern@.len() as int)
            == data@.subrange(from + pattern@.len(), to as int));
        Some(from + pattern.len())
    } else {
        None
    }
}

/// Where `data[from..to]` goes on behind ` format `, if it begins with it.
fn strip_format_key(data: &[u8], from: usize, to: usize) -> (rest: Option<usize>)
    requires
        from <= to <= data.len(),
    ensures
        match strip(data@.subrange(from as int, to as int), format_key()) {
            Some(text) => rest matches Some(at) && from <= at <= to && data@.subrange(
                at as int,
                to as int,
            ) == text,
            None => rest is None,
        },
{
    let key: [u8; 8] = [0x20, 0x66, 0x6F, 0x72, 0x6D, 0x61, 0x74, 0x20];
    assert(key@ == format_key());
    strip_prefix(data, from, to, key.as_slice())
}

/// Where `data[from..to]` goes on behind ` geometry `, if it begins with it.
fn strip_geometry_key(data: &[u8], from: usize, to: usize) -> (rest: Option<usize>)
    requires
        from <= to <= data.len(),
    ensures
        match strip(data@.subrange(from as int, to as int), geometry_key()) {
            Some(text) => rest matches Some(at) && from <= at <= to && data@.subrange(
                at as int,
                to as int,
            ) == text,
            None => rest is None,
        },
{
    let key: [u8; 10] = [0x20, 0x67, 0x65, 0x6F, 0x6D, 0x65, 0x74, 0x72, 0x79, 0x20];
    assert(key@ == geometry_key());
    strip_prefix(data, from, to, key.as_slice())
}

/// Where `data[from..to]` goes on behind ` evt `, if it begins with it.
fn strip_evt_key(data: &[u8], from: usize, to: usize) -> (rest: Option<usize>)
    requires
        from <= to <= data.len(),
    ensures
        match strip(data@.subrange(from as int, to as int), evt_key()) {
            Some(text) => rest matches Some(at) && from <= at <= to && data@.subrange(
                at as int,
                to as int,
            ) == text,
            None => rest is None,
        },
{
    let key: [u8; 5] = [0x20, 0x65, 0x76, 0x74, 0x20];
    assert(key@ == evt_key());
    strip_prefix(data, from, to, key.as_slice())
}

/// Where `data[from..to]` goes on behind ` width `, if it begins with it.
fn strip_width_key(data: &[u8], from: usize, to: usize) -> (rest: Option<usize>)
    requires
        from <= to <= data.len(),
    ensures
        match strip(data@.subrange(from as int, to as int), width_key()) {
            Some(text) => rest matches Some(at) && from <= at <= to && data@.subrange(
                at as int,
                to as int,
            ) == text,
            None => rest is None,
        },
{
    let key: [u8; 7] = [0x20, 0x77, 0x69, 0x64, 0x74, 0x68, 0x20];
    assert(key@ == width_key());
    strip_prefix(data, from, to, key.as_slice())
}

/// Where `data[from..to]` goes on behind ` height `, if it begins with it.
fn strip_height_key(data: &[u8], from: usize, to: usize) -> (rest: Option<usize>)
    requires
        from <= to <= data.len(),
    ensures
        match strip(data@.subrange(from as int, to as int), height_key()) {
            Some(text) => rest matches Some(at) && from <= at <= to && data@.subrange(
                at as int,
                to as int,
            ) == text,
            None => rest is None,
        },
{
    let key: [u8; 8] = [0x20, 0x68, 0x65, 0x69, 0x67, 0x68, 0x74, 0x20];
    assert(key@ == height_key());
    strip_prefix(data, from, to, key.as_slice())
}

/// True when `data[from..to]` is the version of `format`.
fn is_version(data: &[u8], from: usize, to: usize, format: StreamFormat) -> (same: bool)
    requires
        from <= to <= data.len(),
    ensures
        same == (data@.subrange(from as int, to as int) == format.version()),
{
    let version2: [u8; 3] = [0x32, 0x2E, 0x30];
    let version3: [u8; 3] = [0x33, 0x2E, 0x30];
    assert(version2@ == StreamFormat::Evt2.version());
    assert(version3@ == StreamFormat::Evt3.version());
    match format {
        StreamFormat::Evt2 => range_equals(data, from, to, version2.as_slice()),
        StreamFormat::Evt3 => range_equals(data, from, to, version3.as_slice()),
        StreamFormat::Dat => {
            assert(data@.subrange(from as int, to as int).len() == to - from);
            assert(from == to ==> data@.subrange(from as int, to as int) =~= format.version());
            from == to
        },
    }
}

/// Applies the line body `data[from..to]` of a DAT preamble.
fn read_dat_directive(data: &[u8], from: usize, to: usize, metadata: Metadata) -> (r: Result<
    Metadata,
    DvsError,
>)
    requires
        from <= to <= data.len(),
    ensures
        r == dat_directive(data@.subrange(from as int, to as int), metadata),
{
    if let Some(rest) = strip_width_key(data, from, to) {
        set_width(data, rest, to, metadata)
    } else if let Some(rest) = strip_height_key(data, from, to) {
        set_height(data, rest, to, metadata)
    } else {
        Ok(metadata)
    }
}

/// Applies the line body `data[from..to]` of an EVT2 or EVT3
/// preamble.
fn read_raw_directive(
    data: &[u8],
    from: usize,
    to: usize,
    format: StreamFormat,
    metadata: Metadata,
) -> (r: Result<Metadata, DvsError>)
    requires
        from <= to <= data.len(),
    ensures
        r == raw_directive(data@.subrange(from as int, to as int), format, metadata),
{
    if let Some(rest) = strip_format_key(data, from, to) {
        read_format(data, rest, to, format, metadata)
    } else if let Some(rest) = strip_geometry_key(data, from, to) {
        read_geometry(data, rest, to, metadata)
    } else if let Some(rest) = strip_evt_key(data, from, to) {
        if is_version(data, rest, to, format) {
            Ok(metadata)
        } else {
            Err(DvsError::IncompatibleVersion)
        }
    } else {
        Ok(metadata)
    }
}

/// Applies the line `data[from..to]` of a preamble, which stands behind a
/// marker.
pub fn read_directive(
    data: &[u8],
    from: usize,
    to: usize,
    format: StreamFormat,
    metadata: Metadata,
) -> (r: Result<Metadata, DvsError>)
    requires
        from <= to <= data.len(),
    ensures
        r == directive(data@.subrange(from as int, to as int), format, metadata),
{
    let ghost line = data@.subrange(from as int, to as int);
    let stop = if to > from && data[to - 1] == NEWLINE {
        to - 1
    } else {
        to
    };
    assert(line_body(line) == data@.subrange(from as int, stop as int)) by {
        if to > from {
            assert(line.last() == data@[to - 1]);
        }
    }
    match format {
        StreamFormat::Dat => read_dat_directive(data, from, stop, metadata),
        _ => read_raw_directive(data, from, stop, format, metadata),
    }
}

/// What a scan of a preamble finds: where the events begin, what the
/// directives say of the sensor, and the lines, each with its marker and its
/// newline.
pub struct HeaderScan {
    pub end: nat,
    pub metadata: Metadata,
    pub lines: Seq<Seq<u8>>,
}

/// The scan of a preamble from `pos` on, with the metadata and the lines
/// gathered so far.
///
/// A line takes part while it starts with the marker. Each line must be
/// UTF-8 text, else the preamble is malformed. A line that is no
/// terminator is applied as a directive, and the first failure of one ends
/// the scan. The scan ends behind the terminator ` end`, which only
/// EVT2 and EVT3 have, or before the first byte that is no marker.
/// Data that ends where a line should start is a stream without events.
pub open spec fn scan(
    data: Seq<u8>,
    pos: int,
    format: StreamFormat,
    metadata: Metadata,
    lines: Seq<Seq<u8>>,
) -> Result<HeaderScan, DvsError>
    decreases data.len() - pos,
{
    if pos < 0 || pos >= data.len() {
        Err(DvsError::UnexpectedEndOfStream)
    } else if data[pos] != MARKER {
        Ok(HeaderScan { end: pos as nat, metadata, lines })
    } else {
        let end = line_end(data, pos + 1);
        let line = data.subrange(pos, end);
        let text = data.subrange(pos + 1, end);
        if !valid_utf8(line) {
            Err(DvsError::MalformedHeader)
        } else if format != StreamFormat::Dat && text == end_line() {
            Ok(HeaderScan { end: end as nat, metadata, lines: lines.push(line) })
        } else {
            match directive(text, format, metadata) {
                Err(e) => Err(e),
                Ok(next) => {
                    proof {
                        if pos + 1 < data.len() {
                            lemma_line_end_bounds(data, pos + 1);
                        }
                    }
                    scan(data, end, format, next, lines.push(line))
                },
            }
        }
    }
}

/// The preamble at the start of `data`, read for `format`, with `initial`
/// as the metadata before any directive.
pub open spec fn preamble(data: Seq<u8>, format: StreamFormat, initial: Metadata) -> Result<
    HeaderScan,
    DvsError,
> {
    scan(data, 0, format, initial, Seq::empty())
}

/// True when `texts` are the lines `lines`, read as UTF-8.
pub open spec fn texts_of(texts: Seq<String>, lines: Seq<Seq<u8>>) -> bool {
    &&& texts.len() == lines.len()
    &&& forall|i: int| 0 <= i < texts.len() ==> (#[trigger] texts[i])@ == decode_utf8(lines[i])
}

/// A preamble as a decoder keeps it.
pub struct Preamble {
    /// Offset of the first byte behind the preamble.
    pub end: usize,
    /// Size of the sensor.
    pub metadata: Metadata,
    /// The lines of the preamble, each with its marker and its newline.
    pub lines: Vec<String>,
}

/// Calls `String::from_utf8` of std, which turns bytes that are UTF-8 into
/// the text that they encode and refuses all other bytes. The contract says
/// so with vstd's `valid_utf8` and `decode_utf8`.
#[verifier::external_body]
fn text_of(bytes: Vec<u8>) -> (text: Option<String>)
    ensures
        text is Some <==> valid_utf8(bytes@),
        text matches Some(t) ==> t@ == decode_utf8(bytes@),
{
    match String::from_utf8(bytes) {
        Ok(text) => Some(text),
        Err(_) => None,
    }
}

/// Reads the preamble at the start of `data`.
pub fn read_preamble(data: &[u8], format: StreamFormat, initial: Metadata) -> (r: Result<
    Preamble,
    DvsError,
>)
    ensures
        match preamble(data@, format, initial) {
            Ok(found) => r matches Ok(p) && p.end == found.end && p.metadata == found.metadata
                && texts_of(p.lines@, found.lines),
            Err(e) => r matches Err(x) && x == e,
        },
        r matches Ok(p) ==> p.end <= data.len(),
{
    let mut pos: usize = 0;
    let mut metadata = initial;
    let mut lines: Vec<String> = Vec::new();
    let ghost mut raw: Seq<Seq<u8>> = Seq::empty();
    loop
        invariant
            pos <= data.len(),
            texts_of(lines@, raw),
            scan(data@, pos as int, format, metadata, raw) == preamble(data@, format, initial),
        decreases data.len() - pos,
    {
        if pos >= data.len() {
            return Err(DvsError::UnexpectedEndOfStream);
        }
        if data[pos] != MARKER {
            return Ok(Preamble { end: pos, metadata, lines });
        }
        let end = find_line_end(data, pos + 1);
        let bytes = vstd::slice::slice_to_vec(vstd::slice::slice_subrange(data, pos, end));
        let text = match text_of(bytes) {
            Some(text) => text,
            None => {
                return Err(DvsError::MalformedHeader);
            },
        };
        let ghost line = data@.subrange(pos as int, end as int);
        let ghost before = lines@;
        lines.push(text);
        proof {
            assert(texts_of(lines@, raw.push(line))) by {
                assert forall|i: int| 0 <= i < lines@.len() implies (#[trigger] lines@[i])@
                    == decode_utf8(raw.push(line)[i]) by {
                    if i < before.len() {
                        assert(lines@[i] == before[i]);
                    }
                }
            }
            raw = raw.push(line);
        }
        let terminator: [u8; 5] = [0x20, 0x65, 0x6E, 0x64, 0x0A];
        assert(terminator@ == end_line());
        let closes = match format {
            StreamFormat::Dat => false,
            _ => range_equals(data, pos + 1, end, terminator.as_slice()),
        };
        if closes {
            return Ok(Preamble { end, metadata, lines });
        }
        match read_directive(data, pos + 1, end, format, metadata) {
            Err(e) => {
                return Err(e);
            },
            Ok(next) => {
                metadata = next;
            },
        }
        pos = end;
    }
}

} // verus!
