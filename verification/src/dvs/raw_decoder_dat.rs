//! Decoder for the legacy DAT format.
//!
//! Only the preamble of a DAT stream is read. Its events are not decoded:
//! a read yields no event, whatever the stream holds.
use crate::dvs::header::{preamble, read_preamble, texts_of, HeaderScan, Metadata, StreamFormat};
use crate::dvs::{DVSRawEvent, DvsError, DvsRawDecoder};
use vstd::prelude::*;

verus! {

/// What a DAT decoder stands for: the bytes of the stream, how many of them
/// it has consumed, and the sensor size that the preamble gave.
pub struct DatView {
    pub source: Seq<u8>,
    pub position: nat,
    pub metadata: Metadata,
}

impl DatView {
    /// The preamble at the start of the stream.
    pub open spec fn header(self) -> Result<HeaderScan, DvsError> {
        preamble(
            self.source,
            StreamFormat::Dat,
            Metadata { sensor_width: -1i32, sensor_height: -1i32 },
        )
    }
}

/// A DAT decoder over the bytes of a stream.
pub struct DVSRawDecoderDat {
    data: Vec<u8>,
    pos: usize,
    metadata: Metadata,
}

impl View for DVSRawDecoderDat {
    type V = DatView;

    closed spec fn view(&self) -> DatView {
        DatView { source: self.data@, position: self.pos as nat, metadata: self.metadata }
    }
}

impl DVSRawDecoderDat {
    /// What a decoder at the start of `data` stands for when it has read
    /// nothing.
    pub open spec fn fresh(data: Seq<u8>) -> DatView {
        DatView {
            source: data,
            position: 0,
            metadata: Metadata { sensor_width: -1i32, sensor_height: -1i32 },
        }
    }

    /// A decoder at the start of `data` with nothing read.
    pub fn new(data: Vec<u8>) -> (decoder: Self)
        ensures
            decoder@ == Self::fresh(data@),
    {
        Self { data, pos: 0, metadata: Metadata::default() }
    }

    /// Number of bytes of the stream that the decoder has consumed.
    pub fn position(&self) -> (position: usize)
        ensures
            position == self@.position,
    {
        self.pos
    }

    /// Size of the sensor as the header gave it.
    pub fn metadata(&self) -> (metadata: Metadata)
        ensures
            metadata == self@.metadata,
    {
        self.metadata
    }

    /// Gives back the bytes of the stream.
    pub fn into_bytes(self) -> (data: Vec<u8>)
        ensures
            data@ == self@.source,
    {
        self.data
    }
}

impl DvsRawDecoder for DVSRawDecoderDat {
    open spec fn remaining(&self) -> Seq<DVSRawEvent> {
        Seq::empty()
    }

    /// Reads the preamble from the start of the stream and returns its
    /// lines. The decoder then stands at the first byte behind the preamble.
    /// Where it fails the decoder is left as it was.
    fn read_header(&mut self) -> (r: Result<Vec<String>, DvsError>)
        ensures
            match old(self)@.header() {
                Err(e) => r matches Err(x) && x == e && final(self)@ == old(self)@,
                Ok(found) => r matches Ok(lines) && texts_of(lines@, found.lines) && final(self)@ == (
                DatView { position: found.end, metadata: found.metadata, ..old(self)@ }),
            },
    {
        match read_preamble(self.data.as_slice(), StreamFormat::Dat, Metadata::default()) {
            Err(e) => Err(e),
            Ok(found) => {
                self.pos = found.end;
                self.metadata = found.metadata;
                Ok(found.lines)
            },
        }
    }

    /// Yields no event and leaves the decoder as it is.
    fn read_event(&mut self) -> (r: Result<Option<DVSRawEvent>, DvsError>)
        ensures
            r == Ok::<Option<DVSRawEvent>, DvsError>(None),
            final(self)@ == old(self)@,
    {
        Ok(None)
    }
}

} // verus!
