//! Decoding, shaping and re-encoding of event-camera (DVS) streams.
//!
//! The `dvs` module holds the event model and the bit-exact codecs of the
//! on-disk formats. Every decoder works on the bytes of a stream that the
//! caller has read into memory, and the encoder fills a byte buffer that the
//! caller writes out, so that each step of the pipeline is a function of
//! plain values with a proved contract. The `loss` module thins a decoded
//! stream as a channel of limited bandwidth would.
pub mod dvs;
pub mod loss;
