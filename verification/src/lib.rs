//! Streaming decoder for the length-delimited frame format that gRPC layers
//! over a byte-oriented transport. Byte chunks of arbitrary size are appended
//! to an internal queue; complete frames (a five-byte header followed by the
//! body it declares) are extracted in order as soon as all their bytes have
//! arrived, and partial bytes stay buffered for later chunks.

pub mod byte_queue;
pub mod decode;
pub mod frame_header;
pub mod frame_parser;
pub mod laws;
