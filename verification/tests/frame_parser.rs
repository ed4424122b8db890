use bytes::Bytes;
use grpc_framing::frame_header::FrameError;
use grpc_framing::frame_parser::GrpcFrameParser;

fn frame_bytes(flag: u8, body: &[u8]) -> Vec<u8> {
    let mut v = Vec::new();
    v.push(flag);
    let len = body.len() as u32;
    v.extend_from_slice(&len.to_be_bytes());
    v.extend_from_slice(body);
    v
}

#[test]
fn default_is_empty() {
    let p = GrpcFrameParser::default();
    assert!(p.is_empty());
}

#[test]
fn spec_example_two_chunks() {
    let mut p = GrpcFrameParser::default();
    p.enqueue(Bytes::from_static(&[0x00, 0x00]));
    let first = p.next_frames().unwrap();
    assert!(first.is_empty());
    p.enqueue(Bytes::from_static(&[0x00, 0x00, 0x03, 0x41, 0x42, 0x43]));
    let second = p.next_frames().unwrap();
    assert_eq!(second.len(), 1);
    assert_eq!(&second[0][..], &[0x41, 0x42, 0x43][..]);
    assert!(p.is_empty());
}

#[test]
fn single_byte_chunks_same_frames() {
    let mut wire = frame_bytes(0, b"hello");
    wire.extend_from_slice(&frame_bytes(1, b"world!"));

    let mut p = GrpcFrameParser::default();
    let mut collected: Vec<Bytes> = Vec::new();
    for b in &wire {
        p.enqueue(Bytes::copy_from_slice(&[*b]));
        collected.extend(p.next_frames().unwrap());
    }
    assert_eq!(collected.len(), 2);
    assert_eq!(&collected[0][..], b"hello");
    assert_eq!(&collected[1][..], b"world!");
    assert!(p.is_empty());
}

#[test]
fn two_frames_one_chunk_in_order() {
    let mut wire = frame_bytes(0, b"first");
    wire.extend_from_slice(&frame_bytes(0, b"second"));

    let mut p = GrpcFrameParser::default();
    p.enqueue(Bytes::from(wire));
    let frames = p.next_frames().unwrap();
    assert_eq!(frames.len(), 2);
    assert_eq!(&frames[0][..], b"first");
    assert_eq!(&frames[1][..], b"second");
    assert!(p.is_empty());
}

#[test]
fn insufficient_header_keeps_bytes() {
    let mut p = GrpcFrameParser::default();
    p.enqueue(Bytes::from_static(&[0x00, 0x00, 0x00]));
    assert!(p.next_frame().unwrap().is_none());
    assert!(!p.is_empty());
    p.enqueue(Bytes::from_static(&[0x00, 0x01, 0x7f]));
    let frames = p.next_frames().unwrap();
    assert_eq!(frames.len(), 1);
    assert_eq!(&frames[0][..], &[0x7f][..]);
    assert!(p.is_empty());
}

#[test]
fn drain_twice_second_yields_nothing() {
    let mut p = GrpcFrameParser::default();
    p.enqueue(Bytes::from(frame_bytes(0, b"once")));
    let first = p.next_frames().unwrap();
    assert_eq!(first.len(), 1);
    let second = p.next_frames().unwrap();
    assert!(second.is_empty());
}

#[test]
fn empty_after_full_drain() {
    let mut wire = frame_bytes(0, b"a");
    wire.extend_from_slice(&frame_bytes(1, b"bc"));
    let mut p = GrpcFrameParser::default();
    p.enqueue(Bytes::from(wire));
    assert!(!p.is_empty());
    let frames = p.next_frames().unwrap();
    assert_eq!(frames.len(), 2);
    assert!(p.is_empty());
}

#[test]
fn truncated_body_not_empty() {
    let mut p = GrpcFrameParser::default();
    p.enqueue(Bytes::from_static(&[0x00, 0x00, 0x00, 0x00, 0x03, 0x41, 0x42]));
    let frames = p.next_frames().unwrap();
    assert!(frames.is_empty());
    assert!(!p.is_empty());
}

#[test]
fn zero_length_frame() {
    let mut p = GrpcFrameParser::default();
    p.enqueue(Bytes::from_static(&[0x01, 0x00, 0x00, 0x00, 0x00]));
    let frames = p.next_frames().unwrap();
    assert_eq!(frames.len(), 1);
    assert_eq!(frames[0].len(), 0);
    assert!(p.is_empty());
}

#[test]
fn one_frame_per_next_frame_call() {
    let mut wire = frame_bytes(0, b"x");
    wire.extend_from_slice(&frame_bytes(0, b"y"));
    let mut p = GrpcFrameParser::default();
    p.enqueue(Bytes::from(wire));
    let a = p.next_frame().unwrap().unwrap();
    assert_eq!(&a[..], b"x");
    let b = p.next_frame().unwrap().unwrap();
    assert_eq!(&b[..], b"y");
    assert!(p.next_frame().unwrap().is_none());
    assert!(p.is_empty());
}

#[test]
fn big_endian_length_field() {
    // Length bytes [0x00, 0x00, 0x01, 0x02] read big-endian: 258 body bytes.
    let body: Vec<u8> = (0..258u32).map(|i| (i % 251) as u8).collect();
    let mut p = GrpcFrameParser::default();
    p.enqueue(Bytes::from_static(&[0x00, 0x00, 0x00, 0x01, 0x02]));
    assert!(p.next_frames().unwrap().is_empty());
    p.enqueue(Bytes::from(body.clone()));
    let frames = p.next_frames().unwrap();
    assert_eq!(frames.len(), 1);
    assert_eq!(&frames[0][..], &body[..]);
    assert!(p.is_empty());
}

#[test]
fn empty_chunk_changes_nothing() {
    let mut p = GrpcFrameParser::default();
    p.enqueue(Bytes::new());
    assert!(p.is_empty());
    p.enqueue(Bytes::from(frame_bytes(0, b"z")));
    p.enqueue(Bytes::new());
    let frames = p.next_frames().unwrap();
    assert_eq!(frames.len(), 1);
    assert_eq!(&frames[0][..], b"z");
}

#[test]
fn invalid_compression_flag_errors() {
    let mut p = GrpcFrameParser::default();
    p.enqueue(Bytes::from_static(&[0x02, 0x00, 0x00, 0x00, 0x01]));
    assert_eq!(
        p.next_frame(),
        Err(FrameError::InvalidCompressionFlag(0x02))
    );
}

#[test]
fn oversized_declared_length_errors() {
    // 0x04000001 is one above the accepted maximum of 0x04000000.
    let mut p = GrpcFrameParser::default();
    p.enqueue(Bytes::from_static(&[0x00, 0x04, 0x00, 0x00, 0x01]));
    assert_eq!(p.next_frames(), Err(FrameError::FrameTooLarge(0x0400_0001)));
}

#[test]
fn maximum_declared_length_accepted() {
    // A header declaring exactly 0x04000000 body bytes parses without error;
    // the body has not arrived, so no frame comes out and the decoder is not
    // empty.
    let mut p = GrpcFrameParser::default();
    p.enqueue(Bytes::from_static(&[0x00, 0x04, 0x00, 0x00, 0x00]));
    assert_eq!(p.next_frame(), Ok(None));
    assert!(!p.is_empty());
}

#[test]
fn header_split_across_chunks() {
    let mut p = GrpcFrameParser::default();
    p.enqueue(Bytes::from_static(&[0x01]));
    assert!(p.next_frames().unwrap().is_empty());
    p.enqueue(Bytes::from_static(&[0x00, 0x00]));
    assert!(p.next_frames().unwrap().is_empty());
    p.enqueue(Bytes::from_static(&[0x00, 0x02, 0xaa]));
    assert!(p.next_frames().unwrap().is_empty());
    assert!(!p.is_empty());
    p.enqueue(Bytes::from_static(&[0xbb]));
    let frames = p.next_frames().unwrap();
    assert_eq!(frames.len(), 1);
    assert_eq!(&frames[0][..], &[0xaa, 0xbb][..]);
    assert!(p.is_empty());
}
