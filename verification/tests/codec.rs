use grpc_rs::codec::gzip::{compressed, decompressed, GzipCompressor, GzipFault, GzipStep};
use grpc_rs::codec::{
    bound_payload, decode_message, decode_raw, encode_message, encode_raw, frame_body, Compressor,
    COMPRESSION_MADE, COMPRESSION_NONE, DEFAULT_MAX_RECV_SIZE, HEADER_LEN,
};
use grpc_rs::status::{Code, Status};
use prost::Message;

/// A message with one string field.
#[derive(Debug, Clone, PartialEq)]
struct Ping {
    value: String,
}

fn to_bytes(ping: &Ping) -> Result<Vec<u8>, String> {
    Ok(ping.value.encode_to_vec())
}

fn from_bytes(bytes: &[u8]) -> Result<Ping, String> {
    match String::decode(bytes) {
        Ok(value) => Ok(Ping { value }),
        Err(e) => Err(e.to_string()),
    }
}

/// A compressor that always fails.
struct Broken;

impl Compressor for Broken {
    fn name(&self) -> &'static str {
        "broken"
    }

    fn compress(&self, _input: &[u8]) -> Result<Vec<u8>, Status> {
        Err(Status::unavailable("cannot compress"))
    }

    fn decompress(&self, _input: &[u8]) -> Result<Vec<u8>, Status> {
        Err(Status::unavailable("cannot decompress"))
    }
}

#[test]
fn round_trip_nonempty() {
    let c = GzipCompressor::new();
    let data = b"hello gRPC world, this is a test payload";
    let compressed = c.compress(data).unwrap();
    let decompressed = c.decompress(&compressed).unwrap();
    assert_eq!(decompressed, data);
}

#[test]
fn round_trip_empty() {
    let c = GzipCompressor::new();
    let compressed = c.compress(b"").unwrap();
    let decompressed = c.decompress(&compressed).unwrap();
    assert_eq!(decompressed, b"");
}

#[test]
fn decompress_invalid_returns_internal() {
    let c = GzipCompressor::new();
    let result = c.decompress(b"not valid gzip data");
    assert!(result.is_err());
    let status = result.unwrap_err();
    assert_eq!(status.code, Code::Internal);
    assert_eq!(status.message, "gzip decompress: invalid gzip header");
}

#[test]
fn name_is_gzip() {
    assert_eq!(GzipCompressor::new().name(), "gzip");
}

#[test]
fn gzip_output_is_a_gzip_stream() {
    let c = GzipCompressor::default();
    let out = c.compress(b"some payload").unwrap();
    assert_eq!(&out[..2], &[0x1f, 0x8b]);
    assert_ne!(out, b"some payload".to_vec());
}

#[test]
fn gzip_default_level_is_six() {
    let data = vec![b'z'; 500];
    assert_eq!(
        GzipCompressor::new().compress(&data).unwrap(),
        GzipCompressor::with_level(6).compress(&data).unwrap()
    );
    let stored = GzipCompressor::with_level(0).compress(&data).unwrap();
    assert!(stored.len() > 500);
    assert_eq!(GzipCompressor::new().decompress(&stored).unwrap(), data);
}

#[test]
fn gzip_faults_become_statuses() {
    let write = GzipFault { step: GzipStep::Write, text: "w".to_string() };
    assert_eq!(compressed(Err(write)).unwrap_err(), Status::internal("gzip compress write: w"));
    let finish = GzipFault { step: GzipStep::Finish, text: "f".to_string() };
    assert_eq!(compressed(Err(finish)).unwrap_err(), Status::internal("gzip compress finish: f"));
    assert_eq!(compressed(Ok(vec![1])).unwrap(), vec![1]);
    assert_eq!(
        decompressed(Err("bad".to_string())).unwrap_err(),
        Status::internal("gzip decompress: bad")
    );
    assert_eq!(decompressed(Ok(vec![2])).unwrap(), vec![2]);
}

#[test]
fn encode_raw_no_compression_frame_layout() {
    let payload = b"hello";
    let frame = encode_raw(payload, None).unwrap();
    assert_eq!(frame[0], COMPRESSION_NONE);
    assert_eq!(u32::from_be_bytes([frame[1], frame[2], frame[3], frame[4]]), 5);
    assert_eq!(&frame[5..], b"hello");
}

#[test]
fn encode_raw_with_gzip_sets_compression_flag() {
    let c = GzipCompressor::new();
    let payload = b"hello gzip";
    let frame = encode_raw(payload, Some(&c)).unwrap();
    assert_eq!(frame[0], COMPRESSION_MADE);
}

#[test]
fn encode_raw_empty_payload_never_compressed() {
    let c = GzipCompressor::new();
    let frame = encode_raw(b"", Some(&c)).unwrap();
    assert_eq!(frame[0], COMPRESSION_NONE, "zero-length payload must not be compressed");
    assert_eq!(u32::from_be_bytes([frame[1], frame[2], frame[3], frame[4]]), 0);
}

#[test]
fn decode_raw_round_trip_no_compression() {
    let payload = b"round trip test";
    let frame = encode_raw(payload, None).unwrap();
    let decoded = decode_raw(&frame, None, DEFAULT_MAX_RECV_SIZE).unwrap();
    assert_eq!(decoded, payload);
}

#[test]
fn decode_raw_round_trip_gzip() {
    let c = GzipCompressor::new();
    let payload = b"compress me please";
    let frame = encode_raw(payload, Some(&c)).unwrap();
    let decoded = decode_raw(&frame, Some(&c), DEFAULT_MAX_RECV_SIZE).unwrap();
    assert_eq!(decoded, payload);
}

#[test]
fn decode_raw_frame_too_short_returns_internal() {
    let result = decode_raw(b"\x00\x00\x00", None, DEFAULT_MAX_RECV_SIZE);
    assert!(result.is_err());
    assert_eq!(result.unwrap_err().code, Code::Internal);
}

#[test]
fn decode_raw_truncated_body_returns_internal() {
    let mut frame = vec![0x00, 0x00, 0x00, 0x00, 0x0A];
    frame.extend_from_slice(b"abc");
    let result = decode_raw(&frame, None, DEFAULT_MAX_RECV_SIZE);
    assert_eq!(result.unwrap_err().code, Code::Internal);
}

#[test]
fn decode_raw_wire_size_exceeds_max_returns_resource_exhausted() {
    let mut frame = vec![0x00, 0x00, 0x00, 0x00, 0x64];
    frame.extend(vec![0u8; 100]);
    let result = decode_raw(&frame, None, 50);
    assert_eq!(result.unwrap_err().code, Code::ResourceExhausted);
}

#[test]
fn decode_raw_invalid_compression_flag_returns_internal() {
    let frame = vec![0x02, 0x00, 0x00, 0x00, 0x00];
    let result = decode_raw(&frame, None, DEFAULT_MAX_RECV_SIZE);
    assert_eq!(result.unwrap_err().code, Code::Internal);
}

#[test]
fn decode_raw_compressed_flag_no_decompressor_returns_internal() {
    let c = GzipCompressor::new();
    let frame = encode_raw(b"test", Some(&c)).unwrap();
    assert_eq!(frame[0], COMPRESSION_MADE);
    let result = decode_raw(&frame, None, DEFAULT_MAX_RECV_SIZE);
    assert_eq!(result.unwrap_err().code, Code::Internal);
}

#[test]
fn decode_raw_decompressed_size_exceeds_max_returns_resource_exhausted() {
    let c = GzipCompressor::new();
    let payload = vec![b'A'; 100];
    let frame = encode_raw(&payload, Some(&c)).unwrap();
    let result = decode_raw(&frame, Some(&c), 50);
    assert_eq!(result.unwrap_err().code, Code::ResourceExhausted);
}

#[test]
fn message_round_trip_no_compression() {
    let msg = Ping { value: "hello proto".into() };
    let frame = encode_message(&msg, to_bytes, None).unwrap();
    let decoded: Ping = decode_message(&frame, None, DEFAULT_MAX_RECV_SIZE, from_bytes).unwrap();
    assert_eq!(decoded, msg);
}

#[test]
fn message_round_trip_gzip() {
    let c = GzipCompressor::new();
    let msg = Ping { value: "compress this proto message".into() };
    let frame = encode_message(&msg, to_bytes, Some(&c)).unwrap();
    let decoded: Ping =
        decode_message(&frame, Some(&c), DEFAULT_MAX_RECV_SIZE, from_bytes).unwrap();
    assert_eq!(decoded, msg);
}

#[test]
fn decode_message_bad_proto_returns_internal() {
    let frame = encode_raw(b"\xff\xff\xff", None).unwrap();
    let result: Result<Ping, Status> =
        decode_message(&frame, None, DEFAULT_MAX_RECV_SIZE, from_bytes);
    assert_eq!(result.unwrap_err().code, Code::Internal);
}

#[test]
fn message_faults_are_internal() {
    let fail = |_: &Ping| -> Result<Vec<u8>, String> { Err("no room".to_string()) };
    let msg = Ping { value: String::new() };
    assert_eq!(
        encode_message(&msg, fail, None).unwrap_err(),
        Status::internal("proto encode: no room")
    );
    let frame = encode_raw(b"x", None).unwrap();
    let reject = |_: &[u8]| -> Result<Ping, String> { Err("no message".to_string()) };
    assert_eq!(
        decode_message(&frame, None, 10, reject).unwrap_err(),
        Status::internal("proto decode: no message")
    );
    assert_eq!(
        decode_message(b"abc", None, 10, from_bytes).unwrap_err(),
        Status::internal("frame too short: 3 bytes (need 5)")
    );
}

#[test]
fn decode_errors_say_what_is_wrong() {
    assert_eq!(
        decode_raw(&[0, 0, 0], None, 9).unwrap_err(),
        Status::internal("frame too short: 3 bytes (need 5)")
    );
    assert_eq!(
        decode_raw(&[0, 0, 0, 1, 0], None, 50).unwrap_err(),
        Status::resource_exhausted("wire payload 256 bytes exceeds max recv size 50")
    );
    assert_eq!(
        decode_raw(&[0, 0, 0, 0, 10, 1, 2, 3], None, 50).unwrap_err(),
        Status::internal("frame truncated: header says 10 bytes but only 3 available")
    );
    assert_eq!(
        decode_raw(&[0xa2, 0, 0, 0, 0], None, 50).unwrap_err(),
        Status::internal("unexpected compression flag: 0xa2 (must be 0x00 or 0x01)")
    );
    assert_eq!(
        decode_raw(&[1, 0, 0, 0, 0], None, 50).unwrap_err(),
        Status::internal("compressed flag set but no decompressor available")
    );
    let c = GzipCompressor::new();
    let frame = encode_raw(&[b'A'; 100], Some(&c)).unwrap();
    assert_eq!(
        decode_raw(&frame, Some(&c), 50).unwrap_err(),
        Status::resource_exhausted("decompressed payload 100 bytes exceeds max recv size 50")
    );
}

#[test]
fn size_limit_is_inclusive() {
    let frame = encode_raw(&[7; 50], None).unwrap();
    assert_eq!(decode_raw(&frame, None, 50).unwrap(), vec![7; 50]);
    assert_eq!(bound_payload(Ok(vec![1, 2]), 2).unwrap(), vec![1, 2]);
    assert_eq!(bound_payload(Ok(vec![1, 2]), 1).unwrap_err().code, Code::ResourceExhausted);
}

#[test]
fn bytes_after_the_frame_are_ignored() {
    let mut frame = encode_raw(b"abc", None).unwrap().to_vec();
    frame.extend_from_slice(b"trailing");
    assert_eq!(decode_raw(&frame, None, 10).unwrap(), b"abc");
}

#[test]
fn frame_header_is_big_endian() {
    let frame = frame_body(0x01, &[9; 0x0102]).unwrap();
    assert_eq!(&frame[..HEADER_LEN], &[0x01, 0x00, 0x00, 0x01, 0x02]);
    assert_eq!(frame.len(), HEADER_LEN + 0x0102);
}

#[test]
fn compressor_errors_are_passed_on() {
    let c = Broken;
    assert_eq!(c.name(), "broken");
    assert_eq!(
        encode_raw(b"x", Some(&c)).unwrap_err(),
        Status::unavailable("cannot compress")
    );
    assert_eq!(
        decode_raw(&[1, 0, 0, 0, 0], Some(&c), 10).unwrap_err(),
        Status::unavailable("cannot decompress")
    );
    assert_eq!(&encode_raw(b"", Some(&c)).unwrap()[..], &[0, 0, 0, 0, 0]);
}

#[test]
fn default_limit_is_four_mebibytes() {
    assert_eq!(DEFAULT_MAX_RECV_SIZE, 4 * 1024 * 1024);
}
