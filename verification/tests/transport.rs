use bytes::{BufMut, Bytes, BytesMut};
use grpc_rs::codec::{decode_raw, encode_raw, DEFAULT_MAX_RECV_SIZE, HEADER_LEN};
use grpc_rs::status::{Code, Status};
use grpc_rs::transport::client::{
    build_request, new_request, parse_grpc_status, percent_decode_grpc_message, ClientStream,
    ResponseHead, TrailersEvent,
};
use grpc_rs::transport::server::{
    build_trailers, percent_encode_grpc_message, sent_status, SendState, ServerStream,
    TrailersStep,
};
use grpc_rs::transport::{
    decode_timeout, encode_timeout, try_extract_frame, DataEvent, FrameReader, Input, Progress,
    StreamFault,
};
use http::HeaderMap;
use std::time::Duration;

fn data(bytes: &[u8]) -> DataEvent {
    DataEvent::Data { bytes: Bytes::copy_from_slice(bytes), released: Ok(()) }
}

fn fault(cancelled: bool) -> StreamFault {
    StreamFault { cancelled, text: "broken".to_string() }
}

fn head(status: u16, content_type: &str) -> ResponseHead {
    let mut headers = HeaderMap::new();
    if !content_type.is_empty() {
        headers.insert("content-type", content_type.parse().unwrap());
    }
    headers.insert("x-a", "1".parse().unwrap());
    ResponseHead { status, headers }
}

/// A client stream that has its response headers.
fn opened() -> ClientStream {
    let mut s = ClientStream::new();
    ready(s.recv_headers(Some(Ok(head(200, "application/grpc"))))).unwrap();
    s
}

fn ready<T>(p: Progress<T>) -> Result<T, Status> {
    match p {
        Progress::Ready(r) => r,
        Progress::Want(_) => panic!("more input is wanted"),
    }
}

fn wanted<T>(p: Progress<T>) -> Input {
    match p {
        Progress::Want(i) => i,
        Progress::Ready(_) => panic!("no input is wanted"),
    }
}

#[test]
fn encode_timeout_hours() {
    assert_eq!(encode_timeout(Duration::from_secs(7200)), "2H");
}

#[test]
fn encode_timeout_minutes() {
    assert_eq!(encode_timeout(Duration::from_secs(120)), "2M");
}

#[test]
fn encode_timeout_seconds() {
    assert_eq!(encode_timeout(Duration::from_secs(5)), "5S");
}

#[test]
fn encode_timeout_millis() {
    assert_eq!(encode_timeout(Duration::from_millis(250)), "250m");
}

#[test]
fn encode_timeout_micros() {
    assert_eq!(encode_timeout(Duration::from_micros(500)), "500u");
}

#[test]
fn encode_timeout_nanos() {
    assert_eq!(encode_timeout(Duration::from_nanos(100)), "100n");
}

#[test]
fn decode_timeout_roundtrip_millis() {
    let d = Duration::from_millis(500);
    let encoded = encode_timeout(d);
    assert_eq!(decode_timeout(&encoded), Some(d));
}

#[test]
fn decode_timeout_roundtrip_seconds() {
    let d = Duration::from_secs(30);
    let encoded = encode_timeout(d);
    assert_eq!(decode_timeout(&encoded), Some(d));
}

#[test]
fn decode_timeout_bad_suffix_returns_none() {
    assert_eq!(decode_timeout("100x"), None);
}

#[test]
fn decode_timeout_empty_returns_none() {
    assert_eq!(decode_timeout(""), None);
}

#[test]
fn timeouts_use_the_coarsest_unit_that_fits() {
    assert_eq!(encode_timeout(Duration::from_nanos(0)), "0H");
    assert_eq!(encode_timeout(Duration::from_secs(90)), "90S");
    assert_eq!(encode_timeout(Duration::from_secs(99_999_999)), "99999999S");
    assert_eq!(encode_timeout(Duration::from_nanos(1_000_001)), "1000001n");
    assert_eq!(encode_timeout(Duration::from_nanos(100_000_001)), "100000001n");
}

#[test]
fn every_unit_is_decoded() {
    assert_eq!(decode_timeout("2H"), Some(Duration::from_secs(7200)));
    assert_eq!(decode_timeout("3M"), Some(Duration::from_secs(180)));
    assert_eq!(decode_timeout("4S"), Some(Duration::from_secs(4)));
    assert_eq!(decode_timeout("5m"), Some(Duration::from_millis(5)));
    assert_eq!(decode_timeout("6u"), Some(Duration::from_micros(6)));
    assert_eq!(decode_timeout("7n"), Some(Duration::from_nanos(7)));
    assert_eq!(decode_timeout("+8S"), Some(Duration::from_secs(8)));
}

#[test]
fn malformed_timeouts_are_none() {
    for s in ["S", "+S", "-1S", "1.5S", " 1S", "1 S", "1s", "5\u{b5}", "++1S"] {
        assert_eq!(decode_timeout(s), None, "{s:?}");
    }
}

#[test]
fn timeouts_that_overflow_are_none() {
    assert_eq!(decode_timeout("18446744073709551615H"), None);
    assert_eq!(decode_timeout("18446744073709551616S"), None);
    assert_eq!(decode_timeout("18446744073709551615S"), Some(Duration::from_secs(u64::MAX)));
    assert_eq!(decode_timeout("307445734561825861M"), None);
    assert_eq!(
        decode_timeout("307445734561825860M"),
        Some(Duration::from_secs(18_446_744_073_709_551_600))
    );
}

#[test]
fn timeout_round_trips() {
    for n in [0u64, 1, 999, 1_000, 99_999_999, 100_000_000, 123_456_789_012, 3_600_000_000_000] {
        let d = Duration::from_nanos(n);
        assert_eq!(decode_timeout(&encode_timeout(d)), Some(d));
    }
    let unrepresentable = Duration::new(u64::MAX, 1);
    assert_eq!(decode_timeout(&encode_timeout(unrepresentable)), None);
}

#[test]
fn extract_frame_empty_buf() {
    let mut buf = BytesMut::new();
    assert!(try_extract_frame(&mut buf).unwrap().is_none());
}

#[test]
fn extract_frame_incomplete_header() {
    let mut buf = BytesMut::from(&[0x00, 0x00][..]);
    assert!(try_extract_frame(&mut buf).unwrap().is_none());
    assert_eq!(buf.len(), 2, "buffer must not be consumed");
}

#[test]
fn extract_frame_header_only_no_body_yet() {
    let mut buf = BytesMut::new();
    buf.put_u8(0x00);
    buf.put_u32(10);
    assert!(try_extract_frame(&mut buf).unwrap().is_none());
    assert_eq!(buf.len(), 5, "partial frame must not be consumed");
}

#[test]
fn extract_frame_exact_frame() {
    let payload = b"hello";
    let mut buf = BytesMut::new();
    buf.put_u8(0x00);
    buf.put_u32(payload.len() as u32);
    buf.put_slice(payload);

    let frame = try_extract_frame(&mut buf).unwrap().unwrap();
    assert_eq!(frame.len(), HEADER_LEN + payload.len());
    assert!(buf.is_empty(), "consumed frame must be removed from buf");
}

#[test]
fn extract_frame_leaves_remainder() {
    let p1 = b"first";
    let p2 = b"second";
    let mut buf = BytesMut::new();
    buf.put_u8(0x00);
    buf.put_u32(p1.len() as u32);
    buf.put_slice(p1);
    buf.put_u8(0x00);
    buf.put_u32(p2.len() as u32);
    buf.put_slice(p2);

    let frame1 = try_extract_frame(&mut buf).unwrap().unwrap();
    assert_eq!(&frame1[HEADER_LEN..], p1);

    let frame2 = try_extract_frame(&mut buf).unwrap().unwrap();
    assert_eq!(&frame2[HEADER_LEN..], p2);

    assert!(buf.is_empty());
}

#[test]
fn extract_frame_malformed_header_is_an_error() {
    for flag in [0x02, 0x10, 0xff] {
        let mut buf = BytesMut::from(&[flag, 0, 0, 0][..]);
        assert!(try_extract_frame(&mut buf).unwrap().is_none(), "the header is not complete");
        buf.put_u8(0);
        let e = try_extract_frame(&mut buf).unwrap_err();
        let text = format!("unexpected compression flag: 0x{flag:02x} (must be 0x00 or 0x01)");
        assert_eq!(e, Status::internal(&text));
        assert_eq!(buf.len(), 5, "a malformed header must not be consumed");
    }
    let mut buf = BytesMut::from(&[0x01, 0, 0, 0, 0][..]);
    assert_eq!(try_extract_frame(&mut buf).unwrap().unwrap().len(), 5);
}

/// Reads `count` times from a stream whose data arrives in chunks.
fn read_all(wire: &[u8], size: usize, count: usize) -> Vec<Result<Option<Vec<u8>>, Status>> {
    let mut server = ServerStream::new("/x/x", HeaderMap::new());
    let mut client = opened();
    let mut results = Vec::new();
    let mut chunks = wire.chunks(size);
    let mut ended = false;
    let mut next = |ended: &mut bool| match chunks.next() {
        Some(c) => data(c),
        None => {
            assert!(!*ended, "nothing is wanted after the end");
            *ended = true;
            DataEvent::End
        }
    };
    for _ in 0..count {
        let (mut s, mut c) = (server.recv_message(None), client.recv_message(None));
        while let Progress::Want(_) = s {
            assert!(matches!(c, Progress::Want(_)));
            let (event, same) = match next(&mut ended) {
                DataEvent::Data { bytes, .. } => (data(&bytes), data(&bytes)),
                _ => (DataEvent::End, DataEvent::End),
            };
            s = server.recv_message(Some(event));
            c = client.recv_message(Some(same));
        }
        let read = ready(s).map(|m| m.map(|b| b.to_vec()));
        assert_eq!(ready(c).map(|m| m.map(|b| b.to_vec())), read);
        results.push(read);
    }
    results
}

#[test]
fn a_whole_stream_is_read_in_order() {
    let one = encode_raw(b"one", None).unwrap().to_vec();
    let two = encode_raw(b"", None).unwrap().to_vec();
    let frames = [one, two].concat();
    let eof = Status::internal("unexpected EOF: incomplete gRPC message");
    let flag = Status::internal("unexpected compression flag: 0x07 (must be 0x00 or 0x01)");
    let ends: [(&[u8], Result<Option<Vec<u8>>, Status>); 4] = [
        (b"", Ok(None)),
        (b"\x00", Err(eof.clone())),
        (b"\x00\x00\x00\x00\x02x", Err(eof)),
        (b"\x07\x00\x00\x00\x00more", Err(flag)),
    ];
    for (rest, end) in ends {
        let wire = [frames.as_slice(), rest].concat();
        for size in 1..=wire.len() {
            let reads = read_all(&wire, size, 5);
            assert_eq!(reads[0], Ok(Some(frames[..8].to_vec())), "chunks of {size}");
            assert_eq!(reads[1], Ok(Some(frames[8..].to_vec())), "chunks of {size}");
            for read in &reads[2..] {
                assert_eq!(*read, end, "chunks of {size}");
            }
        }
    }
}

#[test]
fn chunking_makes_no_difference() {
    let mut wire = encode_raw(b"one", None).unwrap().to_vec();
    wire.extend_from_slice(&encode_raw(b"", None).unwrap());
    wire.extend_from_slice(&encode_raw(b"three", None).unwrap());
    for size in 1..wire.len() {
        let mut reader = FrameReader::new();
        let mut seen: Vec<Vec<u8>> = Vec::new();
        for chunk in wire.chunks(size) {
            assert!(reader.has_room(chunk.len()));
            reader.push(&Bytes::copy_from_slice(chunk));
            while let Progress::Ready(Ok(Some(frame))) = reader.poll() {
                seen.push(frame[HEADER_LEN..].to_vec());
            }
        }
        reader.finish();
        assert!(reader.is_done());
        assert!(ready(reader.poll()).unwrap().is_none());
        assert_eq!(seen, vec![b"one".to_vec(), b"".to_vec(), b"three".to_vec()]);
    }
}

#[test]
fn a_stream_that_ends_inside_a_message_is_an_error() {
    let mut reader = FrameReader::new();
    reader.push(&Bytes::from_static(&[0, 0, 0, 0, 9, 1]));
    assert_eq!(wanted(reader.poll()), Input::Data);
    reader.finish();
    assert_eq!(
        ready(reader.poll()).unwrap_err(),
        Status::internal("unexpected EOF: incomplete gRPC message")
    );
}

#[test]
fn encode_plain_ascii_unchanged() {
    assert_eq!(percent_encode_grpc_message("hello world"), "hello world");
}

#[test]
fn encode_percent_sign_is_escaped() {
    assert_eq!(percent_encode_grpc_message("50% off"), "50%25 off");
}

#[test]
fn encode_non_printable_byte() {
    assert_eq!(percent_encode_grpc_message("\x01"), "%01");
}

#[test]
fn encode_non_ascii_utf8() {
    assert_eq!(percent_encode_grpc_message("é"), "%C3%A9");
}

#[test]
fn encode_empty_string() {
    assert_eq!(percent_encode_grpc_message(""), "");
}

#[test]
fn decode_plain_ascii_unchanged() {
    assert_eq!(percent_decode_grpc_message("hello"), "hello");
}

#[test]
fn decode_percent_encoded_percent() {
    assert_eq!(percent_decode_grpc_message("50%25 off"), "50% off");
}

#[test]
fn decode_non_printable() {
    assert_eq!(percent_decode_grpc_message("%01"), "\x01");
}

#[test]
fn decode_utf8_sequence() {
    assert_eq!(percent_decode_grpc_message("%C3%A9"), "é");
}

#[test]
fn what_is_no_escape_stands_for_itself() {
    assert_eq!(percent_decode_grpc_message("100%"), "100%");
    assert_eq!(percent_decode_grpc_message("%4"), "%4");
    assert_eq!(percent_decode_grpc_message("%zz%41"), "%zzA");
    assert_eq!(percent_decode_grpc_message("%c3%a9"), "é");
    assert_eq!(percent_decode_grpc_message("%41"), "A");
}

#[test]
fn bytes_that_are_not_utf8_are_replaced() {
    assert_eq!(percent_decode_grpc_message("a%FFb"), "a\u{fffd}b");
}

#[test]
fn every_message_survives_percent_encoding() {
    for m in ["", "plain", "50% off\r\n\t\u{7f}", "\u{0}\u{10ffff}日本語", "%25"] {
        assert_eq!(percent_decode_grpc_message(&percent_encode_grpc_message(m)), m);
    }
}

#[test]
fn parse_ok_status() {
    let mut trailers = HeaderMap::new();
    trailers.insert("grpc-status", "0".parse().unwrap());
    let status = parse_grpc_status(&trailers).unwrap();
    assert_eq!(status.code, Code::OK);
    assert_eq!(status.message, "");
}

#[test]
fn parse_error_with_message() {
    let mut trailers = HeaderMap::new();
    trailers.insert("grpc-status", "12".parse().unwrap());
    trailers.insert("grpc-message", "not%20implemented".parse().unwrap());
    let status = parse_grpc_status(&trailers).unwrap();
    assert_eq!(status.code, Code::Unimplemented);
    assert_eq!(status.message, "not implemented");
}

#[test]
fn parse_missing_grpc_status_returns_internal() {
    let trailers = HeaderMap::new();
    let result = parse_grpc_status(&trailers);
    assert_eq!(result.unwrap_err().code, Code::Internal);
}

#[test]
fn malformed_statuses_are_internal() {
    let mut trailers = HeaderMap::new();
    assert_eq!(
        parse_grpc_status(&trailers).unwrap_err().message,
        "missing grpc-status header in trailers"
    );
    trailers.insert("grpc-status", "twelve".parse().unwrap());
    assert_eq!(
        parse_grpc_status(&trailers).unwrap_err(),
        Status::internal("non-numeric grpc-status: twelve")
    );
    trailers.insert("grpc-status", "4294967296".parse().unwrap());
    assert_eq!(
        parse_grpc_status(&trailers).unwrap_err(),
        Status::internal("non-numeric grpc-status: 4294967296")
    );
    trailers.insert("grpc-status", "17".parse().unwrap());
    assert_eq!(
        parse_grpc_status(&trailers).unwrap_err(),
        Status::internal("unknown grpc-status code: 17")
    );
}

#[test]
fn status_survives_the_trailers() {
    let mut extra = HeaderMap::new();
    extra.insert("x-a", "1".parse().unwrap());
    extra.append("x-a", "2".parse().unwrap());
    for s in [Status::ok(), Status::not_found("user %é not found"), Status::new(Code::DataLoss, "")]
    {
        let trailers = build_trailers(&s, &extra).unwrap();
        assert_eq!(parse_grpc_status(&trailers).unwrap(), s);
        assert_eq!(trailers.get_all("x-a").iter().count(), 2);
        assert_eq!(trailers.get("grpc-status").unwrap(), s.code.number().to_string().as_str());
        assert_eq!(trailers.contains_key("grpc-message"), !s.message.is_empty());
    }
}

#[test]
fn request_headers_come_before_the_extra_ones() {
    let mut extra = HeaderMap::new();
    extra.insert("x-a", "1".parse().unwrap());
    extra.insert("te", "more".parse().unwrap());
    let m = new_request("/s/m", &extra).unwrap();
    assert_eq!(m.get("content-type").unwrap(), "application/grpc");
    assert_eq!(m.get("te").unwrap(), "trailers");
    assert_eq!(m.get_all("te").iter().count(), 2);
    assert_eq!(m.get("x-a").unwrap(), "1");
    assert_eq!(m.len(), 4);
}

#[test]
fn a_bad_target_is_an_internal_error() {
    let e = new_request("/a b/c", &HeaderMap::new()).unwrap_err();
    assert_eq!(e, Status::internal("build request: invalid uri character"));
    let e = build_request(Err("why".to_string()), &HeaderMap::new()).unwrap_err();
    assert_eq!(e, Status::internal("build request: why"));
}

#[test]
fn response_headers_are_checked_and_kept() {
    let mut s = ClientStream::new();
    assert_eq!(wanted(s.recv_headers(None)), Input::Response);
    let h = ready(s.recv_headers(Some(Ok(head(200, "application/grpc+proto"))))).unwrap();
    assert_eq!(h.get("x-a").unwrap(), "1");
    let again = ready(s.recv_headers(None)).unwrap();
    assert_eq!(again, h);
    let mut s = ClientStream::new();
    ready(s.recv_headers(Some(Ok(head(200, ""))))).unwrap();
}

#[test]
fn a_response_that_is_not_grpc_is_refused() {
    let mut s = ClientStream::new();
    assert_eq!(
        ready(s.recv_headers(Some(Ok(head(404, "application/grpc"))))).unwrap_err(),
        Status::internal("unexpected HTTP status: 404 Not Found")
    );
    assert!(ready(s.recv_headers(None)).unwrap().is_empty());
    let mut s = ClientStream::new();
    assert_eq!(
        ready(s.recv_headers(Some(Ok(head(200, "text/html"))))).unwrap_err(),
        Status::internal("unexpected content-type: text/html")
    );
    let mut s = ClientStream::new();
    let mut h = head(200, "");
    h.headers.insert("content-type", http::HeaderValue::from_bytes(&[0xff]).unwrap());
    assert_eq!(
        ready(s.recv_headers(Some(Ok(h)))).unwrap_err(),
        Status::internal("unexpected content-type: <non-utf8>")
    );
    let mut s = ClientStream::new();
    assert_eq!(
        ready(s.recv_headers(Some(Err(fault(false))))).unwrap_err(),
        Status::internal("await response headers: broken")
    );
}

#[test]
fn headers_come_first() {
    let mut s = ClientStream::new();
    assert_eq!(
        ready(s.recv_message(None)).unwrap_err(),
        Status::internal("recv_headers must be called before recv_message")
    );
    assert_eq!(
        ready(s.recv_trailers(None)).unwrap_err(),
        Status::internal("recv_headers must be called before recv_trailers")
    );
}

#[test]
fn client_reads_messages_and_trailers() {
    let mut s = opened();
    assert_eq!(wanted(s.recv_message(None)), Input::Data);
    let frame = encode_raw(b"response", None).unwrap();
    let got = ready(s.recv_message(Some(data(&frame)))).unwrap().unwrap();
    assert_eq!(decode_raw(&got, None, DEFAULT_MAX_RECV_SIZE).unwrap(), b"response");
    assert_eq!(wanted(s.recv_message(None)), Input::Data);
    assert!(ready(s.recv_message(Some(DataEvent::End))).unwrap().is_none());
    assert_eq!(wanted(s.recv_trailers(None)), Input::Trailers);
    let trailers = build_trailers(&Status::ok(), &HeaderMap::new()).unwrap();
    let (status, _) =
        ready(s.recv_trailers(Some(TrailersEvent::Trailers(Ok(Some(trailers)))))).unwrap();
    assert!(status.is_ok());
}

#[test]
fn unread_data_is_dropped_before_the_trailers() {
    let mut s = opened();
    assert_eq!(wanted(s.recv_trailers(None)), Input::Data);
    assert_eq!(wanted(s.recv_trailers(Some(TrailersEvent::Data(data(b"rest"))))), Input::Data);
    assert_eq!(wanted(s.recv_trailers(Some(TrailersEvent::Data(DataEvent::End)))), Input::Trailers);
    let e = ready(s.recv_trailers(Some(TrailersEvent::Trailers(Ok(None))))).unwrap_err();
    assert_eq!(e, Status::internal("missing grpc-status header in trailers"));
}

#[test]
fn stream_faults_name_the_step() {
    let mut s = opened();
    let lost = DataEvent::Data { bytes: Bytes::new(), released: Err("gone".to_string()) };
    assert_eq!(
        ready(s.recv_message(Some(lost))).unwrap_err(),
        Status::internal("release_capacity: gone")
    );
    assert_eq!(
        ready(s.recv_message(Some(DataEvent::Fault(fault(false))))).unwrap_err(),
        Status::internal("recv data frame: broken")
    );
    let lost = DataEvent::Data { bytes: Bytes::new(), released: Err("gone".to_string()) };
    assert_eq!(
        ready(s.recv_trailers(Some(TrailersEvent::Data(lost)))).unwrap_err(),
        Status::internal("drain release_capacity: gone")
    );
    assert_eq!(
        ready(s.recv_trailers(Some(TrailersEvent::Data(DataEvent::Fault(fault(false)))))).unwrap_err(),
        Status::internal("drain data: broken")
    );
    assert_eq!(wanted(s.recv_trailers(Some(TrailersEvent::Data(DataEvent::End)))), Input::Trailers);
    assert_eq!(
        ready(s.recv_trailers(Some(TrailersEvent::Trailers(Err(fault(false)))))).unwrap_err(),
        Status::internal("recv trailers: broken")
    );
}

#[test]
fn a_stream_that_the_peer_cancelled_reports_cancelled() {
    let mut s = opened();
    assert_eq!(
        ready(s.recv_message(Some(DataEvent::Fault(fault(true))))).unwrap_err(),
        Status::cancelled("recv data frame: broken")
    );
}

#[test]
fn a_stream_that_was_cancelled_reports_so_from_then_on() {
    let mut s = opened();
    s.cancel();
    let frame = encode_raw(b"late", None).unwrap();
    assert_eq!(ready(s.recv_message(Some(data(&frame)))).unwrap_err().code, Code::Cancelled);
    assert_eq!(ready(s.recv_headers(None)).unwrap_err().code, Code::Cancelled);
    assert_eq!(ready(s.recv_trailers(None)).unwrap_err(), Status::cancelled("call cancelled"));
}

#[test]
fn client_sends_what_it_is_given() {
    let mut s = ClientStream::new();
    let mut sent: Vec<(Bytes, bool)> = Vec::new();
    s.send_message(Bytes::from_static(b"abc"), true, |d, end| {
        sent.push((d, end));
        Ok(())
    })
    .unwrap();
    s.finish_send(|d, end| {
        sent.push((d, end));
        Ok(())
    })
    .unwrap();
    assert_eq!(sent, vec![(Bytes::from_static(b"abc"), true), (Bytes::new(), true)]);
    assert_eq!(
        s.send_message(Bytes::new(), false, |_, _| Err("full".to_string())).unwrap_err(),
        Status::internal("send_data: full")
    );
    assert_eq!(
        s.finish_send(|_, _| Err("full".to_string())).unwrap_err(),
        Status::internal("finish_send: full")
    );
}

#[test]
fn send_headers_twice_errors() {
    let mut stream = ServerStream::new("/x/x", HeaderMap::new());
    stream.send_headers(&HeaderMap::new()).unwrap();
    stream.headers_sent(Ok(())).unwrap();
    let result = stream.send_headers(&HeaderMap::new());
    assert!(result.is_err());
    assert!(result.unwrap_err().message.contains("already sent"));
}

#[test]
fn refused_headers_leave_the_stream_usable() {
    let mut stream = ServerStream::new("/x/x", HeaderMap::new());
    stream.send_headers(&HeaderMap::new()).unwrap();
    stream.headers_sent(Ok(())).unwrap();
    assert_eq!(stream.send_headers(&HeaderMap::new()).unwrap_err().code, Code::Internal);
    assert_eq!(stream.state(), SendState::Streaming);
    assert_eq!(stream.send_message(Bytes::from_static(b"frame")).unwrap(), "frame");
    let step = stream.send_trailers(&Status::ok(), &HeaderMap::new());
    assert!(matches!(step, TrailersStep::SendTrailers(_)));
}

#[test]
fn server_stream_echo_round_trip() {
    let mut headers = HeaderMap::new();
    headers.insert("content-type", "application/grpc".parse().unwrap());
    let mut stream = ServerStream::new("/test.Echo/Echo", headers);
    assert_eq!(stream.method(), "/test.Echo/Echo");
    assert_eq!(stream.request_headers().get("content-type").unwrap(), "application/grpc");

    let frame = encode_raw(b"ping", None).unwrap();
    assert!(stream.has_room(frame.len()));
    let frame = ready(stream.recv_message(Some(data(&frame)))).unwrap().unwrap();
    assert!(ready(stream.recv_message(Some(DataEvent::End))).unwrap().is_none());

    let h = stream.send_headers(&HeaderMap::new()).unwrap();
    assert_eq!(h.get("content-type").unwrap(), "application/grpc");
    assert_eq!(stream.state(), SendState::Opening);
    stream.headers_sent(Ok(())).unwrap();
    let out = stream.send_message(frame).unwrap();
    assert_eq!(decode_raw(&out, None, DEFAULT_MAX_RECV_SIZE).unwrap(), b"ping");
    match stream.send_trailers(&Status::ok(), &HeaderMap::new()) {
        TrailersStep::SendTrailers(t) => assert_eq!(t.get("grpc-status").unwrap(), "0"),
        _ => panic!("trailers are due"),
    }
    assert_eq!(stream.state(), SendState::Done);
}

#[test]
fn server_stream_trailer_only_response() {
    let mut stream = ServerStream::new("/test.Echo/NotImpl", HeaderMap::new());
    let status = Status::unimplemented("not implemented yet");
    match stream.send_trailers(&status, &HeaderMap::new()) {
        TrailersStep::SendHeaders(h) => {
            assert_eq!(h.get("content-type").unwrap(), "application/grpc");
            assert_eq!(h.len(), 1);
        }
        _ => panic!("headers are due"),
    }
    stream.headers_sent(Ok(())).unwrap();
    match stream.send_trailers(&status, &HeaderMap::new()) {
        TrailersStep::SendTrailers(t) => {
            assert_eq!(t.get("grpc-status").unwrap(), "12");
            assert!(t.get("grpc-message").unwrap().to_str().unwrap().contains("not implemented yet"));
        }
        _ => panic!("trailers are due"),
    }
    match stream.send_trailers(&status, &HeaderMap::new()) {
        TrailersStep::Failed(e) => {
            assert_eq!(e, Status::internal("unexpected send state in send_trailers"))
        }
        _ => panic!("nothing more can be sent"),
    }
}

#[test]
fn messages_need_an_open_response() {
    let mut stream = ServerStream::new("/x/x", HeaderMap::new());
    assert_eq!(
        stream.send_message(Bytes::new()).unwrap_err(),
        Status::internal("send_message called before send_headers")
    );
    let mut extra = HeaderMap::new();
    extra.insert("x-a", "1".parse().unwrap());
    assert_eq!(stream.send_headers(&extra).unwrap().get("x-a").unwrap(), "1");
    assert_eq!(
        stream.headers_sent(Err("reset".to_string())).unwrap_err(),
        Status::internal("send_response: reset")
    );
    assert_eq!(stream.state(), SendState::Done);
    assert_eq!(
        stream.send_message(Bytes::new()).unwrap_err(),
        Status::internal("send_message on closed stream")
    );
}

#[test]
fn server_read_faults_are_internal() {
    let mut stream = ServerStream::new("/x/x", HeaderMap::new());
    assert_eq!(wanted(stream.recv_message(None)), Input::Data);
    assert_eq!(
        ready(stream.recv_message(Some(DataEvent::Fault(fault(true))))).unwrap_err(),
        Status::internal("recv data frame: broken")
    );
    let lost = DataEvent::Data { bytes: Bytes::new(), released: Err("gone".to_string()) };
    assert_eq!(
        ready(stream.recv_message(Some(lost))).unwrap_err(),
        Status::internal("release_capacity: gone")
    );
}

#[test]
fn too_many_response_headers_are_refused() {
    let mut extra = HeaderMap::new();
    for i in 0..24_570 {
        let name: http::HeaderName = format!("x-{i}").parse().unwrap();
        if extra.try_append(name, http::HeaderValue::from_static("v")).is_err() {
            break;
        }
    }
    for i in 0..20 {
        let name: http::HeaderName = format!("y-{i}").parse().unwrap();
        let _ = extra.try_append(name, http::HeaderValue::from_static("v"));
    }
    let mut stream = ServerStream::new("/x/x", HeaderMap::new());
    assert_eq!(
        stream.send_headers(&extra).unwrap_err(),
        Status::internal("build response: max size reached")
    );
    assert_eq!(stream.state(), SendState::AwaitingHeaders);
    assert_eq!(
        new_request("/x/x", &extra).unwrap_err(),
        Status::internal("build request: max size reached")
    );
    stream.send_headers(&HeaderMap::new()).unwrap();
    stream.headers_sent(Ok(())).unwrap();
    let step = stream.send_trailers(&Status::ok(), &extra);
    assert!(matches!(step, TrailersStep::TooManyHeaders));
    assert_eq!(stream.state(), SendState::Streaming);
}

#[test]
fn send_outcomes_name_the_step() {
    assert!(sent_status("send_data", Ok(())).is_ok());
    assert_eq!(
        sent_status("send_trailers", Err("x".to_string())).unwrap_err(),
        Status::internal("send_trailers: x")
    );
}
