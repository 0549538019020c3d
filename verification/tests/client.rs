use bytes::Bytes;
use grpc_rs::client::{
    apply_deadline, call_headers, deadline_of, time_left, unary_outcome, unary_request, CallAction,
    CallEvent, StreamCall, StreamEvent, UnaryCall, UnaryExchange,
};
use grpc_rs::codec::encode_raw;
use grpc_rs::metadata::Metadata;
use grpc_rs::retry::RetryPolicy;
use grpc_rs::status::{Code, Status};
use grpc_rs::transport::client::ResponseHead;
use grpc_rs::transport::server::build_trailers;
use grpc_rs::transport::{DataEvent, Input, Progress, StreamFault};
use http::HeaderMap;
use std::time::Duration;

fn response() -> Option<StreamEvent> {
    let mut headers = HeaderMap::new();
    headers.insert("content-type", "application/grpc".parse().unwrap());
    Some(StreamEvent::Response(Ok(ResponseHead { status: 200, headers })))
}

fn data(payload: &[u8]) -> Option<StreamEvent> {
    let bytes = encode_raw(payload, None).unwrap();
    Some(StreamEvent::Data(DataEvent::Data { bytes, released: Ok(()) }))
}

fn end() -> Option<StreamEvent> {
    Some(StreamEvent::Data(DataEvent::End))
}

fn trailers(status: &Status) -> Option<StreamEvent> {
    let mut extra = HeaderMap::new();
    extra.insert("x-server", "node-1".parse().unwrap());
    Some(StreamEvent::Trailers(Ok(build_trailers(status, &extra))))
}

fn ready<T>(p: Progress<T>) -> Result<T, Status> {
    match p {
        Progress::Ready(r) => r,
        Progress::Want(_) => panic!("more input is wanted"),
    }
}

fn wanted<T>(p: Progress<T>) -> Input {
    match p {
        Progress::Want(i) => i,
        Progress::Ready(_) => panic!("no input is wanted"),
    }
}

fn text(bytes: &[u8]) -> Result<String, String> {
    String::from_utf8(bytes.to_vec()).map_err(|_| "not text".to_string())
}

#[test]
fn client_server_unary_round_trip() {
    let mut x = UnaryExchange::new();
    assert_eq!(wanted(x.step(None)), Input::Response);
    assert_eq!(wanted(x.step(response())), Input::Data);
    assert!(x.has_room(100));
    assert_eq!(wanted(x.step(data(b"response"))), Input::Data);
    assert_eq!(wanted(x.step(end())), Input::Trailers);
    let (payload, md) = ready(x.step(trailers(&Status::ok()))).unwrap();
    assert_eq!(payload, b"response");
    assert_eq!(md.iter(), vec![("x-server", "node-1")]);
}

#[test]
fn client_receives_trailer_only_error() {
    let mut x = UnaryExchange::new();
    assert_eq!(wanted(x.step(response())), Input::Data);
    assert_eq!(wanted(x.step(end())), Input::Trailers);
    let e = ready(x.step(trailers(&Status::not_found("user not found")))).unwrap_err();
    assert_eq!(e.code, Code::NotFound);
    assert_eq!(e.message, "user not found");
}

#[test]
fn the_status_counts_before_the_response() {
    let none = HeaderMap::new();
    let frame = encode_raw(b"r", None).unwrap();
    assert_eq!(
        unary_outcome(Some(&frame), Status::internal("late"), &none).unwrap_err(),
        Status::internal("late")
    );
    assert_eq!(unary_outcome(Some(&frame), Status::ok(), &none).unwrap().0, b"r");
    assert_eq!(
        unary_outcome(None, Status::ok(), &none).unwrap_err(),
        Status::internal("server returned OK but sent no response body")
    );
    assert_eq!(
        unary_outcome(Some(b"ab"), Status::ok(), &none).unwrap_err(),
        Status::internal("frame too short: 2 bytes (need 5)")
    );
}

#[test]
fn exchanges_report_faults() {
    let mut x = UnaryExchange::new();
    let fault = StreamFault { cancelled: false, text: "reset".to_string() };
    let e = ready(x.step(Some(StreamEvent::Response(Err(fault))))).unwrap_err();
    assert_eq!(e, Status::internal("await response headers: reset"));
    let mut x = UnaryExchange::new();
    assert_eq!(wanted(x.step(response())), Input::Data);
    let fault = StreamFault { cancelled: true, text: "reset".to_string() };
    let e = ready(x.step(Some(StreamEvent::Data(DataEvent::Fault(fault))))).unwrap_err();
    assert_eq!(e, Status::cancelled("recv data frame: reset"));
    let mut x = UnaryExchange::new();
    assert_eq!(wanted(x.step(response())), Input::Data);
    assert_eq!(wanted(x.step(end())), Input::Trailers);
    let fault = StreamFault { cancelled: false, text: "reset".to_string() };
    let e = ready(x.step(Some(StreamEvent::Trailers(Err(fault))))).unwrap_err();
    assert_eq!(e, Status::internal("recv trailers: reset"));
}

#[test]
fn call_headers_carry_metadata_and_timeout() {
    let md = Metadata::from_pairs(&[("x-a", "1"), ("grpc-timeout", "9H")]);
    let h = call_headers(&md, Some(Duration::from_millis(50))).unwrap();
    assert_eq!(h.get("x-a").unwrap(), "1");
    assert_eq!(h.get("grpc-timeout").unwrap(), "50m");
    assert_eq!(h.len(), 2);
    let h = call_headers(&Metadata::new(), None).unwrap();
    assert!(h.is_empty());
}

#[test]
fn a_unary_request_is_the_framed_payload_and_the_headers() {
    let md = Metadata::from_pairs(&[("x-a", "1")]);
    let (frame, headers) = unary_request(b"abc", &md, Some(Duration::from_millis(50))).unwrap();
    assert_eq!(&frame[..], &[0, 0, 0, 0, 3, b'a', b'b', b'c']);
    let headers = headers.unwrap();
    assert_eq!(headers.get("x-a").unwrap(), "1");
    assert_eq!(headers.get("grpc-timeout").unwrap(), "50m");
    assert_eq!(headers.len(), 2);
    let (frame, headers) = unary_request(b"", &Metadata::new(), None).unwrap();
    assert_eq!(&frame[..], &[0, 0, 0, 0, 0]);
    assert!(headers.unwrap().is_empty());
}

/// The events of a response with the given payloads, its data cut into chunks of
/// `size` bytes.
fn response_events(payloads: &[&[u8]], size: usize, status: &Status) -> Vec<StreamEvent> {
    let mut wire = Vec::new();
    for p in payloads {
        wire.extend_from_slice(&encode_raw(p, None).unwrap());
    }
    let mut events = vec![response().unwrap()];
    for chunk in wire.chunks(size) {
        let bytes = Bytes::copy_from_slice(chunk);
        events.push(StreamEvent::Data(DataEvent::Data { bytes, released: Ok(()) }));
    }
    events.push(end().unwrap());
    events.push(trailers(status).unwrap());
    events
}

/// Receives a payload, with the next of the events as often as more is wanted.
fn receive(
    call: &mut StreamCall,
    events: &mut dyn Iterator<Item = StreamEvent>,
) -> Result<Option<Vec<u8>>, Status> {
    let mut event = None;
    loop {
        match call.recv_payload(event) {
            Progress::Ready(r) => return r,
            Progress::Want(_) => event = Some(events.next().unwrap()),
        }
    }
}

/// Ends a call, with the next of the events as often as more is wanted.
fn finish(
    call: &mut StreamCall,
    events: &mut dyn Iterator<Item = StreamEvent>,
) -> Result<Metadata, Status> {
    let mut event = None;
    loop {
        match call.finish(event) {
            Progress::Ready(r) => return r,
            Progress::Want(_) => event = Some(events.next().unwrap()),
        }
    }
}

#[test]
fn a_streaming_call_receives_each_payload_and_ends_with_the_status() {
    let payloads: [&[u8]; 3] = [b"one", b"", b"three"];
    for size in 1..30 {
        for receipts in 0..6 {
            for status in [Status::ok(), Status::not_found("gone \u{e9}")] {
                let mut events = response_events(&payloads, size, &status).into_iter();
                let mut call = StreamCall::new(None);
                for n in 0..receipts {
                    let expected = payloads.get(n).map(|p| p.to_vec());
                    assert_eq!(receive(&mut call, &mut events).unwrap(), expected);
                }
                let r = finish(&mut call, &mut events);
                if status.code == Code::OK {
                    assert_eq!(r.unwrap().iter(), vec![("x-server", "node-1")]);
                } else {
                    assert_eq!(r.unwrap_err(), status);
                }
            }
        }
    }
}

#[test]
fn server_streaming_multiple_responses() {
    let mut call = StreamCall::new(None);
    assert_eq!(call.deadline(), None);
    assert_eq!(wanted(call.recv_message(None, text)), Input::Response);
    assert_eq!(wanted(call.recv_message(response(), text)), Input::Data);
    let mut replies = Vec::new();
    for reply in ["reply 1", "reply 2", "reply 3"] {
        replies.push(ready(call.recv_message(data(reply.as_bytes()), text)).unwrap().unwrap());
    }
    assert!(ready(call.recv_message(end(), text)).unwrap().is_none());
    assert_eq!(wanted(call.finish(None)), Input::Trailers);
    let md = ready(call.finish(trailers(&Status::ok()))).unwrap();
    assert_eq!(md.get("x-server"), Some("node-1"));
    assert_eq!(replies, vec!["reply 1", "reply 2", "reply 3"]);
}

#[test]
fn a_failed_stream_reports_its_status() {
    let mut call = StreamCall::new(None);
    assert_eq!(wanted(call.finish(response())), Input::Data);
    assert_eq!(wanted(call.finish(data(b"ignored"))), Input::Data);
    assert_eq!(wanted(call.finish(end())), Input::Trailers);
    let e = ready(call.finish(trailers(&Status::unavailable("down")))).unwrap_err();
    assert_eq!(e, Status::unavailable("down"));
}

#[test]
fn unreadable_messages_are_internal() {
    let mut call = StreamCall::new(None);
    assert_eq!(wanted(call.recv_message(response(), text)), Input::Data);
    assert!(call.has_room(10));
    let e = ready(call.recv_message(data(&[0xff]), text)).unwrap_err();
    assert_eq!(e, Status::internal("proto decode: not text"));
    let bad = DataEvent::Data { bytes: Bytes::from_static(&[2, 0, 0, 0, 0]), released: Ok(()) };
    let e = ready(call.recv_payload(Some(StreamEvent::Data(bad)))).unwrap_err();
    assert_eq!(e.code, Code::Internal);
}

#[test]
fn a_cancelled_call_reports_cancelled() {
    let mut call = StreamCall::new(Some(10));
    assert_eq!(call.deadline(), Some(10));
    assert_eq!(wanted(call.recv_message(response(), text)), Input::Data);
    call.cancel();
    assert_eq!(ready(call.recv_message(data(b"x"), text)).unwrap_err().code, Code::Cancelled);
    assert_eq!(ready(call.finish(None)).unwrap_err().code, Code::Cancelled);
}

#[test]
fn requests_are_framed_and_sent() {
    let mut call = StreamCall::new(None);
    let serialize = |s: &&str| -> Result<Vec<u8>, String> { Ok(s.as_bytes().to_vec()) };
    let mut sent: Vec<(Bytes, bool)> = Vec::new();
    call.send_message(&"abc", serialize, |d, end| {
        sent.push((d, end));
        Ok(())
    })
    .unwrap();
    call.close_send(|d, end| {
        sent.push((d, end));
        Ok(())
    })
    .unwrap();
    assert_eq!(sent, vec![(encode_raw(b"abc", None).unwrap(), false), (Bytes::new(), true)]);
    let fail = |_: &&str| -> Result<Vec<u8>, String> { Err("big".to_string()) };
    assert_eq!(
        call.send_message(&"abc", fail, |_, _| Ok(())).unwrap_err(),
        Status::internal("proto encode: big")
    );
    assert_eq!(
        call.send_message(&"abc", serialize, |_, _| Err("reset".to_string())).unwrap_err(),
        Status::internal("send_data: reset")
    );
    assert_eq!(
        call.close_send(|_, _| Err("reset".to_string())).unwrap_err(),
        Status::internal("finish_send: reset")
    );
}

#[test]
fn deadlines_are_applied() {
    let late = Status::deadline_exceeded("streaming RPC deadline exceeded");
    assert_eq!(apply_deadline(None, Some(Ok(1)), 5), Ok(1));
    assert_eq!(apply_deadline(Some(3), Some(Ok(1)), 5), Ok(1));
    assert_eq!(apply_deadline::<u8>(Some(3), None, 5), Err(late.clone()));
    let cancelled = Status::cancelled("reset");
    assert_eq!(apply_deadline::<u8>(Some(5), Some(Err(cancelled.clone())), 5), Err(late));
    assert_eq!(
        apply_deadline::<u8>(Some(6), Some(Err(cancelled.clone())), 5),
        Err(cancelled.clone())
    );
    assert_eq!(apply_deadline::<u8>(None, Some(Err(cancelled.clone())), 5), Err(cancelled));
    let other = Status::internal("x");
    assert_eq!(apply_deadline::<u8>(Some(1), Some(Err(other.clone())), 5), Err(other));
    assert_eq!(time_left(7, 5), 2);
    assert_eq!(time_left(5, 7), 0);
    assert_eq!(deadline_of(5, Some(Duration::from_nanos(7))), Some(12));
    assert_eq!(deadline_of(5, None), None);
}

fn policy(max_attempts: usize) -> RetryPolicy {
    RetryPolicy {
        max_attempts,
        initial_backoff: Duration::from_millis(1),
        max_backoff: Duration::from_millis(10),
        retryable_codes: vec![Code::Unavailable],
    }
}

/// Runs a call whose attempt with number `n` has the outcome `outcome(n)`, and
/// counts the attempts.
fn run(
    policy: Option<&RetryPolicy>,
    outcome: fn(usize) -> Result<&'static str, Status>,
) -> (usize, Result<&'static str, Status>) {
    let mut call = UnaryCall::new();
    let mut attempts = 0;
    let mut event = CallEvent::Attempted(outcome(attempts));
    attempts += 1;
    loop {
        match call.call_unary(policy, event) {
            CallAction::Return(r) => return (attempts, r),
            CallAction::Wait(n) => {
                assert_eq!(n, attempts);
                event = CallEvent::Waited;
            }
            CallAction::Attempt => {
                event = CallEvent::Attempted(outcome(attempts));
                attempts += 1;
            }
        }
    }
}

#[test]
fn retry_succeeds_on_second_attempt() {
    let flaky = |n: usize| if n < 1 { Err(Status::unavailable("temporary failure")) } else { Ok("r") };
    assert_eq!(run(Some(&policy(3)), flaky), (2, Ok("r")));
}

#[test]
fn retry_exhausted_returns_last_error() {
    let down = |n: usize| Err(Status::unavailable(&format!("failure {n}")));
    assert_eq!(run(Some(&policy(3)), down), (3, Err(Status::unavailable("failure 2"))));
    assert_eq!(run(Some(&policy(100)), down), (5, Err(Status::unavailable("failure 4"))));
    assert_eq!(run(Some(&policy(0)), down), (1, Err(Status::unavailable("failure 0"))));
}

#[test]
fn non_retryable_code_not_retried() {
    let denied = |_: usize| Err(Status::new(Code::PermissionDenied, "denied"));
    let (attempts, r) = run(Some(&policy(5)), denied);
    assert_eq!(attempts, 1);
    assert_eq!(r.unwrap_err().code, Code::PermissionDenied);
}

#[test]
fn no_policy_no_retry() {
    let down = |_: usize| Err(Status::unavailable("down"));
    assert_eq!(run(None, down), (1, Err(Status::unavailable("down"))));
    assert_eq!(run(None, |_| Ok("fine")), (1, Ok("fine")));
}

#[test]
fn a_call_that_runs_out_of_time_is_over() {
    let mut call = UnaryCall::new();
    let p = policy(3);
    let event: CallEvent<u8> = CallEvent::Attempted(Err(Status::unavailable("down")));
    assert!(matches!(call.call_unary(Some(&p), event), CallAction::Wait(1)));
    match call.call_unary(Some(&p), CallEvent::<u8>::TimedOut) {
        CallAction::Return(r) => {
            assert_eq!(r, Err(Status::deadline_exceeded("RPC deadline exceeded")))
        }
        other => panic!("{other:?}"),
    }
}
