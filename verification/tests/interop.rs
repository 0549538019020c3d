use grpc_rs::interop::{
    echo_unary_call, make_server, parse_args, payload_size, select_cases, unary_call, Args,
    ArgsError, EchoStatus, Incoming, Payload, ResponseParameters, SimpleRequest,
    StreamingInputCallRequest, StreamingMethod, StreamingOutputCallRequest, StreamingTest,
    TestAction, TestCase, TestEvent,
};
use grpc_rs::server::{Handler, Server};
use grpc_rs::status::{Code, Status};
use grpc_rs::tls::alpn_protocols;

fn simple(size: i32, status: Option<EchoStatus>) -> SimpleRequest {
    SimpleRequest { response_type: 1, response_size: size, payload: None, response_status: status }
}

fn output(sizes: &[i32]) -> TestEvent {
    let mut response_parameters = Vec::new();
    for size in sizes {
        response_parameters.push(ResponseParameters { size: *size, interval_us: 0 });
    }
    TestEvent::Received(Incoming::Output(StreamingOutputCallRequest {
        response_type: 2,
        response_parameters,
        payload: None,
    }))
}

fn input(size: usize) -> TestEvent {
    TestEvent::Received(Incoming::Input(StreamingInputCallRequest {
        payload: Some(Payload { kind: 0, body: vec![0; size] }),
    }))
}

fn sent_size(a: TestAction) -> usize {
    match a {
        TestAction::SendOutput(r) => {
            assert_eq!(r.payload.as_ref().unwrap().kind, 2);
            payload_size(&r.payload)
        }
        other => panic!("{other:?}"),
    }
}

fn line(args: &[&str]) -> Result<Args, ArgsError> {
    let mut v = Vec::new();
    for a in args {
        v.push(a.to_string());
    }
    parse_args(&v)
}

#[test]
fn large_unary_response() {
    let p = unary_call(&simple(314159, None)).payload.unwrap();
    assert_eq!(p.kind, 1);
    assert_eq!(p.body, vec![0u8; 314159]);
    assert_eq!(unary_call(&simple(0, None)).payload.unwrap().body.len(), 0);
}

#[test]
fn unary_status_is_echoed() {
    let echo = |code| Some(EchoStatus { code, message: "m".to_string() });
    assert_eq!(
        echo_unary_call(&simple(3, echo(5))).unwrap_err(),
        Status::not_found("m")
    );
    assert_eq!(echo_unary_call(&simple(3, echo(99))).unwrap_err(), Status::new(Code::Unknown, "m"));
    assert_eq!(echo_unary_call(&simple(3, echo(-1))).unwrap_err(), Status::new(Code::Unknown, "m"));
    assert_eq!(payload_size(&echo_unary_call(&simple(3, echo(0))).unwrap().payload), 3);
    assert_eq!(payload_size(&echo_unary_call(&simple(4, None)).unwrap().payload), 4);
    assert_eq!(payload_size(&None), 0);
}

#[test]
fn client_streaming_adds_up() {
    let (mut t, first) = StreamingTest::start(StreamingMethod::Input);
    assert!(matches!(first, TestAction::Receive));
    for size in [27182usize, 8, 1828, 45904] {
        assert!(matches!(t.step(input(size)), TestAction::Receive));
    }
    assert!(matches!(t.step(TestEvent::Received(Incoming::Unreadable)), TestAction::Receive));
    assert!(matches!(t.step(TestEvent::Received(Incoming::End)), TestAction::SendHeaders));
    match t.step(TestEvent::HeadersSent) {
        TestAction::SendTotal(r) => assert_eq!(r.aggregated_payload_size, 74922),
        other => panic!("{other:?}"),
    }
    assert!(matches!(t.step(TestEvent::Sent(true)), TestAction::SendTrailers));
}

#[test]
fn server_streaming_sends_what_was_asked_for() {
    let (mut t, first) = StreamingTest::start(StreamingMethod::Output);
    assert!(matches!(first, TestAction::Receive));
    assert!(matches!(t.step(output(&[31415, 9, 2653, 58979])), TestAction::SendHeaders));
    assert_eq!(sent_size(t.step(TestEvent::HeadersSent)), 31415);
    assert_eq!(sent_size(t.step(TestEvent::Sent(true))), 9);
    assert_eq!(sent_size(t.step(TestEvent::Sent(true))), 2653);
    assert_eq!(sent_size(t.step(TestEvent::Sent(true))), 58979);
    assert!(matches!(t.step(TestEvent::Sent(true)), TestAction::SendTrailers));
}

#[test]
fn server_streaming_stops_when_sending_fails() {
    let (mut t, _) = StreamingTest::start(StreamingMethod::Output);
    t.step(output(&[1, 2]));
    assert_eq!(sent_size(t.step(TestEvent::HeadersSent)), 1);
    assert!(matches!(t.step(TestEvent::Sent(false)), TestAction::SendTrailers));
    let (mut t, _) = StreamingTest::start(StreamingMethod::Output);
    assert!(matches!(t.step(TestEvent::Received(Incoming::End)), TestAction::SendHeaders));
    assert!(matches!(t.step(TestEvent::HeadersSent), TestAction::SendTrailers));
}

#[test]
fn ping_pong_answers_every_request() {
    let (mut t, first) = StreamingTest::start(StreamingMethod::Duplex);
    assert!(matches!(first, TestAction::SendHeaders));
    assert!(matches!(t.step(TestEvent::HeadersSent), TestAction::Receive));
    for size in [31415, 9, 2653, 58979] {
        assert_eq!(sent_size(t.step(output(&[size]))), size as usize);
        assert!(matches!(t.step(TestEvent::Sent(true)), TestAction::Receive));
    }
    assert_eq!(sent_size(t.step(output(&[5, 6]))), 5);
    assert!(matches!(t.step(TestEvent::Sent(false)), TestAction::Receive));
    assert!(matches!(t.step(TestEvent::Received(Incoming::Unreadable)), TestAction::Receive));
    assert!(matches!(t.step(TestEvent::Received(Incoming::End)), TestAction::SendTrailers));
}

#[test]
fn empty_stream_ends_at_once() {
    let (mut t, _) = StreamingTest::start(StreamingMethod::Duplex);
    assert!(matches!(t.step(TestEvent::HeadersSent), TestAction::Receive));
    assert!(matches!(t.step(TestEvent::Received(Incoming::End)), TestAction::SendTrailers));
}

#[test]
fn the_test_service_is_registered() {
    let server: Server<u8, u8, u8> = make_server(1, Handler::Unary(2), 3, 4, 5);
    let path = |m: &str| format!("/grpc.testing.TestService/{m}");
    assert!(matches!(server.route(&path("EmptyCall")), Ok(Handler::Unary(1))));
    assert!(matches!(server.route(&path("UnaryCall")), Ok(Handler::Unary(2))));
    assert!(matches!(server.route(&path("StreamingInputCall")), Ok(Handler::Streaming(3))));
    assert!(matches!(server.route(&path("StreamingOutputCall")), Ok(Handler::Streaming(4))));
    assert!(matches!(server.route(&path("FullDuplexCall")), Ok(Handler::Streaming(5))));
    assert!(server.route(&path("HalfDuplexCall")).is_err());
    assert!(server.interceptors().is_empty());
}

#[test]
fn arguments_have_defaults() {
    let a = line(&[]).unwrap();
    assert_eq!(
        a,
        Args {
            mode: "client".into(),
            server_host: "localhost".into(),
            server_port: 10000,
            port: 10000,
            test_case: "empty_unary".into(),
        }
    );
}

#[test]
fn arguments_are_read() {
    let a = line(&[
        "--mode=server",
        "--server_host=10.0.0.1",
        "--server_port=65535",
        "--port=0",
        "--test_case=all",
        "--unknown=1",
        "--port=+8080",
    ])
    .unwrap();
    assert_eq!(a.mode, "server");
    assert_eq!(a.server_host, "10.0.0.1");
    assert_eq!(a.server_port, 65535);
    assert_eq!(a.port, 8080);
    assert_eq!(a.test_case, "all");
}

#[test]
fn bad_ports_are_reported() {
    assert_eq!(line(&["--server_port=65536"]), Err(ArgsError::InvalidServerPort));
    assert_eq!(line(&["--port=", "--server_port=x"]), Err(ArgsError::InvalidPort));
}

#[test]
fn cases_are_selected_by_name() {
    assert_eq!(select_cases("ping_pong"), Some(vec![TestCase::PingPong]));
    assert_eq!(select_cases("empty_unary"), Some(vec![TestCase::EmptyUnary]));
    assert_eq!(select_cases("large_unary"), Some(vec![TestCase::LargeUnary]));
    assert_eq!(select_cases("client_streaming"), Some(vec![TestCase::ClientStreaming]));
    assert_eq!(select_cases("server_streaming"), Some(vec![TestCase::ServerStreaming]));
    assert_eq!(select_cases("empty_stream"), Some(vec![TestCase::EmptyStream]));
    assert_eq!(select_cases("all").unwrap().len(), 6);
    assert_eq!(select_cases("some"), None);
}

#[test]
fn http2_is_the_only_protocol() {
    assert_eq!(alpn_protocols(), vec![b"h2".to_vec()]);
}
