use bytes::Bytes;
use grpc_rs::codec::encode_raw;
use grpc_rs::interceptor::{chain_client, chain_server};
use grpc_rs::server::{
    dispatch_unary, parse_method_path, Handler, MethodDesc, Server, ServiceDesc, UnaryAction,
    UnaryEvent, UnaryState,
};
use grpc_rs::status::{Code, Status};
use grpc_rs::transport::ServerStream;
use http::HeaderMap;
use std::rc::Rc;
use std::time::Duration;

type TestServer = Server<u32, &'static str, u8>;

fn echo_server() -> TestServer {
    let mut server = Server::new();
    server.add_service(ServiceDesc {
        name: "test.Echo",
        methods: vec![
            MethodDesc { name: "Echo", handler: Handler::Unary(1) },
            MethodDesc { name: "Stream", handler: Handler::Streaming("s") },
            MethodDesc { name: "Echo", handler: Handler::Unary(2) },
        ],
    });
    server
}

fn request(path: &str, pairs: &[(&'static str, &str)]) -> ServerStream {
    let mut headers = HeaderMap::new();
    for (k, v) in pairs {
        headers.append(*k, v.parse().unwrap());
    }
    ServerStream::new(path, headers)
}

fn refused(path: &str, pairs: &[(&'static str, &str)]) -> Status {
    match echo_server().dispatch_stream(&request(path, pairs)) {
        Ok(_) => panic!("the request must be refused"),
        Err(e) => e,
    }
}

#[test]
fn parse_standard_path() {
    let (svc, method) = parse_method_path("/helloworld.Greeter/SayHello").unwrap();
    assert_eq!(svc, "helloworld.Greeter");
    assert_eq!(method, "SayHello");
}

#[test]
fn parse_no_package_path() {
    let (svc, method) = parse_method_path("/Greeter/SayHello").unwrap();
    assert_eq!(svc, "Greeter");
    assert_eq!(method, "SayHello");
}

#[test]
fn parse_no_leading_slash_returns_none() {
    assert!(parse_method_path("helloworld.Greeter/SayHello").is_none());
}

#[test]
fn parse_missing_method_returns_none() {
    assert!(parse_method_path("/helloworld.Greeter/").is_none());
}

#[test]
fn parse_missing_service_returns_none() {
    assert!(parse_method_path("//SayHello").is_none());
}

#[test]
fn parse_no_slash_returns_none() {
    assert!(parse_method_path("/SayHello").is_none());
}

#[test]
fn paths_are_split_at_the_last_slash() {
    assert_eq!(parse_method_path("/a/b/c"), Some(("a/b", "c")));
    assert_eq!(parse_method_path("/é/ü"), Some(("é", "ü")));
    assert_eq!(parse_method_path("///m"), Some(("/", "m")));
    assert_eq!(parse_method_path(""), None);
    assert_eq!(parse_method_path("/"), None);
    assert_eq!(parse_method_path("//"), None);
}

#[test]
fn unknown_service_returns_unimplemented() {
    let e = refused("/no.Such.Service/Method", &[("content-type", "application/grpc")]);
    assert_eq!(e, Status::unimplemented("unknown service no.Such.Service"));
}

#[test]
fn unknown_method_returns_unimplemented() {
    let e = refused("/test.Echo/NoSuchMethod", &[("content-type", "application/grpc")]);
    assert_eq!(e, Status::unimplemented("unknown method NoSuchMethod in service test.Echo"));
}

#[test]
fn malformed_path_is_unimplemented() {
    let e = refused("/a\"b", &[("content-type", "application/grpc")]);
    assert_eq!(e, Status::unimplemented("malformed method path: \"/a\\\"b\""));
}

#[test]
fn content_type_is_checked_first() {
    let e = refused("/a\"b", &[("content-type", "text/plain")]);
    assert_eq!(
        e,
        Status::invalid_argument(
            "invalid content-type \"text/plain\": must start with \"application/grpc\""
        )
    );
    let e = refused("/test.Echo/Echo", &[]);
    assert_eq!(e.code, Code::InvalidArgument);
    assert!(e.message.contains("content-type \"\""));
}

#[test]
fn requests_reach_their_handler() {
    let server = echo_server();
    let stream = request(
        "/test.Echo/Echo",
        &[
            ("content-type", "application/grpc+proto"),
            ("grpc-timeout", "250m"),
            ("x-a", "1"),
            ("x-a", "2"),
            ("te", "trailers"),
        ],
    );
    let d = match server.dispatch_stream(&stream) {
        Ok(d) => d,
        Err(e) => panic!("{e:?}"),
    };
    assert!(matches!(d.handler, Handler::Unary(2)));
    assert_eq!(d.method_path, "/test.Echo/Echo");
    assert_eq!(d.deadline, Some(Duration::from_millis(250)));
    assert_eq!(d.metadata.get_all("x-a"), vec!["1", "2"]);
    assert_eq!(d.metadata.iter().len(), 2);
    assert!(matches!(server.route("/test.Echo/Stream"), Ok(Handler::Streaming("s"))));
}

#[test]
fn malformed_timeouts_set_no_deadline() {
    let server = echo_server();
    for pairs in [
        vec![("content-type", "application/grpc"), ("grpc-timeout", "soon")],
        vec![("content-type", "application/grpc")],
    ] {
        match server.dispatch_stream(&request("/test.Echo/Stream", &pairs)) {
            Ok(d) => assert_eq!(d.deadline, None),
            Err(e) => panic!("{e:?}"),
        }
    }
}

#[test]
fn services_and_interceptors_are_registered() {
    let mut server: TestServer = Server::default();
    assert!(!server.has_service("test.Echo"));
    server.add_service(ServiceDesc { name: "test.Echo", methods: vec![] });
    assert!(server.has_service("test.Echo"));
    server.add_interceptor(7);
    server.add_interceptor(8);
    assert_eq!(server.interceptors(), &[7, 8]);
}

fn ended(state: UnaryState, event: UnaryEvent) -> Status {
    match dispatch_unary(state, event) {
        (UnaryState::Ending, UnaryAction::SendTrailers(s)) => s,
        other => panic!("the call must end: {other:?}"),
    }
}

#[test]
fn unary_rpc_round_trip() {
    let frame = encode_raw(b"hello from client", None).unwrap();
    let (state, payload) =
        match dispatch_unary(UnaryState::Receiving, UnaryEvent::Received(Ok(Some(frame)))) {
            (state, UnaryAction::Invoke(p)) => (state, p),
            other => panic!("{other:?}"),
        };
    assert_eq!(&payload[..], b"hello from client");
    let (state, action) = dispatch_unary(state, UnaryEvent::Handled(Some(Ok(payload))));
    assert!(matches!(action, UnaryAction::SendHeaders));
    let (state, out) = match dispatch_unary(state, UnaryEvent::HeadersSent(Ok(()))) {
        (state, UnaryAction::SendMessage(f)) => (state, f),
        other => panic!("{other:?}"),
    };
    assert_eq!(&out[..], &encode_raw(b"hello from client", None).unwrap()[..]);
    let (state, action) = dispatch_unary(state, UnaryEvent::MessageSent(Ok(())));
    match action {
        UnaryAction::SendTrailers(s) => assert!(s.is_ok()),
        other => panic!("{other:?}"),
    }
    let (state, action) = dispatch_unary(state, UnaryEvent::TrailersSent);
    assert!(matches!(state, UnaryState::Finished));
    assert!(matches!(action, UnaryAction::Stop));
}

#[test]
fn handler_error_propagates() {
    let s = ended(
        UnaryState::Handling,
        UnaryEvent::Handled(Some(Err(Status::not_found("thing not found")))),
    );
    assert_eq!(s.code, Code::NotFound);
    assert_eq!(s.message, "thing not found");
}

#[test]
fn failures_end_a_unary_call() {
    assert_eq!(
        ended(UnaryState::Receiving, UnaryEvent::Received(Ok(None))),
        Status::internal("empty request stream")
    );
    assert_eq!(
        ended(UnaryState::Receiving, UnaryEvent::Received(Err(Status::internal("lost")))),
        Status::internal("lost")
    );
    assert_eq!(
        ended(UnaryState::Receiving, UnaryEvent::Received(Ok(Some(Bytes::from_static(b"abc"))))),
        Status::internal("frame too short: 3 bytes (need 5)")
    );
    assert_eq!(
        ended(UnaryState::Handling, UnaryEvent::Handled(None)),
        Status::deadline_exceeded("server-side deadline exceeded")
    );
    assert_eq!(
        ended(
            UnaryState::Opening(Bytes::new()),
            UnaryEvent::HeadersSent(Err(Status::internal("h")))
        ),
        Status::internal("h")
    );
    assert_eq!(
        ended(UnaryState::Sending, UnaryEvent::MessageSent(Err(Status::internal("m")))),
        Status::internal("m")
    );
}

type Next = Rc<dyn Fn(String) -> String>;

fn tag(tag: &&'static str, _method: String, next: Next) -> Next {
    let tag = *tag;
    Rc::new(move |req| format!("{}:{tag}", next(format!("{tag}:{req}"))))
}

#[test]
fn server_interceptor_chain_wraps_in_order() {
    let handler: Next = Rc::new(|req| req);
    let chain = chain_server(&["outer", "inner"], "/test/echo", handler, tag);
    assert_eq!(chain("data".to_string()), "inner:outer:data:inner:outer");
}

#[test]
fn client_interceptor_chain_wraps_in_order() {
    let invoker: Next = Rc::new(|req| req);
    let chain = chain_client(&["A", "B"], "/test/call", invoker, tag);
    assert_eq!(chain("x".to_string()), "B:A:x:B:A");
}

#[test]
fn empty_interceptor_chain_calls_handler_directly() {
    let handler: Next = Rc::new(|_| "direct".to_string());
    let chain = chain_server(&[], "/test/direct", handler, tag);
    assert_eq!(chain(String::new()), "direct");
}

#[test]
fn interceptors_get_the_method_path() {
    let handler: Next = Rc::new(|req| req);
    let note = |_: &u8, method: String, next: Next| -> Next {
        Rc::new(move |req| format!("{method} {}", next(req)))
    };
    let chain = chain_client(&[0u8, 0u8], "/s/m", handler, note);
    assert_eq!(chain("r".to_string()), "/s/m /s/m r");
}
