use bytes::Bytes;
use grpc_rs::client::{call_headers, unary_request, Channel, StreamEvent, UnaryExchange};
use grpc_rs::interceptor::{chain_client, chain_server};
use grpc_rs::metadata::Metadata;
use grpc_rs::retry::RetryPolicy;
use grpc_rs::server::{
    dispatch_unary, Handler, MethodDesc, Server, ServiceDesc, UnaryAction, UnaryEvent, UnaryState,
};
use grpc_rs::status::{Code, Status};
use grpc_rs::transport::client::{new_request, ResponseHead};
use grpc_rs::transport::server::TrailersStep;
use grpc_rs::transport::{DataEvent, Progress, ServerStream};
use http::HeaderMap;
use std::cell::RefCell;
use std::rc::Rc;
use std::time::Duration;

type Reply = Result<Vec<u8>, Status>;
type Unary = Rc<dyn Fn(&[u8], &Metadata) -> Reply>;
type Interceptor = Rc<dyn Fn(&str, &[u8], &Metadata, &Unary) -> Reply>;
type TestServer = Server<Unary, (), Interceptor>;

/// What a server sends on a stream.
struct Response {
    headers: HeaderMap,
    data: Vec<u8>,
    trailers: HeaderMap,
}

fn unary(f: impl Fn(&[u8], &Metadata) -> Reply + 'static) -> Unary {
    Rc::new(f)
}

fn serving(service: &'static str, method: &'static str, handler: Unary) -> TestServer {
    let mut server = Server::new();
    server.add_service(ServiceDesc {
        name: service,
        methods: vec![MethodDesc { name: method, handler: Handler::Unary(handler) }],
    });
    server
}

fn greeter() -> TestServer {
    serving(
        "helloworld.Greeter",
        "SayHello",
        unary(|req, _| Ok([b"Hello, ".as_slice(), req, b"!".as_slice()].concat())),
    )
}

fn wrap(i: &Interceptor, method: String, next: Unary) -> Unary {
    let i = Rc::clone(i);
    Rc::new(move |req, md| i(&method, req, md, &next))
}

/// Ends a response.
fn end(stream: &mut ServerStream, status: &Status, response: &mut Response) {
    loop {
        match stream.send_trailers(status, &HeaderMap::new()) {
            TrailersStep::SendHeaders(h) => {
                response.headers = h;
                stream.headers_sent(Ok(())).unwrap();
            }
            TrailersStep::SendTrailers(t) => {
                response.trailers = t;
                return;
            }
            step => panic!("{step:?}"),
        }
    }
}

/// Serves one request. A handler runs out of time if the request grants none.
fn serve(server: &TestServer, path: &str, headers: HeaderMap, body: &[u8]) -> Response {
    let mut stream = ServerStream::new(path, headers);
    let mut response =
        Response { headers: HeaderMap::new(), data: Vec::new(), trailers: HeaderMap::new() };
    let dispatch = match server.dispatch_stream(&stream) {
        Ok(d) => d,
        Err(status) => {
            end(&mut stream, &status, &mut response);
            return response;
        }
    };
    let Handler::Unary(handler) = dispatch.handler else { panic!("not unary") };
    let chain =
        chain_server(server.interceptors(), &dispatch.method_path, Rc::clone(handler), wrap);
    let data = DataEvent::Data { bytes: Bytes::copy_from_slice(body), released: Ok(()) };
    let Progress::Ready(received) = stream.recv_message(Some(data)) else { panic!("no message") };
    let mut state = UnaryState::Receiving;
    let mut event = UnaryEvent::Received(received);
    loop {
        let (next, action) = dispatch_unary(state, event);
        state = next;
        event = match action {
            UnaryAction::Invoke(payload) => {
                UnaryEvent::Handled(if dispatch.deadline == Some(Duration::ZERO) {
                    None
                } else {
                    Some(chain(&payload, &dispatch.metadata).map(Bytes::from))
                })
            }
            UnaryAction::SendHeaders => {
                response.headers = stream.send_headers(&HeaderMap::new()).unwrap();
                UnaryEvent::HeadersSent(stream.headers_sent(Ok(())))
            }
            UnaryAction::SendMessage(frame) => {
                UnaryEvent::MessageSent(stream.send_message(frame).map(|f| {
                    response.data.extend_from_slice(&f);
                }))
            }
            UnaryAction::SendTrailers(status) => {
                end(&mut stream, &status, &mut response);
                UnaryEvent::TrailersSent
            }
            UnaryAction::Stop => return response,
        };
    }
}

/// Calls a method with the response arriving in chunks of `chunk` bytes.
fn call_in_chunks(
    server: &TestServer,
    path: &str,
    payload: &[u8],
    md: &Metadata,
    timeout: Option<Duration>,
    chunk: usize,
) -> Result<(Vec<u8>, Metadata), Status> {
    let (frame, extra) = unary_request(payload, md, timeout)?;
    let extra = extra.unwrap();
    let headers = new_request(path, &extra)?;
    let response = serve(server, path, headers, &frame);
    let mut events = vec![StreamEvent::Response(Ok(ResponseHead {
        status: 200,
        headers: response.headers,
    }))];
    for piece in response.data.chunks(chunk) {
        events.push(StreamEvent::Data(DataEvent::Data {
            bytes: Bytes::copy_from_slice(piece),
            released: Ok(()),
        }));
    }
    events.push(StreamEvent::Data(DataEvent::End));
    events.push(StreamEvent::Trailers(Ok(Some(response.trailers))));
    let mut exchange = UnaryExchange::new();
    for event in events {
        if let Progress::Ready(r) = exchange.step(Some(event)) {
            return r;
        }
    }
    panic!("the exchange is not over")
}

fn call(
    server: &TestServer,
    path: &str,
    payload: &[u8],
    md: &Metadata,
) -> Result<(Vec<u8>, Metadata), Status> {
    call_in_chunks(server, path, payload, md, None, 1 << 20)
}

#[test]
fn say_hello_end_to_end() {
    let (reply, trailing) =
        call(&greeter(), "/helloworld.Greeter/SayHello", b"World", &Metadata::new()).unwrap();
    assert_eq!(reply, b"Hello, World!");
    assert!(trailing.is_empty());
}

#[test]
fn multiple_sequential_calls() {
    let server = greeter();
    for name in ["Alice", "Bob", "Carol"] {
        let (reply, _) =
            call(&server, "/helloworld.Greeter/SayHello", name.as_bytes(), &Metadata::new())
                .unwrap();
        assert_eq!(reply, format!("Hello, {name}!").into_bytes());
    }
}

#[test]
fn responses_may_arrive_in_any_chunks() {
    let server = greeter();
    for chunk in 1..20 {
        let (reply, _) = call_in_chunks(
            &server,
            "/helloworld.Greeter/SayHello",
            b"World",
            &Metadata::new(),
            None,
            chunk,
        )
        .unwrap();
        assert_eq!(reply, b"Hello, World!", "chunks of {chunk}");
    }
}

#[test]
fn server_error_propagates_through_channel() {
    let server =
        serving("test.Fail", "Fail", unary(|_, _| Err(Status::not_found("resource missing"))));
    let err = call(&server, "/test.Fail/Fail", b"", &Metadata::new()).unwrap_err();
    assert_eq!(err.code, Code::NotFound);
    assert_eq!(err.message, "resource missing");
}

#[test]
fn error_messages_survive_whatever_they_hold() {
    let server = serving(
        "test.Fail",
        "Fail",
        unary(|_, _| Err(Status::new(Code::Aborted, "50% of \u{fc}\n\u{1f600}"))),
    );
    let err = call(&server, "/test.Fail/Fail", b"x", &Metadata::new()).unwrap_err();
    assert_eq!(err, Status::new(Code::Aborted, "50% of \u{fc}\n\u{1f600}"));
}

#[test]
fn unknown_method_via_channel() {
    let err = call(&greeter(), "/helloworld.Greeter/SayGoodbye", b"", &Metadata::new()).unwrap_err();
    assert_eq!(err.code, Code::Unimplemented);
    assert_eq!(err.message, "unknown method SayGoodbye in service helloworld.Greeter");
}

#[test]
fn request_metadata_reaches_handler() {
    let server = serving(
        "test.Meta",
        "Echo",
        unary(|_, md| Ok(md.get("x-client-id").unwrap_or("(none)").as_bytes().to_vec())),
    );
    let mut md = Metadata::new();
    md.insert("x-client-id", "test-client-42");
    let (payload, _) = call(&server, "/test.Meta/Echo", b"unused", &md).unwrap();
    assert_eq!(payload, b"test-client-42");
}

#[test]
fn binary_metadata_reaches_handler() {
    let server = serving(
        "test.Meta",
        "Echo",
        unary(|_, md| md.get_bin("x-data-bin").ok_or_else(|| Status::not_found("absent"))),
    );
    let mut md = Metadata::new();
    md.insert_bin("x-data-bin", b"\x00\xff\x80binary").unwrap();
    let (payload, _) = call(&server, "/test.Meta/Echo", b"", &md).unwrap();
    assert_eq!(payload, b"\x00\xff\x80binary");
}

#[test]
fn headers_of_the_transport_do_not_reach_the_handler() {
    let server = serving(
        "test.Meta",
        "Count",
        unary(|_, md| Ok(md.iter().len().to_string().into_bytes())),
    );
    let mut md = Metadata::new();
    md.append("x-a", "1");
    md.append("x-a", "2");
    md.append("grpc-internal", "3");
    md.append("host", "4");
    let limit = Some(Duration::from_secs(5));
    let (payload, _) = call_in_chunks(&server, "/test.Meta/Count", b"", &md, limit, 100).unwrap();
    assert_eq!(payload, b"2");
}

#[test]
fn deadline_exceeded_on_slow_handler() {
    let server = serving("test.Slow", "Slow", unary(|_, _| Ok(Vec::new())));
    let limit = Some(Duration::ZERO);
    let err = call_in_chunks(&server, "/test.Slow/Slow", b"", &Metadata::new(), limit, 100)
        .unwrap_err();
    assert_eq!(err, Status::deadline_exceeded("server-side deadline exceeded"));
}

#[test]
fn call_with_timeout_succeeds_before_deadline() {
    let limit = Some(Duration::from_secs(5));
    let (reply, _) = call_in_chunks(
        &greeter(),
        "/helloworld.Greeter/SayHello",
        b"Timeout",
        &Metadata::new(),
        limit,
        100,
    )
    .unwrap();
    assert_eq!(reply, b"Hello, Timeout!");
}

#[test]
fn the_time_limit_that_the_client_sets_is_granted() {
    let server = greeter();
    for limit in [
        Duration::from_secs(7200),
        Duration::from_secs(90),
        Duration::from_millis(250),
        Duration::from_micros(7),
        Duration::from_nanos(123_456_789_012),
    ] {
        let extra = call_headers(&Metadata::new(), Some(limit)).unwrap();
        let headers = new_request("/helloworld.Greeter/SayHello", &extra).unwrap();
        let stream = ServerStream::new("/helloworld.Greeter/SayHello", headers);
        assert_eq!(server.dispatch_stream(&stream).ok().unwrap().deadline, Some(limit));
    }
}

#[test]
fn trailing_metadata_reaches_the_client() {
    let mut sent = Metadata::new();
    sent.append("x-server-id", "node-1");
    sent.append("x-server-id", "node-2");
    let mut stream = ServerStream::new("/a/b", HeaderMap::new());
    stream.send_headers(&HeaderMap::new()).unwrap();
    stream.headers_sent(Ok(())).unwrap();
    let step = stream.send_trailers(&Status::ok(), &sent.to_header_map());
    let TrailersStep::SendTrailers(trailers) = step else { panic!("{step:?}") };
    let received = Metadata::from_trailer_headers(&trailers);
    assert_eq!(received.get_all("x-server-id"), ["node-1", "node-2"]);
    assert_eq!(received.iter().len(), 2);
}

#[test]
fn client_interceptor_adds_metadata() {
    let seen: Rc<RefCell<Option<String>>> = Rc::new(RefCell::new(None));
    let seen_clone = Rc::clone(&seen);
    let mut channel: Channel<Rc<TestServer>, Interceptor> = Channel::new(Rc::new(greeter()));
    channel.add_interceptor(Rc::new(move |_: &str, req: &[u8], md: &Metadata, next: &Unary| {
        let mut md = md.clone();
        md.insert("x-intercepted", "client-yes");
        let result = next(req, &md);
        *seen_clone.borrow_mut() = Some("ran".to_owned());
        result
    }));
    let path = "/helloworld.Greeter/SayHello";
    let server = Rc::clone(channel.transport());
    let invoker = unary(move |req, md| call(&server, path, req, md).map(|(reply, _)| reply));
    let chain = chain_client(channel.interceptors(), path, invoker, wrap);
    assert_eq!(chain(b"Intercepted", &Metadata::new()).unwrap(), b"Hello, Intercepted!");
    assert_eq!(seen.borrow().as_deref(), Some("ran"));
}

#[test]
fn metadata_of_a_client_interceptor_is_sent() {
    let server = serving(
        "test.Meta",
        "Echo",
        unary(|_, md| Ok(md.get("x-intercepted").unwrap_or("(none)").as_bytes().to_vec())),
    );
    let mut channel: Channel<TestServer, Interceptor> = Channel::new(server);
    channel.add_interceptor(Rc::new(|_: &str, req: &[u8], md: &Metadata, next: &Unary| {
        let mut md = md.clone();
        md.insert("x-intercepted", "client-yes");
        next(req, &md)
    }));
    let transport = serving(
        "test.Meta",
        "Echo",
        unary(|_, md| Ok(md.get("x-intercepted").unwrap_or("(none)").as_bytes().to_vec())),
    );
    let invoker =
        unary(move |req, md| call(&transport, "/test.Meta/Echo", req, md).map(|(reply, _)| reply));
    let chain = chain_client(channel.interceptors(), "/test.Meta/Echo", invoker, wrap);
    assert_eq!(chain(b"", &Metadata::new()).unwrap(), b"client-yes");
    let (plain, _) = call(channel.transport(), "/test.Meta/Echo", b"", &Metadata::new()).unwrap();
    assert_eq!(plain, b"(none)");
}

#[test]
fn server_interceptor_short_circuits() {
    let mut server =
        serving("test.Guarded", "Guarded", unary(|_, _| panic!("must not reach handler")));
    server.add_interceptor(Rc::new(|_: &str, _: &[u8], _: &Metadata, _: &Unary| {
        Err(Status::new(Code::PermissionDenied, "blocked"))
    }));
    let err = call(&server, "/test.Guarded/Guarded", b"", &Metadata::new()).unwrap_err();
    assert_eq!(err, Status::new(Code::PermissionDenied, "blocked"));
}

#[test]
fn server_interceptor_can_short_circuit() {
    let refuse: Interceptor =
        Rc::new(|_: &str, _: &[u8], _: &Metadata, _: &Unary| {
            Err(Status::unauthenticated("not allowed"))
        });
    let handler = unary(|_, _| panic!("handler must not be called"));
    let chain = chain_server(&[refuse], "/test/nope", handler, wrap);
    let err = chain(b"", &Metadata::new()).unwrap_err();
    assert_eq!(err.code, Code::Unauthenticated);
}

#[test]
fn server_interceptor_can_modify_metadata() {
    let mut server = serving(
        "test",
        "md",
        unary(|_, md| Ok(md.get("x-intercepted").unwrap_or("no").as_bytes().to_vec())),
    );
    server.add_interceptor(Rc::new(|method: &str, req: &[u8], md: &Metadata, next: &Unary| {
        assert_eq!(method, "/test/md");
        let mut md = md.clone();
        md.insert("x-intercepted", "yes");
        next(req, &md)
    }));
    let (payload, _) = call(&server, "/test/md", b"payload", &Metadata::new()).unwrap();
    assert_eq!(payload, b"yes");
}

#[test]
fn channels_keep_what_they_are_given() {
    let channel: Channel<u32, &str> = Channel::new(7);
    assert_eq!(*channel.transport(), 7);
    assert!(channel.interceptors().is_empty());
    assert!(channel.retry_policy().is_none());
    let mut channel = channel.with_retry_policy(RetryPolicy::default_retry());
    channel.add_interceptor("outer");
    channel.add_interceptor("inner");
    assert_eq!(*channel.transport(), 7);
    assert_eq!(channel.interceptors(), ["outer", "inner"]);
    assert_eq!(channel.retry_policy().unwrap().max_attempts, 3);
}
