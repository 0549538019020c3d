//! The `grpc.testing.TestService`: its messages, its methods and the arguments
//! of the program that runs it.
//!
//! Messages are plain values here; how they are laid out on the wire is not
//! this module's matter.

use crate::server::{method_map, Handler, MethodDesc, Server, ServiceDesc};
use crate::status::{
    code_from_u32, code_number, code_of_number, lemma_code_of_number, status, Code, Status,
};
use crate::text::{has_prefix, numeral, parse_unsigned, same_text, starts_with};
use vstd::prelude::*;
use vstd::string::*;

verus! {

/// A block of data.
#[derive(Debug, PartialEq, Eq)]
pub struct Payload {
    /// 0 = compressable, 1 = uncompressable, 2 = random.
    pub kind: i32,
    pub body: Vec<u8>,
}

/// A status that the client wants echoed.
#[derive(Debug, PartialEq, Eq)]
pub struct EchoStatus {
    pub code: i32,
    pub message: String,
}

/// A unary request.
#[derive(Debug, PartialEq, Eq)]
pub struct SimpleRequest {
    /// The desired kind of the response payload.
    pub response_type: i32,
    /// The desired size of the response payload.
    pub response_size: i32,
    pub payload: Option<Payload>,
    /// The status to end the call with, if any.
    pub response_status: Option<EchoStatus>,
}

/// A unary response.
#[derive(Debug, PartialEq, Eq)]
pub struct SimpleResponse {
    pub payload: Option<Payload>,
}

/// A request of the client-streaming method.
#[derive(Debug, PartialEq, Eq)]
pub struct StreamingInputCallRequest {
    pub payload: Option<Payload>,
}

/// The response of the client-streaming method.
#[derive(Debug, PartialEq, Eq)]
pub struct StreamingInputCallResponse {
    pub aggregated_payload_size: i32,
}

/// What one response of a stream should be like.
#[derive(Debug, PartialEq, Eq)]
pub struct ResponseParameters {
    pub size: i32,
    pub interval_us: i32,
}

/// A request of the methods that stream responses.
#[derive(Debug, PartialEq, Eq)]
pub struct StreamingOutputCallRequest {
    pub response_type: i32,
    pub response_parameters: Vec<ResponseParameters>,
    pub payload: Option<Payload>,
}

/// A response of the methods that stream responses.
#[derive(Debug, PartialEq, Eq)]
pub struct StreamingOutputCallResponse {
    pub payload: Option<Payload>,
}

/// Whether a payload is `size` zeros of the given kind.
pub open spec fn is_zeros(p: Option<Payload>, kind: i32, size: int) -> bool {
    &&& p is Some
    &&& p->0.kind == kind
    &&& p->0.body@ == Seq::new(size as nat, |i: int| 0u8)
}

/// The size of a payload; none counts as empty.
pub open spec fn size_of_payload(p: Option<Payload>) -> nat {
    match p {
        Some(p) => p.body@.len(),
        None => 0,
    }
}

/// The size of a payload; none counts as empty.
pub fn payload_size(p: &Option<Payload>) -> (n: usize)
    ensures
        n == size_of_payload(*p),
{
    match p {
        Some(p) => p.body.len(),
        None => 0,
    }
}

/// A payload of `size` zeros.
pub fn zeros(kind: i32, size: i32) -> (p: Option<Payload>)
    requires
        size >= 0,
    ensures
        is_zeros(p, kind, size as int),
{
    let body: Vec<u8> = vec![0u8; size as usize];
    assert(body@ =~= Seq::new(size as nat, |i: int| 0u8));
    Some(Payload { kind, body })
}

/// `UnaryCall`: answers with a payload of the desired kind and size.
pub fn unary_call(req: &SimpleRequest) -> (resp: SimpleResponse)
    requires
        req.response_size >= 0,
    ensures
        is_zeros(resp.payload, req.response_type, req.response_size as int),
{
    SimpleResponse { payload: zeros(req.response_type, req.response_size) }
}

/// The status that a request wants echoed, if it wants one that is not a success.
pub open spec fn echoed(req: SimpleRequest) -> Option<EchoStatus> {
    match req.response_status {
        Some(es) => if es.code != 0 {
            Some(es)
        } else {
            None
        },
        None => None,
    }
}

/// The code that the number of an echoed status stands for; `Unknown` if it
/// stands for none.
pub open spec fn echoed_code(n: i32) -> Code {
    if 0 <= n <= 16 {
        code_of_number(n as u32)->0
    } else {
        Code::Unknown
    }
}

/// `UnaryCall` with status echo: ends with the status that the request wants
/// echoed, or answers like [`unary_call`].
pub fn echo_unary_call(req: &SimpleRequest) -> (r: Result<SimpleResponse, Status>)
    requires
        echoed(*req) is None ==> req.response_size >= 0,
    ensures
        match echoed(*req) {
            Some(es) => r matches Err(e) && e@ == status(echoed_code(es.code), es.message@),
            None => r matches Ok(resp) && is_zeros(
                resp.payload,
                req.response_type,
                req.response_size as int,
            ),
        },
{
    if let Some(es) = &req.response_status {
        if es.code != 0 {
            let code = if es.code < 0 {
                Code::Unknown
            } else {
                match code_from_u32(es.code as u32) {
                    Ok(c) => c,
                    Err(_) => Code::Unknown,
                }
            };
            return Err(Status::new(code, es.message.as_str()));
        }
    }
    Ok(unary_call(req))
}

/// The streaming methods of the service.
#[derive(Debug, Clone, Copy, PartialEq, Eq, Structural)]
pub enum StreamingMethod {
    /// Adds up the sizes of the request payloads.
    Input,
    /// Answers one request with a stream of responses.
    Output,
    /// Answers every request with a stream of responses.
    Duplex,
}

/// How far a streaming call has come on the server.
#[derive(Debug, Clone, Copy, PartialEq, Eq, Structural)]
pub enum Phase {
    /// A request is awaited.
    Receiving,
    /// The response headers are being sent.
    Opening,
    /// A response is being sent.
    Sending,
    /// The trailers are being sent.
    Ending,
}

/// A request of a streaming call, as far as it could be read.
#[derive(Debug)]
pub enum Incoming {
    Input(StreamingInputCallRequest),
    Output(StreamingOutputCallRequest),
    /// A message that is no request.
    Unreadable,
    /// No more requests, or the stream broke.
    End,
}

/// What happened to a streaming call.
#[derive(Debug)]
pub enum TestEvent {
    Received(Incoming),
    HeadersSent,
    /// A response was sent, or could not be.
    Sent(bool),
}

/// What is to be done next for a streaming call.
#[derive(Debug)]
pub enum TestAction {
    Receive,
    SendHeaders,
    SendTotal(StreamingInputCallResponse),
    SendOutput(StreamingOutputCallResponse),
    /// Send trailers with the status `OK`.
    SendTrailers,
}

/// A streaming call on the server.
#[derive(Debug)]
pub struct StreamingTest {
    method: StreamingMethod,
    phase: Phase,
    total: i32,
    kind: i32,
    sizes: Vec<i32>,
    sent: usize,
}

/// A streaming call, by view: what was added up, and the responses that are
/// still to be sent.
#[verifier::ext_equal]
pub struct TestView {
    pub method: StreamingMethod,
    pub phase: Phase,
    pub total: int,
    pub kind: i32,
    pub due: Seq<i32>,
}

impl View for StreamingTest {
    type V = TestView;

    closed spec fn view(&self) -> TestView {
        TestView {
            method: self.method,
            phase: self.phase,
            total: self.total as int,
            kind: self.kind,
            due: self.sizes@.skip(self.sent as int),
        }
    }
}

/// What is to be done next, by view.
pub enum TestActionView {
    Receive,
    SendHeaders,
    SendTotal(int),
    SendOutput(i32, int),
    SendTrailers,
}

/// Whether an action is the one that the view gives.
pub open spec fn is_action(a: TestAction, v: TestActionView) -> bool {
    match v {
        TestActionView::Receive => a is Receive,
        TestActionView::SendHeaders => a is SendHeaders,
        TestActionView::SendTotal(n) => a matches TestAction::SendTotal(r)
            && r.aggregated_payload_size == n,
        TestActionView::SendOutput(kind, size) => a matches TestAction::SendOutput(r) && is_zeros(
            r.payload,
            kind,
            size,
        ),
        TestActionView::SendTrailers => a is SendTrailers,
    }
}

/// The sizes that a request asks for, in order.
pub open spec fn sizes_of(params: Seq<ResponseParameters>) -> Seq<i32> {
    params.map_values(|p: ResponseParameters| p.size)
}

/// Whether an event can be handed in: sizes are not negative, and sums fit.
pub open spec fn test_expects(t: TestView, e: TestEvent) -> bool {
    &&& match t.phase {
        Phase::Receiving => e is Received,
        Phase::Opening => e is HeadersSent,
        Phase::Sending => e is Sent,
        Phase::Ending => false,
    }
    &&& e matches TestEvent::Received(Incoming::Input(req)) ==> t.total + size_of_payload(
        req.payload,
    ) <= i32::MAX
    &&& e matches TestEvent::Received(Incoming::Output(req)) ==> forall|i: int|
        0 <= i < req.response_parameters@.len() ==> #[trigger] sizes_of(
            req.response_parameters@,
        )[i] >= 0
}

/// A call that sends the next response that is due, or goes on when none is: the
/// server-streaming method ends, the bidirectional one awaits a request.
pub open spec fn send_due(t: TestView) -> (TestView, TestActionView) {
    if t.due.len() > 0 {
        (
            TestView { phase: Phase::Sending, due: t.due.skip(1), ..t },
            TestActionView::SendOutput(t.kind, t.due[0] as int),
        )
    } else if t.method == StreamingMethod::Duplex {
        (TestView { phase: Phase::Receiving, ..t }, TestActionView::Receive)
    } else {
        (TestView { phase: Phase::Ending, ..t }, TestActionView::SendTrailers)
    }
}

/// A call after an event, and what is to be done next.
pub open spec fn test_next(t: TestView, e: TestEvent) -> (TestView, TestActionView) {
    match e {
        TestEvent::Received(incoming) => match t.method {
            StreamingMethod::Input => match incoming {
                Incoming::End => (
                    TestView { phase: Phase::Opening, ..t },
                    TestActionView::SendHeaders,
                ),
                Incoming::Input(req) => (
                    TestView { total: t.total + size_of_payload(req.payload), ..t },
                    TestActionView::Receive,
                ),
                _ => (t, TestActionView::Receive),
            },
            StreamingMethod::Output => (
                match incoming {
                    Incoming::Output(req) => TestView {
                        phase: Phase::Opening,
                        kind: req.response_type,
                        due: sizes_of(req.response_parameters@),
                        ..t
                    },
                    _ => TestView { phase: Phase::Opening, ..t },
                },
                TestActionView::SendHeaders,
            ),
            StreamingMethod::Duplex => match incoming {
                Incoming::End => (
                    TestView { phase: Phase::Ending, ..t },
                    TestActionView::SendTrailers,
                ),
                Incoming::Output(req) => send_due(
                    TestView {
                        kind: req.response_type,
                        due: sizes_of(req.response_parameters@),
                        ..t
                    },
                ),
                _ => (t, TestActionView::Receive),
            },
        },
        TestEvent::HeadersSent => match t.method {
            StreamingMethod::Input => (
                TestView { phase: Phase::Sending, ..t },
                TestActionView::SendTotal(t.total),
            ),
            _ => send_due(t),
        },
        TestEvent::Sent(ok) => match t.method {
            StreamingMethod::Input => (
                TestView { phase: Phase::Ending, ..t },
                TestActionView::SendTrailers,
            ),
            _ => if ok {
                send_due(t)
            } else {
                send_due(TestView { due: seq![], ..t })
            },
        },
    }
}

/// Whether a call is one that the server can have: its sum is not negative, nor
/// is any size that is due.
pub open spec fn test_inv(t: TestView) -> bool {
    &&& 0 <= t.total <= i32::MAX
    &&& forall|i: int| 0 <= i < t.due.len() ==> #[trigger] t.due[i] >= 0
}

impl StreamingTest {
    /// Whether this is a call that the server can have.
    pub closed spec fn inv(&self) -> bool {
        self.sent <= self.sizes@.len() && test_inv(self@)
    }

    /// A call of the given method, and what is to be done first: the
    /// bidirectional method sends the response headers at once.
    pub fn start(method: StreamingMethod) -> (r: (Self, TestAction))
        ensures
            r.0.inv(),
            r.0@ == (TestView {
                method,
                phase: if method == StreamingMethod::Duplex {
                    Phase::Opening
                } else {
                    Phase::Receiving
                },
                total: 0,
                kind: 0,
                due: seq![],
            }),
            is_action(
                r.1,
                if method == StreamingMethod::Duplex {
                    TestActionView::SendHeaders
                } else {
                    TestActionView::Receive
                },
            ),
    {
        let duplex = match method {
            StreamingMethod::Duplex => true,
            _ => false,
        };
        let t = StreamingTest {
            method,
            phase: if duplex {
                Phase::Opening
            } else {
                Phase::Receiving
            },
            total: 0,
            kind: 0,
            sizes: Vec::new(),
            sent: 0,
        };
        assert(t@.due =~= seq![]);
        (
            t,
            if duplex {
                TestAction::SendHeaders
            } else {
                TestAction::Receive
            },
        )
    }

    /// Takes note of the responses that a request asks for.
    fn queue(&mut self, req: &StreamingOutputCallRequest)
        requires
            old(self).inv(),
            forall|i: int|
                0 <= i < req.response_parameters@.len() ==> #[trigger] sizes_of(
                    req.response_parameters@,
                )[i] >= 0,
        ensures
            final(self).inv(),
            final(self)@ == (TestView {
                kind: req.response_type,
                due: sizes_of(req.response_parameters@),
                ..old(self)@
            }),
    {
        let mut sizes: Vec<i32> = Vec::new();
        let params = &req.response_parameters;
        let ghost all = sizes_of(params@);
        for i in 0..params.len()
            invariant
                all == sizes_of(params@),
                sizes@ == all.take(i as int),
        {
            sizes.push(params[i].size);
            assert(all.take(i + 1) =~= all.take(i as int).push(all[i as int]));
        }
        assert(all.take(all.len() as int) =~= all);
        self.kind = req.response_type;
        self.sizes = sizes;
        self.sent = 0;
        assert(self@.due =~= all);
    }

    /// Sends the next response that is due, or goes on when none is.
    fn next_due(&mut self) -> (a: TestAction)
        requires
            old(self).inv(),
        ensures
            final(self).inv(),
            final(self)@ == send_due(old(self)@).0,
            is_action(a, send_due(old(self)@).1),
    {
        if self.sent < self.sizes.len() {
            let size: i32 = self.sizes[self.sent];
            assert(self@.due[0] == size);
            self.sent = self.sent + 1;
            self.phase = Phase::Sending;
            assert(self@.due =~= old(self)@.due.skip(1));
            TestAction::SendOutput(StreamingOutputCallResponse { payload: zeros(self.kind, size) })
        } else {
            match self.method {
                StreamingMethod::Duplex => {
                    self.phase = Phase::Receiving;
                    TestAction::Receive
                },
                _ => {
                    self.phase = Phase::Ending;
                    TestAction::SendTrailers
                },
            }
        }
    }

    /// Moves on to another phase.
    fn enter(&mut self, phase: Phase)
        requires
            old(self).inv(),
        ensures
            final(self).inv(),
            final(self)@ == (TestView { phase, ..old(self)@ }),
    {
        self.phase = phase;
    }

    /// Adds to the sum.
    fn count(&mut self, n: usize)
        requires
            old(self).inv(),
            old(self)@.total + n <= i32::MAX,
        ensures
            final(self).inv(),
            final(self)@ == (TestView { total: old(self)@.total + n, ..old(self)@ }),
    {
        self.total = self.total + n as i32;
    }

    /// Takes a request of the call into account.
    fn receive(&mut self, incoming: Incoming) -> (a: TestAction)
        requires
            old(self).inv(),
            test_expects(old(self)@, TestEvent::Received(incoming)),
        ensures
            final(self).inv(),
            final(self)@ == test_next(old(self)@, TestEvent::Received(incoming)).0,
            is_action(a, test_next(old(self)@, TestEvent::Received(incoming)).1),
    {
        match self.method {
            StreamingMethod::Input => {
                match incoming {
                    Incoming::End => {
                        self.enter(Phase::Opening);
                        return TestAction::SendHeaders;
                    },
                    Incoming::Input(req) => {
                        self.count(payload_size(&req.payload));
                    },
                    _ => {},
                }
                TestAction::Receive
            },
            StreamingMethod::Output => {
                if let Incoming::Output(req) = incoming {
                    self.queue(&req);
                }
                self.enter(Phase::Opening);
                TestAction::SendHeaders
            },
            StreamingMethod::Duplex => match incoming {
                Incoming::End => {
                    self.enter(Phase::Ending);
                    TestAction::SendTrailers
                },
                Incoming::Output(req) => {
                    self.queue(&req);
                    self.next_due()
                },
                _ => TestAction::Receive,
            },
        }
    }

    /// Decides what follows an event.
    pub fn step(&mut self, event: TestEvent) -> (a: TestAction)
        requires
            old(self).inv(),
            test_expects(old(self)@, event),
        ensures
            final(self).inv(),
            final(self)@ == test_next(old(self)@, event).0,
            is_action(a, test_next(old(self)@, event).1),
    {
        match event {
            TestEvent::Received(incoming) => self.receive(incoming),
            TestEvent::HeadersSent => match self.method {
                StreamingMethod::Input => {
                    self.enter(Phase::Sending);
                    TestAction::SendTotal(
                        StreamingInputCallResponse { aggregated_payload_size: self.total },
                    )
                },
                _ => self.next_due(),
            },
            TestEvent::Sent(ok) => match self.method {
                StreamingMethod::Input => {
                    self.enter(Phase::Ending);
                    TestAction::SendTrailers
                },
                _ => {
                    if !ok {
                        self.sent = self.sizes.len();
                        assert(self@.due =~= seq![]);
                    }
                    self.next_due()
                },
            },
        }
    }
}

/// The payload sizes of requests, added up.
pub open spec fn sum_of_sizes(requests: Seq<StreamingInputCallRequest>) -> nat
    decreases requests.len(),
{
    if requests.len() == 0 {
        0
    } else {
        sum_of_sizes(requests.drop_last()) + size_of_payload(requests.last().payload)
    }
}

/// A call after requests were received, one after another.
pub open spec fn after_inputs(t: TestView, requests: Seq<StreamingInputCallRequest>) -> TestView
    decreases requests.len(),
{
    if requests.len() == 0 {
        t
    } else {
        test_next(
            after_inputs(t, requests.drop_last()),
            TestEvent::Received(Incoming::Input(requests.last())),
        ).0
    }
}

/// The client-streaming method answers with the sum of the payload sizes: after
/// any requests, and the end of them, the sum of all their sizes is what is sent.
pub proof fn law_input_sum(t: TestView, requests: Seq<StreamingInputCallRequest>)
    requires
        t.method == StreamingMethod::Input,
        t.total == 0,
    ensures
        ({
            let received = after_inputs(t, requests);
            let (opening, headers) = test_next(received, TestEvent::Received(Incoming::End));
            &&& headers == TestActionView::SendHeaders
            &&& test_next(opening, TestEvent::HeadersSent).1 == TestActionView::SendTotal(
                sum_of_sizes(requests) as int,
            )
        }),
{
    lemma_after_inputs(t, requests);
}

/// Every request adds its size to the sum, and changes nothing else.
proof fn lemma_after_inputs(t: TestView, requests: Seq<StreamingInputCallRequest>)
    requires
        t.method == StreamingMethod::Input,
    ensures
        after_inputs(t, requests) == (TestView {
            total: t.total + sum_of_sizes(requests),
            ..t
        }),
    decreases requests.len(),
{
    if requests.len() > 0 {
        lemma_after_inputs(t, requests.drop_last());
    }
}

/// The sizes of the responses that are sent, when all that are due are sent
/// without a failure.
pub open spec fn sizes_sent(t: TestView) -> Seq<i32>
    decreases t.due.len(),
{
    if t.due.len() == 0 {
        seq![]
    } else {
        seq![t.due[0]] + sizes_sent(send_due(t).0)
    }
}

/// A stream of responses has the sizes that were asked for, in order.
pub proof fn law_outputs_in_order(t: TestView)
    ensures
        sizes_sent(t) == t.due,
    decreases t.due.len(),
{
    if t.due.len() > 0 {
        law_outputs_in_order(send_due(t).0);
        assert(seq![t.due[0]] + t.due.skip(1) =~= t.due);
    } else {
        assert(sizes_sent(t) =~= t.due);
    }
}

/// The methods of the test service, by name.
pub open spec fn test_methods<U, S>(empty: U, unary: Handler<U, S>, input: S, output: S, duplex: S)
    -> Map<Seq<char>, Handler<U, S>> {
    Map::empty().insert("EmptyCall"@, Handler::Unary(empty)).insert("UnaryCall"@, unary).insert(
        "StreamingInputCall"@,
        Handler::Streaming(input),
    ).insert("StreamingOutputCall"@, Handler::Streaming(output)).insert(
        "FullDuplexCall"@,
        Handler::Streaming(duplex),
    )
}

/// A server that offers the test service with the given handlers.
pub fn make_server<U, S, I>(
    empty: U,
    unary: Handler<U, S>,
    input: S,
    output: S,
    duplex: S,
) -> (server: Server<U, S, I>)
    ensures
        server.services() == Map::<Seq<char>, Map<Seq<char>, Handler<U, S>>>::empty().insert(
            "grpc.testing.TestService"@,
            test_methods(empty, unary, input, output, duplex),
        ),
        server.chain() == Seq::<I>::empty(),
{
    let mut server = Server::new();
    let mut methods: Vec<MethodDesc<U, S>> = Vec::new();
    let ghost m0 = methods@;
    methods.push(MethodDesc { name: "EmptyCall", handler: Handler::Unary(empty) });
    let ghost m1 = methods@;
    methods.push(MethodDesc { name: "UnaryCall", handler: unary });
    let ghost m2 = methods@;
    methods.push(MethodDesc { name: "StreamingInputCall", handler: Handler::Streaming(input) });
    let ghost m3 = methods@;
    methods.push(MethodDesc { name: "StreamingOutputCall", handler: Handler::Streaming(output) });
    let ghost m4 = methods@;
    methods.push(MethodDesc { name: "FullDuplexCall", handler: Handler::Streaming(duplex) });
    proof {
        assert(m1.drop_last() =~= m0);
        assert(m2.drop_last() =~= m1);
        assert(m3.drop_last() =~= m2);
        assert(m4.drop_last() =~= m3);
        assert(methods@.drop_last() =~= m4);
        assert(method_map(m1) == method_map(m0).insert("EmptyCall"@, Handler::Unary(empty)));
        assert(method_map(m2) == method_map(m1).insert("UnaryCall"@, unary));
        assert(method_map(m3) == method_map(m2).insert(
            "StreamingInputCall"@,
            Handler::Streaming(input),
        ));
        assert(method_map(m4) == method_map(m3).insert(
            "StreamingOutputCall"@,
            Handler::Streaming(output),
        ));
    }
    server.add_service(ServiceDesc { name: "grpc.testing.TestService", methods });
    server
}

/// The arguments of the test program.
#[derive(Debug, PartialEq, Eq)]
pub struct Args {
    /// `"client"` or `"server"`.
    pub mode: String,
    pub server_host: String,
    pub server_port: u16,
    pub port: u16,
    pub test_case: String,
}

/// The arguments, by view.
#[verifier::ext_equal]
pub struct ArgsView {
    pub mode: Seq<char>,
    pub server_host: Seq<char>,
    pub server_port: u16,
    pub port: u16,
    pub test_case: Seq<char>,
}

impl View for Args {
    type V = ArgsView;

    open spec fn view(&self) -> ArgsView {
        ArgsView {
            mode: self.mode@,
            server_host: self.server_host@,
            server_port: self.server_port,
            port: self.port,
            test_case: self.test_case@,
        }
    }
}

/// Why the arguments cannot be used.
#[derive(Debug, Clone, Copy, PartialEq, Eq, Structural)]
pub enum ArgsError {
    InvalidServerPort,
    InvalidPort,
}

/// The arguments that hold where none is given.
pub open spec fn default_args() -> ArgsView {
    ArgsView {
        mode: "client"@,
        server_host: "localhost"@,
        server_port: 10000,
        port: 10000,
        test_case: "empty_unary"@,
    }
}

/// The arguments after one more argument. One that is not known changes nothing.
pub open spec fn with_arg(a: ArgsView, arg: Seq<char>) -> Result<ArgsView, ArgsError> {
    if has_prefix(arg, "--mode="@) {
        Ok(ArgsView { mode: arg.skip("--mode="@.len() as int), ..a })
    } else if has_prefix(arg, "--server_host="@) {
        Ok(ArgsView { server_host: arg.skip("--server_host="@.len() as int), ..a })
    } else if has_prefix(arg, "--server_port="@) {
        match numeral(arg.skip("--server_port="@.len() as int), 65535) {
            Some(n) => Ok(ArgsView { server_port: n as u16, ..a }),
            None => Err(ArgsError::InvalidServerPort),
        }
    } else if has_prefix(arg, "--port="@) {
        match numeral(arg.skip("--port="@.len() as int), 65535) {
            Some(n) => Ok(ArgsView { port: n as u16, ..a }),
            None => Err(ArgsError::InvalidPort),
        }
    } else if has_prefix(arg, "--test_case="@) {
        Ok(ArgsView { test_case: arg.skip("--test_case="@.len() as int), ..a })
    } else {
        Ok(a)
    }
}

/// The arguments that a command line gives: later ones count, and the first that
/// cannot be used is reported.
pub open spec fn args_of(line: Seq<Seq<char>>) -> Result<ArgsView, ArgsError>
    decreases line.len(),
{
    if line.len() == 0 {
        Ok(default_args())
    } else {
        match args_of(line.drop_last()) {
            Ok(a) => with_arg(a, line.last()),
            Err(e) => Err(e),
        }
    }
}

/// What follows a prefix that `arg` has, if it has it.
fn after_prefix<'a>(arg: &'a str, prefix: &str) -> (r: Option<&'a str>)
    ensures
        r is Some <==> has_prefix(arg@, prefix@),
        r matches Some(v) ==> v@ == arg@.skip(prefix@.len() as int),
{
    if starts_with(arg, prefix) {
        let rest = arg.substring_char(prefix.unicode_len(), arg.unicode_len());
        assert(rest@ =~= arg@.skip(prefix@.len() as int));
        Some(rest)
    } else {
        None
    }
}

/// Parses a port number.
fn parse_port(s: &str) -> (r: Option<u16>)
    ensures
        match numeral(s@, 65535) {
            Some(n) => r == Some(n as u16),
            None => r is None,
        },
{
    match parse_unsigned(s, 65535) {
        Some(n) => Some(n as u16),
        None => None,
    }
}

/// Takes one more argument into account.
fn apply_arg(args: &mut Args, arg: &str) -> (r: Result<(), ArgsError>)
    ensures
        match with_arg(old(args)@, arg@) {
            Ok(a) => r is Ok && final(args)@ == a,
            Err(e) => r == Err::<(), ArgsError>(e),
        },
{
    if let Some(v) = after_prefix(arg, "--mode=") {
        args.mode = v.to_owned();
    } else if let Some(v) = after_prefix(arg, "--server_host=") {
        args.server_host = v.to_owned();
    } else if let Some(v) = after_prefix(arg, "--server_port=") {
        match parse_port(v) {
            Some(n) => {
                args.server_port = n;
            },
            None => return Err(ArgsError::InvalidServerPort),
        }
    } else if let Some(v) = after_prefix(arg, "--port=") {
        match parse_port(v) {
            Some(n) => {
                args.port = n;
            },
            None => return Err(ArgsError::InvalidPort),
        }
    } else if let Some(v) = after_prefix(arg, "--test_case=") {
        args.test_case = v.to_owned();
    }
    Ok(())
}

/// The texts of a command line.
pub open spec fn line_view(line: Seq<String>) -> Seq<Seq<char>> {
    line.map_values(|s: String| s@)
}

/// Parses a command line, the program's name left out.
pub fn parse_args(line: &[String]) -> (r: Result<Args, ArgsError>)
    ensures
        match args_of(line_view(line@)) {
            Ok(a) => r matches Ok(args) && args@ == a,
            Err(e) => r == Err::<Args, ArgsError>(e),
        },
{
    let mut args = Args {
        mode: "client".to_owned(),
        server_host: "localhost".to_owned(),
        server_port: 10000,
        port: 10000,
        test_case: "empty_unary".to_owned(),
    };
    let ghost all = line_view(line@);
    assert(all.take(0) =~= seq![]);
    for i in 0..line.len()
        invariant
            all == line_view(line@),
            args_of(all.take(i as int)) == Ok::<ArgsView, ArgsError>(args@),
    {
        proof {
            assert(all.take(i + 1).drop_last() =~= all.take(i as int));
            assert(all[i as int] == line@[i as int]@);
        }
        if let Err(e) = apply_arg(&mut args, line[i].as_str()) {
            proof {
                lemma_args_error(all, i + 1, e);
            }
            return Err(e);
        }
    }
    assert(all.take(all.len() as int) =~= all);
    Ok(args)
}

/// An argument that cannot be used is reported whatever follows it.
proof fn lemma_args_error(line: Seq<Seq<char>>, n: int, e: ArgsError)
    requires
        0 <= n <= line.len(),
        args_of(line.take(n)) == Err::<ArgsView, ArgsError>(e),
    ensures
        args_of(line) == Err::<ArgsView, ArgsError>(e),
    decreases line.len() - n,
{
    if n == line.len() {
        assert(line.take(n) =~= line);
    } else {
        assert(line.take(n + 1).drop_last() =~= line.take(n));
        lemma_args_error(line, n + 1, e);
    }
}

/// The cases that the client can be asked to run.
#[derive(Debug, Clone, Copy, PartialEq, Eq, Structural)]
pub enum TestCase {
    EmptyUnary,
    LargeUnary,
    ClientStreaming,
    ServerStreaming,
    PingPong,
    EmptyStream,
}

/// The cases that a name stands for: one, or all of them in order.
pub open spec fn cases_of(name: Seq<char>) -> Option<Seq<TestCase>> {
    if name == "empty_unary"@ {
        Some(seq![TestCase::EmptyUnary])
    } else if name == "large_unary"@ {
        Some(seq![TestCase::LargeUnary])
    } else if name == "client_streaming"@ {
        Some(seq![TestCase::ClientStreaming])
    } else if name == "server_streaming"@ {
        Some(seq![TestCase::ServerStreaming])
    } else if name == "ping_pong"@ {
        Some(seq![TestCase::PingPong])
    } else if name == "empty_stream"@ {
        Some(seq![TestCase::EmptyStream])
    } else if name == "all"@ {
        Some(
            seq![
                TestCase::EmptyUnary,
                TestCase::LargeUnary,
                TestCase::ClientStreaming,
                TestCase::ServerStreaming,
                TestCase::PingPong,
                TestCase::EmptyStream,
            ],
        )
    } else {
        None
    }
}

/// The cases that a name stands for, if it is known.
pub fn select_cases(name: &str) -> (r: Option<Vec<TestCase>>)
    ensures
        match cases_of(name@) {
            Some(cases) => r is Some && r->0@ == cases,
            None => r is None,
        },
{
    if same_text(name, "empty_unary") {
        Some(vec![TestCase::EmptyUnary])
    } else if same_text(name, "large_unary") {
        Some(vec![TestCase::LargeUnary])
    } else if same_text(name, "client_streaming") {
        Some(vec![TestCase::ClientStreaming])
    } else if same_text(name, "server_streaming") {
        Some(vec![TestCase::ServerStreaming])
    } else if same_text(name, "ping_pong") {
        Some(vec![TestCase::PingPong])
    } else if same_text(name, "empty_stream") {
        Some(vec![TestCase::EmptyStream])
    } else if same_text(name, "all") {
        Some(
            vec![
                TestCase::EmptyUnary,
                TestCase::LargeUnary,
                TestCase::ClientStreaming,
                TestCase::ServerStreaming,
                TestCase::PingPong,
                TestCase::EmptyStream,
            ],
        )
    } else {
        None
    }
}

/// `UnaryCall` answers with as many zeros as the request asks for, of the kind that it asks
/// for, unless the request wants a status other than success echoed: then it fails with
/// just that message, and the code of that number, or `Unknown` if no code has it.
pub proof fn law_unary_calls_answer_what_was_asked(
    req: &SimpleRequest,
    resp: SimpleResponse,
    r: Result<SimpleResponse, Status>,
)
    requires
        call_ensures(unary_call, (req,), resp),
        call_ensures(echo_unary_call, (req,), r),
        req.response_size >= 0,
    ensures
        resp.payload matches Some(p) && p.kind == req.response_type && p.body@.len()
            == req.response_size && forall|i: int|
            0 <= i < p.body@.len() ==> #[trigger] p.body@[i] == 0,
        ({
            let wanted = req.response_status matches Some(es) && es.code != 0;
            &&& wanted ==> (req.response_status matches Some(es) ==> (r matches Err(e)
                && e.message@ == es.message@ && (0 < es.code <= 16 ==> code_number(e.code)
                == es.code) && (es.code < 0 || es.code > 16 ==> e.code == Code::Unknown)))
            &&& !wanted ==> (r matches Ok(a) && (a.payload matches Some(p) && p.kind
                == req.response_type && p.body@.len() == req.response_size && forall|i: int|
                0 <= i < p.body@.len() ==> #[trigger] p.body@[i] == 0))
        }),
{
    if let Some(es) = req.response_status {
        if 0 <= es.code <= 16 {
            lemma_code_of_number(es.code as u32);
        }
    }
}

/// A payload of zeros has the size and the kind that were asked for; the size of a payload
/// is the number of its bytes, and none at all has none.
pub proof fn law_payload_sizes(
    kind: i32,
    size: i32,
    p: Option<Payload>,
    q: &Option<Payload>,
    n: usize,
)
    requires
        call_ensures(zeros, (kind, size), p),
        size >= 0,
        call_ensures(payload_size, (q,), n),
    ensures
        p matches Some(z) && z.kind == kind && z.body@.len() == size && forall|i: int|
            0 <= i < z.body@.len() ==> #[trigger] z.body@[i] == 0,
        *q matches Some(z) ==> n == z.body@.len(),
        *q is None ==> n == 0,
{
}

/// The client-streaming method adds the size of every request payload to its sum and waits
/// for the next request; what cannot be read changes nothing. Once there are no more, it
/// sends the headers, then the sum, then the trailers.
pub proof fn law_client_streaming_adds_up(e: TestEvent, a: TestAction)
    ensures
        forall|t: &mut StreamingTest| #[trigger]
            call_ensures(StreamingTest::step, (t, e), a) && (*t)@.method == StreamingMethod::Input
                ==> {
                let before = (*t)@;
                let after = (*final(t))@;
                &&& e matches TestEvent::Received(Incoming::Input(req)) ==> {
                    &&& a is Receive && after.phase == before.phase
                    &&& req.payload matches Some(p) ==> after.total == before.total + p.body@.len()
                    &&& req.payload is None ==> after.total == before.total
                }
                &&& e matches TestEvent::Received(Incoming::Unreadable) ==> a is Receive && after
                    == before
                &&& e matches TestEvent::Received(Incoming::Output(_)) ==> a is Receive && after
                    == before
                &&& e matches TestEvent::Received(Incoming::End) ==> a is SendHeaders && after.phase
                    == Phase::Opening && after.total == before.total
                &&& e matches TestEvent::HeadersSent ==> after.phase == Phase::Sending && (a matches
                    TestAction::SendTotal(r) && r.aggregated_payload_size == before.total)
                &&& e matches TestEvent::Sent(_) ==> a is SendTrailers && after.phase
                    == Phase::Ending
            },
{
}

/// The methods that stream responses send one response for every size that a request asks
/// for, in order and of the kind that it asks for, one after another, as long as sending
/// succeeds. Then the server-streaming method ends, and the bidirectional one awaits the
/// next request, and ends when there is none.
pub proof fn law_responses_are_streamed(e: TestEvent, a: TestAction)
    ensures
        forall|t: &mut StreamingTest| #[trigger]
            call_ensures(StreamingTest::step, (t, e), a) && (*t)@.method != StreamingMethod::Input
                ==> {
                let before = (*t)@;
                let after = (*final(t))@;
                let duplex = before.method == StreamingMethod::Duplex;
                let idle = if duplex {
                    a is Receive && after.phase == Phase::Receiving
                } else {
                    a is SendTrailers && after.phase == Phase::Ending
                };
                &&& after.method == before.method
                &&& e matches TestEvent::Received(Incoming::Output(req)) ==> {
                    let asked = req.response_parameters@;
                    &&& !duplex ==> a is SendHeaders && after.phase == Phase::Opening && after.kind
                        == req.response_type && after.due.len() == asked.len() && forall|i: int|
                        0 <= i < asked.len() ==> #[trigger] after.due[i] == asked[i].size
                    &&& duplex && asked.len() == 0 ==> idle
                    &&& duplex && asked.len() > 0 && asked[0].size >= 0 ==> {
                        &&& is_zeros_of(a, req.response_type, asked[0].size as int)
                        &&& after.phase == Phase::Sending && after.kind == req.response_type
                        &&& after.due.len() == asked.len() - 1
                        &&& forall|i: int|
                            0 <= i < after.due.len() ==> #[trigger] after.due[i] == asked[i
                                + 1].size
                    }
                }
                &&& e matches TestEvent::Received(Incoming::End) ==> if duplex {
                    a is SendTrailers && after.phase == Phase::Ending
                } else {
                    a is SendHeaders && after.phase == Phase::Opening && after.due == before.due
                }
                &&& e matches TestEvent::Received(Incoming::Unreadable) ==> if duplex {
                    a is Receive && after == before
                } else {
                    a is SendHeaders && after.phase == Phase::Opening && after.due == before.due
                }
                &&& e matches TestEvent::Received(Incoming::Input(_)) ==> if duplex {
                    a is Receive && after == before
                } else {
                    a is SendHeaders && after.phase == Phase::Opening && after.due == before.due
                }
                &&& e is HeadersSent || e == TestEvent::Sent(true) ==> {
                    &&& before.due.len() == 0 ==> idle
                    &&& before.due.len() > 0 && before.due[0] >= 0 ==> {
                        &&& is_zeros_of(a, before.kind, before.due[0] as int)
                        &&& after.phase == Phase::Sending && after.kind == before.kind
                        &&& after.due == before.due.skip(1)
                    }
                }
                &&& e matches TestEvent::Sent(false) ==> idle
            },
{
    if let TestEvent::Received(Incoming::Output(req)) = e {
        let asked = req.response_parameters@;
        let sizes = sizes_of(asked);
        assert forall|i: int| 0 <= i < asked.len() implies #[trigger] sizes[i] == asked[i].size by {
        }
        if asked.len() > 0 {
            assert forall|i: int| 0 <= i < asked.len() - 1 implies #[trigger] sizes.skip(1)[i]
                == asked[i + 1].size by {}
        }
    }
}

/// Whether an action sends a response of so many zeros of the given kind.
pub open spec fn is_zeros_of(a: TestAction, kind: i32, size: int) -> bool {
    a matches TestAction::SendOutput(r) && (r.payload matches Some(p) && p.kind == kind
        && p.body@.len() == size && forall|i: int|
        0 <= i < p.body@.len() ==> #[trigger] p.body@[i] == 0)
}

/// The bidirectional method sends its headers at once, the other two await a request
/// first; none has anything to send yet.
pub proof fn law_streaming_calls_start(method: StreamingMethod, r: (StreamingTest, TestAction))
    requires
        call_ensures(StreamingTest::start, (method,), r),
    ensures
        r.0@.method == method,
        r.0@.total == 0,
        r.0@.due.len() == 0,
        method == StreamingMethod::Duplex ==> r.1 is SendHeaders && r.0@.phase == Phase::Opening,
        method != StreamingMethod::Duplex ==> r.1 is Receive && r.0@.phase == Phase::Receiving,
{
}

/// The test server offers the five methods of the test service, each with the handler that
/// was given for it, and nothing else.
pub proof fn law_the_test_service_is_offered<U, S, I>(
    empty: U,
    unary: Handler<U, S>,
    input: S,
    output: S,
    duplex: S,
    server: Server<U, S, I>,
    name: Seq<char>,
)
    requires
        call_ensures(make_server::<U, S, I>, (empty, unary, input, output, duplex), server),
    ensures
        server.chain().len() == 0,
        server.services().dom().contains(name) <==> name == "grpc.testing.TestService"@,
        ({
            let methods = server.services()["grpc.testing.TestService"@];
            &&& methods["EmptyCall"@] == Handler::<U, S>::Unary(empty)
            &&& methods["UnaryCall"@] == unary
            &&& methods["StreamingInputCall"@] == Handler::<U, S>::Streaming(input)
            &&& methods["StreamingOutputCall"@] == Handler::<U, S>::Streaming(output)
            &&& methods["FullDuplexCall"@] == Handler::<U, S>::Streaming(duplex)
            &&& methods.dom().contains(name) <==> name == "EmptyCall"@ || name == "UnaryCall"@
                || name == "StreamingInputCall"@ || name == "StreamingOutputCall"@ || name
                == "FullDuplexCall"@
        }),
{
    reveal_strlit("EmptyCall");
    reveal_strlit("UnaryCall");
    reveal_strlit("StreamingInputCall");
    reveal_strlit("StreamingOutputCall");
    reveal_strlit("FullDuplexCall");
    assert("EmptyCall"@[0] == 'E' && "UnaryCall"@[0] == 'U' && "FullDuplexCall"@[0] == 'F'
        && "StreamingInputCall"@[0] == 'S' && "StreamingInputCall"@[9] == 'I'
        && "StreamingOutputCall"@[0] == 'S' && "StreamingOutputCall"@[9] == 'O');
}

/// Every argument that has one of the five forms sets just the value that it names, to just
/// what follows the `=`; a port must be a number of 16 bits. Any other argument changes
/// nothing.
pub proof fn law_arguments_set_what_they_name(
    a: ArgsView,
    value: Seq<char>,
    other: Seq<char>,
)
    requires
        forall|rest: Seq<char>| other != #[trigger] ("--mode="@ + rest),
        forall|rest: Seq<char>| other != #[trigger] ("--server_host="@ + rest),
        forall|rest: Seq<char>| other != #[trigger] ("--server_port="@ + rest),
        forall|rest: Seq<char>| other != #[trigger] ("--port="@ + rest),
        forall|rest: Seq<char>| other != #[trigger] ("--test_case="@ + rest),
    ensures
        with_arg(a, "--mode="@ + value) == Ok::<ArgsView, ArgsError>(
            ArgsView { mode: value, ..a },
        ),
        with_arg(a, "--server_host="@ + value) == Ok::<ArgsView, ArgsError>(
            ArgsView { server_host: value, ..a },
        ),
        with_arg(a, "--test_case="@ + value) == Ok::<ArgsView, ArgsError>(
            ArgsView { test_case: value, ..a },
        ),
        with_arg(a, "--server_port="@ + value) == match numeral(value, 65535) {
            Some(n) => Ok::<ArgsView, ArgsError>(ArgsView { server_port: n as u16, ..a }),
            None => Err::<ArgsView, ArgsError>(ArgsError::InvalidServerPort),
        },
        with_arg(a, "--port="@ + value) == match numeral(value, 65535) {
            Some(n) => Ok::<ArgsView, ArgsError>(ArgsView { port: n as u16, ..a }),
            None => Err::<ArgsView, ArgsError>(ArgsError::InvalidPort),
        },
        with_arg(a, other) == Ok::<ArgsView, ArgsError>(a),
{
    lemma_prefixes_differ();
    lemma_prefixes("--mode="@, value);
    lemma_prefixes("--server_host="@, value);
    lemma_prefixes("--server_port="@, value);
    lemma_prefixes("--port="@, value);
    lemma_prefixes("--test_case="@, value);
    lemma_no_prefix(other, "--mode="@);
    lemma_no_prefix(other, "--server_host="@);
    lemma_no_prefix(other, "--server_port="@);
    lemma_no_prefix(other, "--port="@);
    lemma_no_prefix(other, "--test_case="@);
}

/// A text that is no prefix and something behind it does not begin with the prefix.
proof fn lemma_no_prefix(other: Seq<char>, prefix: Seq<char>)
    requires
        forall|rest: Seq<char>| other != #[trigger] (prefix + rest),
    ensures
        !has_prefix(other, prefix),
{
    if has_prefix(other, prefix) {
        assert(other =~= prefix + other.skip(prefix.len() as int));
    }
}

/// No two of the known prefixes are the same.
proof fn lemma_prefixes_differ()
    ensures
        "--mode="@ != "--server_host="@,
        "--mode="@ != "--server_port="@,
        "--mode="@ != "--port="@,
        "--mode="@ != "--test_case="@,
        "--server_host="@ != "--server_port="@,
        "--server_host="@ != "--port="@,
        "--server_host="@ != "--test_case="@,
        "--server_port="@ != "--port="@,
        "--server_port="@ != "--test_case="@,
        "--port="@ != "--test_case="@,
{
    reveal_strlit("--mode=");
    reveal_strlit("--server_host=");
    reveal_strlit("--server_port=");
    reveal_strlit("--port=");
    reveal_strlit("--test_case=");
    assert("--mode="@[2] == 'm' && "--server_host="@[2] == 's' && "--server_host="@[9] == 'h'
        && "--server_port="@[2] == 's' && "--server_port="@[9] == 'p' && "--port="@[2] == 'p'
        && "--test_case="@[2] == 't');
}

/// What the arguments that are known begin with.
pub open spec fn is_known_prefix(prefix: Seq<char>) -> bool {
    prefix == "--mode="@ || prefix == "--server_host="@ || prefix == "--server_port="@ || prefix
        == "--port="@ || prefix == "--test_case="@
}

/// An argument has the one prefix that it was made with, and what follows is the rest.
proof fn lemma_prefixes(prefix: Seq<char>, value: Seq<char>)
    requires
        is_known_prefix(prefix),
    ensures
        has_prefix(prefix + value, prefix),
        (prefix + value).skip(prefix.len() as int) == value,
        has_prefix(prefix + value, "--mode="@) ==> prefix == "--mode="@,
        has_prefix(prefix + value, "--server_host="@) ==> prefix == "--server_host="@,
        has_prefix(prefix + value, "--server_port="@) ==> prefix == "--server_port="@,
        has_prefix(prefix + value, "--port="@) ==> prefix == "--port="@,
        has_prefix(prefix + value, "--test_case="@) ==> prefix == "--test_case="@,
{
    let arg = prefix + value;
    reveal_strlit("--mode=");
    reveal_strlit("--server_host=");
    reveal_strlit("--server_port=");
    reveal_strlit("--port=");
    reveal_strlit("--test_case=");
    assert(arg.take(prefix.len() as int) =~= prefix);
    assert(arg.skip(prefix.len() as int) =~= value);
    assert forall|p: Seq<char>| is_known_prefix(p) && #[trigger] has_prefix(arg, p) implies p
        == prefix by {
        let front = arg.take(p.len() as int);
        assert(front[2] == p[2] && front[2] == arg[2] && arg[2] == prefix[2]);
        if p[2] == 's' {
            assert(front[9] == p[9] && front[9] == arg[9] && arg[9] == prefix[9]);
        }
    }
}

/// Without arguments the defaults hold; each argument is applied to what those before it
/// gave, and the first that cannot be used is reported.
pub proof fn law_arguments_are_applied_in_order(line: &[String], r: Result<Args, ArgsError>)
    requires
        call_ensures(parse_args, (line,), r),
    ensures
        line@.len() == 0 ==> (r matches Ok(a) && a.mode@ == "client"@ && a.server_host@
            == "localhost"@ && a.server_port == 10000 && a.port == 10000 && a.test_case@
            == "empty_unary"@),
        line@.len() > 0 ==> match args_of(line_view(line@).drop_last()) {
            Ok(before) => match with_arg(before, line@.last()@) {
                Ok(after) => r matches Ok(a) && a@ == after,
                Err(e) => r == Err::<Args, ArgsError>(e),
            },
            Err(e) => r == Err::<Args, ArgsError>(e),
        },
{
}

/// Each case is selected by its own name, all of them, in order, by `all`, and none by any
/// other name.
pub proof fn law_cases_are_selected_by_name(name: &str, r: Option<Vec<TestCase>>)
    requires
        call_ensures(select_cases, (name,), r),
    ensures
        name@ == "empty_unary"@ ==> (r matches Some(v) && v@ == seq![TestCase::EmptyUnary]),
        name@ == "large_unary"@ ==> (r matches Some(v) && v@ == seq![TestCase::LargeUnary]),
        name@ == "client_streaming"@ ==> (r matches Some(v) && v@ == seq![
            TestCase::ClientStreaming,
        ]),
        name@ == "server_streaming"@ ==> (r matches Some(v) && v@ == seq![
            TestCase::ServerStreaming,
        ]),
        name@ == "ping_pong"@ ==> (r matches Some(v) && v@ == seq![TestCase::PingPong]),
        name@ == "empty_stream"@ ==> (r matches Some(v) && v@ == seq![TestCase::EmptyStream]),
        name@ == "all"@ ==> (r matches Some(v) && v@ == seq![
            TestCase::EmptyUnary,
            TestCase::LargeUnary,
            TestCase::ClientStreaming,
            TestCase::ServerStreaming,
            TestCase::PingPong,
            TestCase::EmptyStream,
        ]),
        r is Some ==> name@ == "empty_unary"@ || name@ == "large_unary"@ || name@
            == "client_streaming"@ || name@ == "server_streaming"@ || name@ == "ping_pong"@ || name@
            == "empty_stream"@ || name@ == "all"@,
{
    reveal_strlit("empty_unary");
    reveal_strlit("large_unary");
    reveal_strlit("client_streaming");
    reveal_strlit("server_streaming");
    reveal_strlit("ping_pong");
    reveal_strlit("empty_stream");
    reveal_strlit("all");
    assert("empty_unary"@[0] == 'e' && "empty_unary"@[6] == 'u' && "large_unary"@[0] == 'l'
        && "client_streaming"@[0] == 'c' && "server_streaming"@[0] == 's' && "ping_pong"@[0] == 'p'
        && "empty_stream"@[0] == 'e' && "empty_stream"@[6] == 's' && "all"@[0] == 'a');
}

} // verus!
