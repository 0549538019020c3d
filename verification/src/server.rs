//! Service registration, routing and the course of a unary RPC on the server.
//!
//! A request is first dispatched: its content type is checked, its method path
//! is split and looked up. A unary request then runs through [`UnaryState`]:
//! one message is read and unwrapped, the handler is called with the payload,
//! and its response is wrapped and sent.

use crate::buffers::{bytes_from_vec, bytes_of, bytes_slice};
use crate::codec::{
    decode_raw, decoded_plain, encode_raw, framed, is_on_the_wire, is_sendable_length,
    law_frame_round_trip, lemma_on_the_wire, lemma_wire_is_unique, COMPRESSION_NONE,
    DEFAULT_MAX_RECV_SIZE,
};
use crate::headers::{header_text, lemma_grpc_headers, text_of, values_of, Headers};
use crate::metadata::{
    is_transport_name, keys_lower, lemma_text_values, lemma_user_keys, text_values, user_values,
    values, Metadata,
};
use crate::status::{status, Code, Status, StatusView};
use crate::text::{
    chars_of, has_prefix, join, join3, join4, quote, quoted, same_text, starts_with,
};
use crate::transport::server::ServerStream;
use crate::transport::{decode_timeout, duration_nanos, timeout_nanos};
use bytes::Bytes;
use std::time::Duration;
use vstd::prelude::*;
use vstd::string::*;

verus! {

/// A method handler: unary handlers get one payload and return one, streaming
/// handlers drive the stream themselves.
#[derive(Debug)]
pub enum Handler<U, S> {
    Unary(U),
    Streaming(S),
}

/// One RPC method.
#[derive(Debug)]
pub struct MethodDesc<U, S> {
    /// The bare method name, e.g. `"SayHello"`.
    pub name: &'static str,
    pub handler: Handler<U, S>,
}

/// One gRPC service.
#[derive(Debug)]
pub struct ServiceDesc<U, S> {
    /// The full service name with its package, e.g. `"helloworld.Greeter"`.
    pub name: &'static str,
    pub methods: Vec<MethodDesc<U, S>>,
}

/// The handlers of a service by method name. Of two methods with one name the
/// later counts.
pub open spec fn method_map<U, S>(methods: Seq<MethodDesc<U, S>>) -> Map<Seq<char>, Handler<U, S>>
    decreases methods.len(),
{
    if methods.len() == 0 {
        Map::empty()
    } else {
        method_map(methods.drop_last()).insert(methods.last().name@, methods.last().handler)
    }
}

/// The services by name.
pub open spec fn service_map<U, S>(services: Seq<ServiceDesc<U, S>>) -> Map<
    Seq<char>,
    Map<Seq<char>, Handler<U, S>>,
>
    decreases services.len(),
{
    if services.len() == 0 {
        Map::empty()
    } else {
        service_map(services.drop_last()).insert(
            services.last().name@,
            method_map(services.last().methods@),
        )
    }
}

/// Whether no two services have one name.
spec fn names_differ<U, S>(services: Seq<ServiceDesc<U, S>>) -> bool {
    forall|i: int, j: int|
        0 <= i < j < services.len() ==> (#[trigger] services[i]).name@ != (
        #[trigger] services[j]).name@
}

/// Every service is found by its name.
proof fn lemma_services_are_named<U, S>(services: Seq<ServiceDesc<U, S>>, i: int)
    requires
        0 <= i < services.len(),
    ensures
        service_map(services).dom().contains(services[i].name@),
    decreases services.len(),
{
    if i < services.len() - 1 {
        lemma_services_are_named(services.drop_last(), i);
    }
}

/// A gRPC server: its services, no two of one name, and its interceptors.
#[derive(Debug)]
pub struct Server<U, S, I> {
    services: Vec<ServiceDesc<U, S>>,
    interceptors: Vec<I>,
}

/// Whether `path` is `/`, a service name, `/` and a method name: neither is
/// empty, and the method name holds no `/`.
pub open spec fn is_path(path: Seq<char>, service: Seq<char>, method: Seq<char>) -> bool {
    &&& service.len() > 0
    &&& method.len() > 0
    &&& !method.contains('/')
    &&& path == seq!['/'] + service + seq!['/'] + method
}

/// The service name and the method name of a path, if it has them.
pub open spec fn path_parts(path: Seq<char>) -> Option<(Seq<char>, Seq<char>)> {
    if exists|s: Seq<char>, m: Seq<char>| is_path(path, s, m) {
        let (s, m) = choose|s: Seq<char>, m: Seq<char>| is_path(path, s, m);
        Some((s, m))
    } else {
        None
    }
}

/// A path has one service name and one method name at most.
pub proof fn lemma_path_parts(path: Seq<char>, service: Seq<char>, method: Seq<char>)
    requires
        is_path(path, service, method),
    ensures
        path_parts(path) == Some((service, method)),
{
    let (s, m) = choose|s: Seq<char>, m: Seq<char>| is_path(path, s, m);
    assert(is_path(path, s, m));
    let j: int = 1 + service.len() as int;
    let k: int = 1 + s.len() as int;
    let p1 = seq!['/'] + service + seq!['/'] + method;
    let p2 = seq!['/'] + s + seq!['/'] + m;
    assert(path == p1 && path == p2);
    assert(p1.len() == j + 1 + method.len() && p2.len() == k + 1 + m.len());
    assert(p1[j] == '/' && p2[k] == '/');
    if j < k {
        assert(p1[k] == method[k - j - 1]);
        assert(method.contains('/'));
    }
    if k < j {
        assert(p2[j] == m[j - k - 1]);
        assert(m.contains('/'));
    }
    assert(service =~= path.subrange(1, j));
    assert(s =~= path.subrange(1, j));
    assert(method =~= path.skip(j + 1));
    assert(m =~= path.skip(j + 1));
}

/// Splits a method path into service name and method name, at the last `/`.
pub fn parse_method_path(path: &str) -> (r: Option<(&str, &str)>)
    ensures
        match path_parts(path@) {
            Some((s, m)) => r matches Some((a, b)) && a@ == s && b@ == m,
            None => r is None,
        },
        r matches Some((s, m)) ==> is_path(path@, s@, m@),
{
    let v = chars_of(path);
    let n: usize = v.len();
    if n == 0 || v[0] != '/' {
        return None;
    }
    let mut j: usize = n - 1;
    while j > 0 && v[j] != '/'
        invariant
            j < n,
            v@ == path@,
            v.len() == n,
            forall|i: int| j < i < n ==> #[trigger] v@[i] != '/',
        decreases j,
    {
        j -= 1;
    }
    if j <= 1 || j == n - 1 {
        proof {
            assert forall|s: Seq<char>, m: Seq<char>| !is_path(path@, s, m) by {
                if is_path(path@, s, m) {
                    let k: int = 1 + s.len() as int;
                    assert(path@[k as int] == '/');
                    assert(k <= j);
                    assert(m[j - k - 1] == path@[j as int] || j == k);
                    assert(k < n - 1);
                    if k < j {
                        assert(m.contains('/'));
                    }
                }
            }
        }
        return None;
    }
    let service = path.substring_char(1, j);
    let method = path.substring_char(j + 1, n);
    proof {
        assert(!method@.contains('/')) by {
            if method@.contains('/') {
                let i = choose|i: int| 0 <= i < method@.len() && method@[i] == '/';
                assert(method@[i] == v@[i + j + 1]);
            }
        }
        assert(path@ =~= seq!['/'] + service@ + seq!['/'] + method@);
        lemma_path_parts(path@, service@, method@);
    }
    Some((service, method))
}

/// The status of a request whose method path is none, given the path in quotes.
pub open spec fn bad_path(quoted_path: Seq<char>) -> StatusView {
    status(Code::Unimplemented, "malformed method path: "@ + quoted_path)
}

/// Builds the status of a request whose method path is none, given the path in
/// quotes.
pub fn malformed_path(quoted_path: &str) -> (s: Status)
    ensures
        s@ == bad_path(quoted_path@),
{
    Status::unimplemented(join("malformed method path: ", quoted_path).as_str())
}

/// The status of a request whose content type is not that of gRPC, given the
/// content type in quotes.
pub open spec fn bad_content_type(quoted_type: Seq<char>) -> StatusView {
    status(
        Code::InvalidArgument,
        "invalid content-type "@ + quoted_type + ": must start with \"application/grpc\""@,
    )
}

/// Builds the status of a request whose content type is not that of gRPC, given
/// the content type in quotes.
pub fn invalid_content_type(quoted_type: &str) -> (s: Status)
    ensures
        s@ == bad_content_type(quoted_type@),
{
    Status::invalid_argument(
        join3(
            "invalid content-type ",
            quoted_type,
            ": must start with \"application/grpc\"",
        ).as_str(),
    )
}

/// Why a path leads to no handler, if it does not.
pub open spec fn route_fault<U, S>(
    services: Map<Seq<char>, Map<Seq<char>, Handler<U, S>>>,
    path: Seq<char>,
) -> Option<StatusView> {
    match path_parts(path) {
        None => Some(bad_path(quoted(path))),
        Some((s, m)) => if !services.dom().contains(s) {
            Some(status(Code::Unimplemented, "unknown service "@ + s))
        } else if !services[s].dom().contains(m) {
            Some(status(Code::Unimplemented, "unknown method "@ + m + " in service "@ + s))
        } else {
            None
        },
    }
}

/// The handler that a path leads to.
pub open spec fn routed<U, S>(
    services: Map<Seq<char>, Map<Seq<char>, Handler<U, S>>>,
    path: Seq<char>,
) -> Handler<U, S> {
    let (s, m) = path_parts(path)->0;
    services[s][m]
}

/// The content type that a request gives, empty if it gives none.
pub open spec fn content_type(h: Headers) -> Seq<char> {
    match text_of(h, "content-type"@) {
        Some(t) => t,
        None => seq![],
    }
}

/// Why a request is answered with an error before any handler sees it, if it is.
pub open spec fn dispatch_fault<U, S>(
    services: Map<Seq<char>, Map<Seq<char>, Handler<U, S>>>,
    path: Seq<char>,
    h: Headers,
) -> Option<StatusView> {
    if !has_prefix(content_type(h), "application/grpc"@) {
        Some(bad_content_type(quoted(content_type(h))))
    } else {
        route_fault(services, path)
    }
}

/// The time that a request grants its handler, if it sets a limit.
pub open spec fn granted_nanos(h: Headers) -> Option<nat> {
    match text_of(h, "grpc-timeout"@) {
        Some(t) => timeout_nanos(t),
        None => None,
    }
}

/// Finds the handler of a method. Of two methods with one name the later counts.
fn find_method<'a, U, S>(methods: &'a [MethodDesc<U, S>], name: &str) -> (r: Option<
    &'a Handler<U, S>,
>)
    ensures
        r is Some <==> method_map(methods@).dom().contains(name@),
        r matches Some(h) ==> *h == method_map(methods@)[name@],
{
    let mut i: usize = methods.len();
    assert(methods@.take(i as int) =~= methods@);
    while i > 0
        invariant
            i <= methods@.len(),
            method_map(methods@).dom().contains(name@) <==> method_map(
                methods@.take(i as int),
            ).dom().contains(name@),
            method_map(methods@.take(i as int)).dom().contains(name@) ==> method_map(methods@)[name@]
                == method_map(methods@.take(i as int))[name@],
        decreases i,
    {
        i -= 1;
        assert(methods@.take(i + 1).drop_last() =~= methods@.take(i as int));
        if same_text(methods[i].name, name) {
            return Some(&methods[i].handler);
        }
    }
    None
}

/// Finds a service by name.
fn find_service<'a, U, S>(services: &'a [ServiceDesc<U, S>], name: &str) -> (r: Option<
    &'a ServiceDesc<U, S>,
>)
    ensures
        r is Some <==> service_map(services@).dom().contains(name@),
        r matches Some(s) ==> method_map(s.methods@) == service_map(services@)[name@],
{
    let mut i: usize = services.len();
    assert(services@.take(i as int) =~= services@);
    while i > 0
        invariant
            i <= services@.len(),
            service_map(services@).dom().contains(name@) <==> service_map(
                services@.take(i as int),
            ).dom().contains(name@),
            service_map(services@.take(i as int)).dom().contains(name@) ==> service_map(
                services@,
            )[name@] == service_map(services@.take(i as int))[name@],
        decreases i,
    {
        i -= 1;
        assert(services@.take(i + 1).drop_last() =~= services@.take(i as int));
        if same_text(services[i].name, name) {
            return Some(&services[i]);
        }
    }
    None
}

/// A request that is to be handled.
pub struct Dispatch<'a, U, S> {
    pub handler: &'a Handler<U, S>,
    /// The user-defined metadata of the request.
    pub metadata: Metadata,
    /// The time that the request grants, if it sets a limit.
    pub deadline: Option<Duration>,
    /// The method path.
    pub method_path: String,
}

impl<U, S, I> Server<U, S, I> {
    #[verifier::type_invariant]
    spec fn services_differ(&self) -> bool {
        names_differ(self.services@)
    }

    /// The registered handlers, by service and method name.
    pub closed spec fn services(&self) -> Map<Seq<char>, Map<Seq<char>, Handler<U, S>>> {
        service_map(self.services@)
    }

    /// The interceptors, outermost first.
    pub closed spec fn chain(&self) -> Seq<I> {
        self.interceptors@
    }

    /// A server without services.
    pub fn new() -> (s: Self)
        ensures
            s.services() == Map::<Seq<char>, Map<Seq<char>, Handler<U, S>>>::empty(),
            s.chain() == Seq::<I>::empty(),
    {
        Server { services: Vec::new(), interceptors: Vec::new() }
    }

    /// Registers an interceptor for unary RPCs. The first registered is the
    /// outermost.
    pub fn add_interceptor(&mut self, interceptor: I)
        ensures
            final(self).chain() == old(self).chain().push(interceptor),
            final(self).services() == old(self).services(),
    {
        proof {
            use_type_invariant(&*self);
        }
        let mut interceptors: Vec<I> = Vec::new();
        std::mem::swap(&mut interceptors, &mut self.interceptors);
        interceptors.push(interceptor);
        self.interceptors = interceptors;
    }

    /// The interceptors, outermost first.
    pub fn interceptors(&self) -> (r: &[I])
        ensures
            r@ == self.chain(),
    {
        self.interceptors.as_slice()
    }

    /// Whether a service of that name is registered.
    pub fn has_service(&self, name: &str) -> (b: bool)
        ensures
            b == self.services().dom().contains(name@),
    {
        find_service(self.services.as_slice(), name).is_some()
    }

    /// Registers a service. Its name must not be registered yet.
    pub fn add_service(&mut self, desc: ServiceDesc<U, S>)
        requires
            !old(self).services().dom().contains(desc.name@),
        ensures
            final(self).services() == old(self).services().insert(
                desc.name@,
                method_map(desc.methods@),
            ),
            final(self).chain() == old(self).chain(),
    {
        proof {
            use_type_invariant(&*self);
        }
        let mut services: Vec<ServiceDesc<U, S>> = Vec::new();
        std::mem::swap(&mut services, &mut self.services);
        proof {
            assert forall|i: int| 0 <= i < services@.len() implies (#[trigger] services@[i]).name@
                != desc.name@ by {
                lemma_services_are_named(services@, i);
            }
        }
        services.push(desc);
        assert(services@.drop_last() =~= old(self).services@);
        self.services = services;
    }

    /// Finds the handler that a method path leads to.
    pub fn route(&self, path: &str) -> (r: Result<&Handler<U, S>, Status>)
        ensures
            match route_fault(self.services(), path@) {
                Some(fault) => r is Err && r->Err_0@ == fault,
                None => r is Ok && *r->Ok_0 == routed(self.services(), path@),
            },
    {
        let (service_name, method_name) = match parse_method_path(path) {
            Some(parts) => parts,
            None => return Err(malformed_path(quote(path).as_str())),
        };
        let service = match find_service(self.services.as_slice(), service_name) {
            Some(s) => s,
            None => return Err(
                Status::unimplemented(join("unknown service ", service_name).as_str()),
            ),
        };
        match find_method(service.methods.as_slice(), method_name) {
            Some(h) => Ok(h),
            None => Err(
                Status::unimplemented(
                    join4("unknown method ", method_name, " in service ", service_name).as_str(),
                ),
            ),
        }
    }

    /// Decides what becomes of a request: it is handed to its handler, or
    /// answered with an error.
    pub fn dispatch_stream(&self, stream: &ServerStream) -> (r: Result<Dispatch<'_, U, S>, Status>)
        ensures
            match dispatch_fault(self.services(), stream.path(), stream.headers()) {
                Some(fault) => r is Err && r->Err_0@ == fault,
                None => {
                    &&& r is Ok
                    &&& *r->Ok_0.handler == routed(self.services(), stream.path())
                    &&& r->Ok_0.method_path@ == stream.path()
                    &&& forall|k: Seq<char>| #[trigger]
                        values(r->Ok_0.metadata@, k) == user_values(stream.headers(), k)
                    &&& keys_lower(r->Ok_0.metadata@)
                    &&& match granted_nanos(stream.headers()) {
                        Some(n) => r->Ok_0.deadline is Some && duration_nanos(
                            r->Ok_0.deadline->0,
                        ) == n,
                        None => r->Ok_0.deadline is None,
                    }
                },
            },
    {
        proof {
            lemma_grpc_headers();
        }
        let headers = stream.request_headers();
        let content_type = match header_text(headers, "content-type") {
            Some(t) => t,
            None => String::new(),
        };
        let deadline = match header_text(headers, "grpc-timeout") {
            Some(t) => decode_timeout(t.as_str()),
            None => None,
        };
        if !starts_with(content_type.as_str(), "application/grpc") {
            return Err(invalid_content_type(quote(content_type.as_str()).as_str()));
        }
        match self.route(stream.method()) {
            Err(e) => Err(e),
            Ok(handler) => Ok(
                Dispatch {
                    handler,
                    metadata: Metadata::from_request_headers(headers),
                    deadline,
                    method_path: stream.method().to_owned(),
                },
            ),
        }
    }
}

impl<U, S, I> Default for Server<U, S, I> {
    fn default() -> (s: Self)
        ensures
            s.services() == Map::<Seq<char>, Map<Seq<char>, Handler<U, S>>>::empty(),
            s.chain() == Seq::<I>::empty(),
    {
        Server::new()
    }
}

/// A method that was registered is reached by its path, whatever else is
/// registered, and no other handler is.
pub proof fn law_registered_methods_are_reached<U, S>(
    services: Map<Seq<char>, Map<Seq<char>, Handler<U, S>>>,
    service: Seq<char>,
    methods: Map<Seq<char>, Handler<U, S>>,
    method: Seq<char>,
    h: Headers,
)
    requires
        service.len() > 0,
        method.len() > 0,
        !method.contains('/'),
        methods.dom().contains(method),
        has_prefix(content_type(h), "application/grpc"@),
    ensures
        ({
            let all = services.insert(service, methods);
            let path = seq!['/'] + service + seq!['/'] + method;
            &&& dispatch_fault(all, path, h) is None
            &&& routed(all, path) == methods[method]
        }),
{
    lemma_path_parts(seq!['/'] + service + seq!['/'] + method, service, method);
}

/// A request is refused with `InvalidArgument` for its content type and with
/// `Unimplemented` for its path, and for nothing else.
pub proof fn law_refusals<U, S>(
    services: Map<Seq<char>, Map<Seq<char>, Handler<U, S>>>,
    path: Seq<char>,
    h: Headers,
)
    ensures
        dispatch_fault(services, path, h) matches Some(e) ==> e.code == (if has_prefix(
            content_type(h),
            "application/grpc"@,
        ) {
            Code::Unimplemented
        } else {
            Code::InvalidArgument
        }),
        dispatch_fault(services, path, h) is None <==> has_prefix(
            content_type(h),
            "application/grpc"@,
        ) && (path_parts(path) matches Some((s, m)) && services.dom().contains(s)
            && services[s].dom().contains(m)),
{
}

/// How far a unary RPC has come on the server.
#[derive(Debug)]
pub enum UnaryState {
    /// The request message is awaited.
    Receiving,
    /// The handler is running.
    Handling,
    /// The response headers are being sent; the response frame follows.
    Opening(Bytes),
    /// The response frame is being sent.
    Sending,
    /// The trailers are being sent.
    Ending,
    /// Nothing is left to do.
    Finished,
}

/// What happened to a unary RPC.
#[derive(Debug)]
pub enum UnaryEvent {
    /// The request was read: a frame, no frame at all, or an error.
    Received(Result<Option<Bytes>, Status>),
    /// The handler returned; none if its time ran out first.
    Handled(Option<Result<Bytes, Status>>),
    /// The response headers were sent, or could not be.
    HeadersSent(Result<(), Status>),
    /// The response frame was sent, or could not be.
    MessageSent(Result<(), Status>),
    /// Sending the trailers was tried.
    TrailersSent,
}

/// What is to be done next for a unary RPC.
#[derive(Debug)]
pub enum UnaryAction {
    /// Call the handler with the payload.
    Invoke(Bytes),
    /// Send the response headers.
    SendHeaders,
    /// Send the response frame.
    SendMessage(Bytes),
    /// Send the trailers with this status.
    SendTrailers(Status),
    /// Nothing more.
    Stop,
}

/// How far a unary RPC has come, by view.
pub enum UnaryStateView {
    Receiving,
    Handling,
    Opening(Seq<u8>),
    Sending,
    Ending,
    Finished,
}

/// What is to be done next, by view.
pub enum UnaryActionView {
    Invoke(Seq<u8>),
    SendHeaders,
    SendMessage(Seq<u8>),
    SendTrailers(StatusView),
    Stop,
}

impl View for UnaryState {
    type V = UnaryStateView;

    open spec fn view(&self) -> UnaryStateView {
        match self {
            UnaryState::Receiving => UnaryStateView::Receiving,
            UnaryState::Handling => UnaryStateView::Handling,
            UnaryState::Opening(b) => UnaryStateView::Opening(bytes_of(*b)),
            UnaryState::Sending => UnaryStateView::Sending,
            UnaryState::Ending => UnaryStateView::Ending,
            UnaryState::Finished => UnaryStateView::Finished,
        }
    }
}

impl View for UnaryAction {
    type V = UnaryActionView;

    open spec fn view(&self) -> UnaryActionView {
        match self {
            UnaryAction::Invoke(b) => UnaryActionView::Invoke(bytes_of(*b)),
            UnaryAction::SendHeaders => UnaryActionView::SendHeaders,
            UnaryAction::SendMessage(b) => UnaryActionView::SendMessage(bytes_of(*b)),
            UnaryAction::SendTrailers(s) => UnaryActionView::SendTrailers(s@),
            UnaryAction::Stop => UnaryActionView::Stop,
        }
    }
}

/// Whether an event can happen in a state.
pub open spec fn unary_expects(s: UnaryStateView, e: UnaryEvent) -> bool {
    match s {
        UnaryStateView::Receiving => e is Received,
        UnaryStateView::Handling => e is Handled,
        UnaryStateView::Opening(_) => e is HeadersSent,
        UnaryStateView::Sending => e is MessageSent,
        UnaryStateView::Ending => e is TrailersSent,
        UnaryStateView::Finished => false,
    }
}

/// Ends a unary RPC with the given status.
pub open spec fn end_with(s: StatusView) -> (UnaryStateView, UnaryActionView) {
    (UnaryStateView::Ending, UnaryActionView::SendTrailers(s))
}

/// What follows the reading of the request: the handler is called with the
/// payload of the frame.
pub open spec fn after_request(frame: Seq<u8>) -> (UnaryStateView, UnaryActionView) {
    match decoded_plain(frame, DEFAULT_MAX_RECV_SIZE as nat) {
        Ok(payload) => (UnaryStateView::Handling, UnaryActionView::Invoke(payload)),
        Err(e) => end_with(e),
    }
}

/// What follows the handler's response: the response is wrapped in a frame, and
/// the headers are sent.
pub open spec fn after_response(payload: Seq<u8>) -> (UnaryStateView, UnaryActionView) {
    match framed(COMPRESSION_NONE, payload) {
        Ok(f) => (UnaryStateView::Opening(f), UnaryActionView::SendHeaders),
        Err(e) => end_with(e),
    }
}

/// What follows an event.
pub open spec fn unary_next(s: UnaryStateView, e: UnaryEvent) -> (UnaryStateView, UnaryActionView) {
    match e {
        UnaryEvent::Received(Ok(Some(f))) => after_request(bytes_of(f)),
        UnaryEvent::Received(Ok(None)) => end_with(
            status(Code::Internal, "empty request stream"@),
        ),
        UnaryEvent::Received(Err(e)) => end_with(e@),
        UnaryEvent::Handled(Some(Ok(payload))) => after_response(bytes_of(payload)),
        UnaryEvent::Handled(Some(Err(e))) => end_with(e@),
        UnaryEvent::Handled(None) => end_with(
            status(Code::DeadlineExceeded, "server-side deadline exceeded"@),
        ),
        UnaryEvent::HeadersSent(Ok(_)) => (
            UnaryStateView::Sending,
            UnaryActionView::SendMessage(s->Opening_0),
        ),
        UnaryEvent::HeadersSent(Err(e)) => end_with(e@),
        UnaryEvent::MessageSent(Ok(_)) => end_with(status(Code::OK, seq![])),
        UnaryEvent::MessageSent(Err(e)) => end_with(e@),
        UnaryEvent::TrailersSent => (UnaryStateView::Finished, UnaryActionView::Stop),
    }
}

/// Takes a unary RPC one step further.
pub fn dispatch_unary(state: UnaryState, event: UnaryEvent) -> (r: (UnaryState, UnaryAction))
    requires
        unary_expects(state@, event),
    ensures
        (r.0@, r.1@) == unary_next(state@, event),
{
    match event {
        UnaryEvent::Received(Ok(Some(f))) => match decode_raw(
            bytes_slice(&f),
            None,
            DEFAULT_MAX_RECV_SIZE,
        ) {
            Ok(payload) => (
                UnaryState::Handling,
                UnaryAction::Invoke(bytes_from_vec(payload)),
            ),
            Err(e) => (UnaryState::Ending, UnaryAction::SendTrailers(e)),
        },
        UnaryEvent::Received(Ok(None)) => (
            UnaryState::Ending,
            UnaryAction::SendTrailers(Status::internal("empty request stream")),
        ),
        UnaryEvent::Received(Err(e)) => (UnaryState::Ending, UnaryAction::SendTrailers(e)),
        UnaryEvent::Handled(Some(Ok(payload))) => match encode_raw(bytes_slice(&payload), None) {
            Ok(f) => (UnaryState::Opening(f), UnaryAction::SendHeaders),
            Err(e) => (UnaryState::Ending, UnaryAction::SendTrailers(e)),
        },
        UnaryEvent::Handled(Some(Err(e))) => (UnaryState::Ending, UnaryAction::SendTrailers(e)),
        UnaryEvent::Handled(None) => (
            UnaryState::Ending,
            UnaryAction::SendTrailers(Status::deadline_exceeded("server-side deadline exceeded")),
        ),
        UnaryEvent::HeadersSent(Ok(_)) => match state {
            UnaryState::Opening(f) => (UnaryState::Sending, UnaryAction::SendMessage(f)),
            _ => (UnaryState::Finished, UnaryAction::Stop),
        },
        UnaryEvent::HeadersSent(Err(e)) => (UnaryState::Ending, UnaryAction::SendTrailers(e)),
        UnaryEvent::MessageSent(Ok(_)) => (
            UnaryState::Ending,
            UnaryAction::SendTrailers(Status::ok()),
        ),
        UnaryEvent::MessageSent(Err(e)) => (UnaryState::Ending, UnaryAction::SendTrailers(e)),
        UnaryEvent::TrailersSent => (UnaryState::Finished, UnaryAction::Stop),
    }
}

/// Whether the events can happen one after another, from the state `s` on.
pub open spec fn is_course(s: UnaryStateView, events: Seq<UnaryEvent>) -> bool
    decreases events.len(),
{
    events.len() > 0 ==> unary_expects(s, events[0]) && is_course(
        unary_next(s, events[0]).0,
        events.skip(1),
    )
}

/// The state after the events.
pub open spec fn state_after(s: UnaryStateView, events: Seq<UnaryEvent>) -> UnaryStateView
    decreases events.len(),
{
    if events.len() == 0 {
        s
    } else {
        state_after(unary_next(s, events[0]).0, events.skip(1))
    }
}

/// The statuses that are sent in trailers, in order.
pub open spec fn trailers_sent(s: UnaryStateView, events: Seq<UnaryEvent>) -> Seq<StatusView>
    decreases events.len(),
{
    if events.len() == 0 {
        seq![]
    } else {
        let (next, action) = unary_next(s, events[0]);
        let rest = trailers_sent(next, events.skip(1));
        match action {
            UnaryActionView::SendTrailers(status) => seq![status] + rest,
            _ => rest,
        }
    }
}

/// Whether the trailers are still to come in a state.
pub open spec fn trailers_due(s: UnaryStateView) -> bool {
    !(s is Ending) && !(s is Finished)
}

/// Every unary RPC is answered with trailers exactly once: however it goes,
/// trailers are sent once by the time that nothing is left to do, and never a
/// second time.
pub proof fn law_one_answer(s: UnaryStateView, events: Seq<UnaryEvent>)
    requires
        is_course(s, events),
    ensures
        trailers_sent(s, events).len() + (if trailers_due(state_after(s, events)) {
            1nat
        } else {
            0nat
        }) == (if trailers_due(s) {
            1nat
        } else {
            0nat
        }),
    decreases events.len(),
{
    if events.len() > 0 {
        law_one_answer(unary_next(s, events[0]).0, events.skip(1));
    }
}

/// A unary RPC is done after five events at most.
pub proof fn law_answers_end(s: UnaryStateView, events: Seq<UnaryEvent>)
    requires
        s is Receiving,
        is_course(s, events),
    ensures
        events.len() <= 5,
{
    if events.len() > 5 {
        reveal_with_fuel(is_course, 7);
        assert(events.skip(1).skip(1) =~= events.skip(2));
        assert(events.skip(2).skip(1) =~= events.skip(3));
        assert(events.skip(3).skip(1) =~= events.skip(4));
        assert(events.skip(4).skip(1) =~= events.skip(5));
    }
}

/// A path is split at its last slash, into what stands between the first slash and that
/// one, and what stands behind it, if neither is empty. Any other path is not split.
pub proof fn law_paths_are_split(
    path: &str,
    r: Option<(&str, &str)>,
    service: Seq<char>,
    method: Seq<char>,
)
    requires
        call_ensures(parse_method_path, (path,), r),
    ensures
        service.len() > 0 && method.len() > 0 && !method.contains('/') && path@ == seq!['/']
            + service + seq!['/'] + method ==> (r matches Some((s, m)) && s@ == service && m@
            == method),
        r matches Some((s, m)) ==> s@.len() > 0 && m@.len() > 0 && !m@.contains('/') && path@
            == seq!['/'] + s@ + seq!['/'] + m@,
{
    if is_path(path@, service, method) {
        lemma_path_parts(path@, service, method);
    }
}

/// Of the methods of a service, the last with a name is the one that the name stands for,
/// and a name that no method has stands for none.
pub proof fn lemma_last_method_counts<U, S>(
    methods: Seq<MethodDesc<U, S>>,
    name: Seq<char>,
    i: int,
)
    requires
        0 <= i < methods.len(),
        methods[i].name@ == name,
        forall|j: int| i < j < methods.len() ==> (#[trigger] methods[j]).name@ != name,
    ensures
        method_map(methods).dom().contains(name),
        method_map(methods)[name] == methods[i].handler,
    decreases methods.len(),
{
    if i < methods.len() - 1 {
        let front = methods.drop_last();
        assert forall|j: int| i < j < front.len() implies (#[trigger] front[j]).name@ != name by {
            assert(front[j] == methods[j]);
        }
        lemma_last_method_counts(front, name, i);
        assert(methods[methods.len() - 1].name@ != name);
    }
}

/// A name that no method has stands for none.
pub proof fn lemma_other_names_are_unknown<U, S>(methods: Seq<MethodDesc<U, S>>, name: Seq<char>)
    requires
        forall|j: int| 0 <= j < methods.len() ==> (#[trigger] methods[j]).name@ != name,
    ensures
        !method_map(methods).dom().contains(name),
    decreases methods.len(),
{
    if methods.len() > 0 {
        let front = methods.drop_last();
        assert forall|j: int| 0 <= j < front.len() implies (#[trigger] front[j]).name@ != name by {
            assert(front[j] == methods[j]);
        }
        lemma_other_names_are_unknown(front, name);
        assert(methods[methods.len() - 1].name@ != name);
    }
}

/// A service that is registered is reached by its name, and each of its methods by theirs:
/// the last one of those with that name. Names that no method has lead nowhere, and
/// services that were registered before stay as they are.
pub proof fn law_services_are_registered<U, S, I>(
    desc: ServiceDesc<U, S>,
    method: Seq<char>,
    i: int,
    other: Seq<char>,
)
    ensures
        forall|server: &mut Server<U, S, I>| #[trigger]
            call_ensures(Server::<U, S, I>::add_service, (server, desc), ()) ==> {
                let before = (*server).services();
                let after = (*final(server)).services();
                &&& after.dom().contains(desc.name@)
                &&& 0 <= i < desc.methods@.len() && desc.methods@[i].name@ == method && (forall|
                    j: int,
                |
                    i < j < desc.methods@.len() ==> (#[trigger] desc.methods@[j]).name@ != method)
                    ==> after[desc.name@].dom().contains(method) && after[desc.name@][method]
                    == desc.methods@[i].handler
                &&& (forall|j: int|
                    0 <= j < desc.methods@.len() ==> (#[trigger] desc.methods@[j]).name@ != method)
                    ==> !after[desc.name@].dom().contains(method)
                &&& other != desc.name@ ==> (after.dom().contains(other) <==> before.dom().contains(
                    other,
                )) && after[other] == before[other]
                &&& (*final(server)).chain() == (*server).chain()
            },
{
    if 0 <= i < desc.methods@.len() && desc.methods@[i].name@ == method && (forall|j: int|
        i < j < desc.methods@.len() ==> (#[trigger] desc.methods@[j]).name@ != method) {
        lemma_last_method_counts(desc.methods@, method, i);
    }
    if forall|j: int|
        0 <= j < desc.methods@.len() ==> (#[trigger] desc.methods@[j]).name@ != method {
        lemma_other_names_are_unknown(desc.methods@, method);
    }
}

/// A server has no service at first, and says of each name whether it is registered.
/// Interceptors are kept in the order in which they were added.
pub proof fn law_servers_keep_what_they_are_given<U, S, I>(
    new: Server<U, S, I>,
    server: &Server<U, S, I>,
    name: &str,
    known: bool,
    interceptor: I,
    listed: &[I],
)
    ensures
        call_ensures(Server::<U, S, I>::new, (), new) ==> new.chain().len() == 0 && forall|
            s: Seq<char>,
        | !(#[trigger] new.services().dom().contains(s)),
        call_ensures(Server::<U, S, I>::has_service, (server, name), known) ==> (known
            <==> server.services().dom().contains(name@)),
        call_ensures(Server::<U, S, I>::interceptors, (server,), listed) ==> listed@
            == server.chain(),
        forall|s: &mut Server<U, S, I>| #[trigger]
            call_ensures(Server::<U, S, I>::add_interceptor, (s, interceptor), ()) ==> {
                &&& (*final(s)).chain() == (*s).chain().push(interceptor)
                &&& (*final(s)).services() == (*s).services()
            },
{
}

/// The path of a registered method leads to its handler. Any other path, well formed or
/// not, is `Unimplemented`.
pub proof fn law_paths_lead_to_their_handler<U, S, I>(
    server: &Server<U, S, I>,
    path: &str,
    parts: Option<(&str, &str)>,
    r: Result<&Handler<U, S>, Status>,
)
    requires
        call_ensures(parse_method_path, (path,), parts),
        call_ensures(Server::<U, S, I>::route, (server, path), r),
    ensures
        ({
            let all = server.services();
            let known = parts matches Some((s, m)) && all.dom().contains(s@)
                && all[s@].dom().contains(m@);
            &&& known ==> (parts matches Some((s, m)) ==> (r matches Ok(h) && *h == all[s@][m@]))
            &&& !known ==> (r matches Err(e) && e.code == Code::Unimplemented)
            &&& parts is None ==> (r matches Err(e) && has_prefix(
                e.message@,
                "malformed method path: "@,
            ))
            &&& parts matches Some((s, m)) ==> !all.dom().contains(s@) ==> (r matches Err(e)
                && e.message@ == "unknown service "@ + s@)
            &&& parts matches Some((s, m)) ==> all.dom().contains(s@) && !all[s@].dom().contains(m@)
                ==> (r matches Err(e) && e.message@ == "unknown method "@ + m@ + " in service "@
                + s@)
        }),
{
    if parts is None {
        let front = "malformed method path: "@;
        assert(r->Err_0.message@.take(front.len() as int) =~= front);
    }
}

/// The statuses of requests that are refused give the path or the content type, in quotes.
pub proof fn law_refusals_quote_what_was_given(
    quoted_text: &str,
    path: Status,
    content: Status,
)
    requires
        call_ensures(malformed_path, (quoted_text,), path),
        call_ensures(invalid_content_type, (quoted_text,), content),
    ensures
        path.code == Code::Unimplemented,
        path.message@ == "malformed method path: "@ + quoted_text@,
        content.code == Code::InvalidArgument,
        content.message@ == "invalid content-type "@ + quoted_text@
            + ": must start with \"application/grpc\""@,
{
}

/// A request is handed to the handler of its path if its content type begins with that of
/// gRPC, with every user-defined header and the time that it grants. With another content
/// type it is `InvalidArgument`, whatever its path, and with another path `Unimplemented`.
pub proof fn law_requests_are_dispatched<U, S, I>(
    server: &Server<U, S, I>,
    stream: &ServerStream,
    r: Result<Dispatch<'_, U, S>, Status>,
    path: &str,
    routed: Result<&Handler<U, S>, Status>,
    key: Seq<char>,
)
    requires
        call_ensures(Server::<U, S, I>::dispatch_stream, (server, stream), r),
        path@ == stream.path(),
        call_ensures(Server::<U, S, I>::route, (server, path), routed),
    ensures
        ({
            let h = stream.headers();
            let accepted = exists|rest: Seq<char>|
                text_of(h, "content-type"@) == Some(#[trigger] ("application/grpc"@ + rest));
            &&& !accepted ==> (r matches Err(e) && e.code == Code::InvalidArgument)
            &&& accepted ==> (routed matches Err(fault) ==> (r matches Err(e) && e@ == fault@))
            &&& accepted ==> (routed matches Ok(handler) ==> {
                &&& r matches Ok(d) && *d.handler == *handler && d.method_path@ == path@
                &&& is_transport_name(key) ==> values(r->Ok_0.metadata@, key).len() == 0
                &&& !is_transport_name(key) ==> values(r->Ok_0.metadata@, key) == text_values(
                    values_of(h, key),
                )
            })
        }),
{
    let h = stream.headers();
    let prefix = "application/grpc"@;
    lemma_user_keys(key);
    lemma_text_values(values_of(h, key));
    let given = content_type(h);
    if has_prefix(given, prefix) {
        assert(given =~= prefix + given.skip(prefix.len() as int));
        reveal_strlit("application/grpc");
        assert(text_of(h, "content-type"@) == Some(prefix + given.skip(prefix.len() as int)));
    }
    assert forall|rest: Seq<char>|
        text_of(h, "content-type"@) == Some(#[trigger] (prefix + rest)) implies has_prefix(
        given,
        prefix,
    ) by {
        assert((prefix + rest).take(prefix.len() as int) =~= prefix);
    }
    if let Ok(d) = r {
        assert(values(d.metadata@, key) == user_values(h, key));
    }
}

/// The time that a request grants its handler is the one that its `grpc-timeout` gives;
/// without one that can be read there is no limit.
pub proof fn law_requests_grant_their_timeout<U, S, I>(
    server: &Server<U, S, I>,
    stream: &ServerStream,
    r: Result<Dispatch<'_, U, S>, Status>,
    text: &str,
    limit: Option<Duration>,
)
    requires
        call_ensures(Server::<U, S, I>::dispatch_stream, (server, stream), r),
        call_ensures(decode_timeout, (text,), limit),
        r is Ok,
    ensures
        text_of(stream.headers(), "grpc-timeout"@) is None ==> r->Ok_0.deadline is None,
        text_of(stream.headers(), "grpc-timeout"@) == Some(text@) ==> match limit {
            Some(d) => r->Ok_0.deadline matches Some(g) && duration_nanos(g) == duration_nanos(d),
            None => r->Ok_0.deadline is None,
        },
{
}

/// A unary RPC is answered with the very status that it failed with, code and message,
/// wherever it failed: in reading the request, in the handler, in sending the response.
/// That holds for every status, and nothing else is sent then.
pub proof fn law_failures_are_answered_as_they_are(
    state: UnaryState,
    event: UnaryEvent,
    fault: Status,
    r: (UnaryState, UnaryAction),
)
    requires
        call_ensures(dispatch_unary, (state, event), r),
        event == UnaryEvent::Handled(Some(Err(fault))) || event == UnaryEvent::Received(Err(fault))
            || event == UnaryEvent::HeadersSent(Err(fault)) || event == UnaryEvent::MessageSent(
            Err(fault),
        ),
    ensures
        r.0 is Ending,
        r.1 matches UnaryAction::SendTrailers(s) && s.code == fault.code && s.message@
            == fault.message@,
{
}

/// A request without a message is an internal error, and one whose handler ran out of time
/// `DeadlineExceeded`. A response that was sent is followed by the status `OK`, and the
/// trailers by nothing.
pub proof fn law_unary_calls_end(
    state: UnaryState,
    event: UnaryEvent,
    r: (UnaryState, UnaryAction),
)
    requires
        call_ensures(dispatch_unary, (state, event), r),
    ensures
        event matches UnaryEvent::Received(Ok(None)) ==> r.0 is Ending && (r.1 matches
            UnaryAction::SendTrailers(s) && s.code == Code::Internal && s.message@
            == "empty request stream"@),
        event matches UnaryEvent::Handled(None) ==> r.0 is Ending && (r.1 matches
            UnaryAction::SendTrailers(s) && s.code == Code::DeadlineExceeded && s.message@
            == "server-side deadline exceeded"@),
        event matches UnaryEvent::MessageSent(Ok(_)) ==> r.0 is Ending && (r.1 matches
            UnaryAction::SendTrailers(s) && s.code == Code::OK && s.message@.len() == 0),
        event matches UnaryEvent::TrailersSent ==> r.0 is Finished && r.1 is Stop,
{
}

/// The handler of a unary RPC is called with the body of the request message, up to four
/// mebibytes, whatever follows the message. A longer message, and one that is compressed
/// or malformed, is answered with an error, and the handler is not called.
pub proof fn law_handlers_get_the_request(
    state: UnaryState,
    message: Bytes,
    r: (UnaryState, UnaryAction),
    f: Seq<u8>,
    flag: u8,
    body: Seq<u8>,
    rest: Seq<u8>,
)
    requires
        call_ensures(dispatch_unary, (state, UnaryEvent::Received(Ok(Some(message)))), r),
        bytes_of(message) == f + rest,
        is_on_the_wire(f, flag, body),
        body.len() <= u32::MAX,
    ensures
        flag == 0 && body.len() <= 4_194_304 ==> r.0 is Handling && (r.1 matches
            UnaryAction::Invoke(p) && bytes_of(p) == body),
        body.len() > 4_194_304 ==> r.0 is Ending && (r.1 matches UnaryAction::SendTrailers(s)
            && s.code == Code::ResourceExhausted),
        flag > 0 && body.len() <= 4_194_304 ==> r.0 is Ending && (r.1 matches
            UnaryAction::SendTrailers(s) && s.code == Code::Internal),
{
    let all = f + rest;
    assert(all[0] == f[0] && all[1] == f[1] && all[2] == f[2] && all[3] == f[3] && all[4] == f[4]);
    if flag == 0 && body.len() <= 4_194_304 {
        lemma_wire_is_unique(f, 0, body);
        law_frame_round_trip(body, rest, DEFAULT_MAX_RECV_SIZE as nat);
    }
}

/// The response of a handler is sent as one message that is not compressed, behind the
/// response headers.
pub proof fn law_responses_are_sent(
    state: UnaryState,
    payload: Bytes,
    r: (UnaryState, UnaryAction),
    next: (UnaryState, UnaryAction),
)
    requires
        call_ensures(dispatch_unary, (state, UnaryEvent::Handled(Some(Ok(payload)))), r),
        call_ensures(dispatch_unary, (r.0, UnaryEvent::HeadersSent(Ok(()))), next),
        is_sendable_length(bytes_of(payload).len()),
    ensures
        r.1 is SendHeaders,
        next.0 is Sending,
        next.1 matches UnaryAction::SendMessage(f) && is_on_the_wire(
            bytes_of(f),
            0,
            bytes_of(payload),
        ),
{
    lemma_on_the_wire(0, bytes_of(payload));
}

} // verus!
