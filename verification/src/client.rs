//! The course of an RPC on the client: the headers of a call, the exchange of a
//! unary call, retries, streaming calls and deadlines.
//!
//! Times are nanoseconds on a clock of the caller's choosing.

use crate::buffers::{bytes_of, bytes_slice};
use crate::codec::{
    decode_raw, decoded_plain, encode_raw, framed, is_on_the_wire, is_sendable_length,
    law_frame_round_trip, lemma_on_the_wire, lemma_wire_is_unique, parse_payload, parsed,
    COMPRESSION_NONE, DEFAULT_MAX_RECV_SIZE,
};
use crate::headers::{
    header_values, insert_text, inserted, lemma_grpc_headers, names_within, values_of, Headers,
    MAX_NAMES,
};
use crate::metadata::{
    header_values_under, is_transport_name, keys_lower, law_few_pairs_fit, lemma_sent_values,
    lemma_text_values, lemma_user_keys, sent_headers, text_values, user_values, values, Metadata,
};
use crate::retry::{attempts_allowed, retries_on, RetryPolicy};
use crate::status::{internal_at, internal_error, status, Code, Status, StatusView};
use crate::transport::client::{
    call_cancelled, head_progress, is_grpc_head, lemma_grpc_head, parse_grpc_status, recv_data,
    recv_end, recv_head, sent_as, ClientStream, ClientView, HeadProgress, HeadView, ResponseHead,
    TrailersEvent, TrailersProgress,
};
use crate::transport::server::event_fits;
use crate::transport::{
    awaits_the_rest, duration_nanos, encode_timeout, lemma_part_of_a_message, lemma_timeout_header,
    room_for, takes_in, timeout_text, DataEvent, Input, Progress, ReadView, ReaderView, StreamFault,
};
use bytes::Bytes;
use http::HeaderMap;
use std::time::Duration;
use vstd::prelude::*;
use vstd::string::*;
use vstd::utf8::*;

verus! {

/// A channel: a connection to one server, the interceptors of its unary calls
/// and, if they are tried again, when.
#[derive(Debug)]
pub struct Channel<T, I> {
    transport: T,
    interceptors: Vec<I>,
    retry_policy: Option<RetryPolicy>,
}

impl<T, I> Channel<T, I> {
    /// The connection.
    pub closed spec fn connection(&self) -> T {
        self.transport
    }

    /// The interceptors, outermost first.
    pub closed spec fn chain(&self) -> Seq<I> {
        self.interceptors@
    }

    /// When unary calls are tried again.
    pub closed spec fn policy(&self) -> Option<RetryPolicy> {
        self.retry_policy
    }

    /// A channel over a connection, without interceptors and retries.
    pub fn new(transport: T) -> (c: Self)
        ensures
            c.connection() == transport,
            c.chain() == Seq::<I>::empty(),
            c.policy() is None,
    {
        Channel { transport, interceptors: Vec::new(), retry_policy: None }
    }

    /// Has unary calls tried again as the policy says.
    pub fn with_retry_policy(self, policy: RetryPolicy) -> (c: Self)
        ensures
            c.connection() == self.connection(),
            c.chain() == self.chain(),
            c.policy() == Some(policy),
    {
        Channel {
            transport: self.transport,
            interceptors: self.interceptors,
            retry_policy: Some(policy),
        }
    }

    /// Registers an interceptor for unary calls. The first registered is the
    /// outermost.
    pub fn add_interceptor(&mut self, interceptor: I)
        ensures
            final(self).connection() == old(self).connection(),
            final(self).chain() == old(self).chain().push(interceptor),
            final(self).policy() == old(self).policy(),
    {
        self.interceptors.push(interceptor);
    }

    /// The connection.
    pub fn transport(&self) -> (t: &T)
        ensures
            *t == self.connection(),
    {
        &self.transport
    }

    /// The interceptors, outermost first.
    pub fn interceptors(&self) -> (r: &[I])
        ensures
            r@ == self.chain(),
    {
        self.interceptors.as_slice()
    }

    /// When unary calls are tried again.
    pub fn retry_policy(&self) -> (p: Option<&RetryPolicy>)
        ensures
            policy_of(p) == self.policy(),
    {
        match &self.retry_policy {
            Some(p) => Some(p),
            None => None,
        }
    }
}

/// The headers of a call: its metadata and, if it has a time limit,
/// `grpc-timeout`.
pub open spec fn call_headers_of(
    md: Seq<(Seq<char>, Seq<char>)>,
    timeout: Option<Duration>,
) -> Headers {
    match timeout {
        Some(d) => inserted(
            sent_headers(md),
            "grpc-timeout"@,
            encode_utf8(timeout_text(duration_nanos(d))),
        ),
        None => sent_headers(md),
    }
}

/// Builds the headers of a call, unless there are too many for a header map.
pub fn call_headers(metadata: &Metadata, timeout: Option<Duration>) -> (r: Option<HeaderMap>)
    ensures
        r matches Some(m) ==> header_values(m) == call_headers_of(metadata@, timeout),
        names_within(sent_headers(metadata@), MAX_NAMES as nat) ==> r is Some,
{
    let mut map = match metadata.try_to_header_map() {
        Some(m) => m,
        None => return None,
    };
    if let Some(d) = timeout {
        proof {
            lemma_grpc_headers();
            lemma_timeout_header(duration_nanos(d));
        }
        if !insert_text(&mut map, "grpc-timeout", encode_timeout(d).as_str()) {
            return None;
        }
    }
    Some(map)
}

/// Builds what is sent for a unary call: the frame of the payload and the headers,
/// unless there are too many for a header map.
///
/// A payload that is too long for a frame is an error.
pub fn unary_request(payload: &[u8], metadata: &Metadata, timeout: Option<Duration>) -> (r: Result<
    (Bytes, Option<HeaderMap>),
    Status,
>)
    ensures
        match framed(COMPRESSION_NONE, payload@) {
            Err(fault) => r matches Err(e) && e@ == fault,
            Ok(f) => r is Ok && {
                let (data, headers) = r->Ok_0;
                &&& bytes_of(data) == f
                &&& headers matches Some(m) ==> header_values(m) == call_headers_of(
                    metadata@,
                    timeout,
                )
                &&& names_within(sent_headers(metadata@), MAX_NAMES as nat) ==> headers is Some
            },
        },
{
    match encode_raw(payload, None) {
        Err(e) => Err(e),
        Ok(data) => Ok((data, call_headers(metadata, timeout))),
    }
}

/// What arrived on a client stream.
#[derive(Debug)]
pub enum StreamEvent {
    /// The head of the response, or why there is none.
    Response(Result<ResponseHead, StreamFault>),
    /// Data.
    Data(DataEvent),
    /// The trailers, if there are any.
    Trailers(Result<Option<HeaderMap>, StreamFault>),
}

/// The response in an event, if it holds one.
pub open spec fn response_in(event: Option<StreamEvent>) -> Option<
    Result<ResponseHead, StreamFault>,
> {
    match event {
        Some(StreamEvent::Response(r)) => Some(r),
        _ => None,
    }
}

/// The data in an event, if it holds any.
pub open spec fn data_in(event: Option<StreamEvent>) -> Option<DataEvent> {
    match event {
        Some(StreamEvent::Data(d)) => Some(d),
        _ => None,
    }
}

/// What an event means to one who awaits the trailers.
pub open spec fn end_in(event: Option<StreamEvent>) -> Option<TrailersEvent> {
    match event {
        Some(StreamEvent::Data(d)) => Some(TrailersEvent::Data(d)),
        Some(StreamEvent::Trailers(t)) => Some(TrailersEvent::Trailers(t)),
        _ => None,
    }
}

/// Whether an event can be handed in: an HTTP status is one, and data fits into
/// the reader.
pub open spec fn event_allowed(c: ClientView, event: Option<StreamEvent>) -> bool {
    &&& response_in(event) matches Some(Ok(r)) ==> 100 <= r.status <= 999
    &&& event_fits(c.reader, data_in(event))
}

/// An event, by what it holds.
fn split_event(event: Option<StreamEvent>) -> (r: (
    Option<Result<ResponseHead, StreamFault>>,
    Option<DataEvent>,
))
    ensures
        r.0 == response_in(event),
        r.1 == data_in(event),
{
    match event {
        Some(StreamEvent::Response(r)) => (Some(r), None),
        Some(StreamEvent::Data(d)) => (None, Some(d)),
        _ => (None, None),
    }
}

/// What an event means to one who awaits the trailers.
fn end_event(event: Option<StreamEvent>) -> (r: Option<TrailersEvent>)
    ensures
        r == end_in(event),
{
    match event {
        Some(StreamEvent::Data(d)) => Some(TrailersEvent::Data(d)),
        Some(StreamEvent::Trailers(t)) => Some(TrailersEvent::Trailers(t)),
        _ => None,
    }
}

/// The outcome of a unary RPC, given the response frame, if there was one, and
/// the status that the trailers report.
pub open spec fn unary_result(frame: Option<Seq<u8>>, s: StatusView) -> Result<
    Seq<u8>,
    StatusView,
> {
    if s.code != Code::OK {
        Err(s)
    } else {
        match frame {
            Some(f) => decoded_plain(f, DEFAULT_MAX_RECV_SIZE as nat),
            None => Err(
                status(Code::Internal, "server returned OK but sent no response body"@),
            ),
        }
    }
}

/// Whether metadata holds what trailers hold of user-defined metadata.
pub open spec fn is_trailing(md: Seq<(Seq<char>, Seq<char>)>, h: Headers) -> bool {
    &&& forall|k: Seq<char>| #[trigger] values(md, k) == user_values(h, k)
    &&& keys_lower(md)
}

/// The view of an optional frame.
pub open spec fn frame_view(f: Option<Bytes>) -> Option<Seq<u8>> {
    match f {
        Some(b) => Some(bytes_of(b)),
        None => None,
    }
}

/// The view of an optional slice.
pub open spec fn slice_view(f: Option<&[u8]>) -> Option<Seq<u8>> {
    match f {
        Some(s) => Some(s@),
        None => None,
    }
}

/// The outcome of a unary RPC: the response payload and the trailing metadata, or
/// the status that it failed with. The status counts before the response.
pub fn unary_outcome(frame: Option<&[u8]>, rpc_status: Status, trailers: &HeaderMap) -> (r: Result<
    (Vec<u8>, Metadata),
    Status,
>)
    ensures
        match unary_result(slice_view(frame), rpc_status@) {
            Ok(payload) => r matches Ok((p, md)) && p@ == payload && is_trailing(
                md@,
                header_values(*trailers),
            ),
            Err(e) => r matches Err(s) && s@ == e,
        },
{
    if !rpc_status.is_ok() {
        return Err(rpc_status);
    }
    match frame {
        Some(f) => match decode_raw(f, None, DEFAULT_MAX_RECV_SIZE) {
            Ok(payload) => Ok((payload, Metadata::from_trailer_headers(trailers))),
            Err(e) => Err(e),
        },
        None => Err(Status::internal("server returned OK but sent no response body")),
    }
}

/// How far the exchange of a unary RPC has come.
#[derive(Debug)]
pub enum ExchangeStage {
    /// The response headers are awaited.
    Headers,
    /// The response message is awaited.
    Message,
    /// The trailers are awaited; the response message, if there was one.
    Trailers(Option<Bytes>),
}

/// How far the exchange of a unary RPC has come, by view.
pub enum StageView {
    Headers,
    Message,
    Trailers(Option<Seq<u8>>),
}

/// The exchange of a unary RPC, from the request that was sent to the outcome.
#[derive(Debug)]
pub struct UnaryExchange {
    stream: ClientStream,
    stage: ExchangeStage,
}

/// An exchange, by view.
pub struct ExchangeView {
    pub stream: ClientView,
    pub stage: StageView,
}

impl View for UnaryExchange {
    type V = ExchangeView;

    closed spec fn view(&self) -> ExchangeView {
        ExchangeView {
            stream: self.stream@,
            stage: match self.stage {
                ExchangeStage::Headers => StageView::Headers,
                ExchangeStage::Message => StageView::Message,
                ExchangeStage::Trailers(f) => StageView::Trailers(frame_view(f)),
            },
        }
    }
}

/// How far an exchange has come, by view.
pub enum ExchangeProgress {
    Want(Input),
    Done(Result<Seq<u8>, StatusView>, Headers),
    Failed(StatusView),
}

/// An exchange while the trailers are awaited, and an event.
pub open spec fn at_trailers(
    c: ClientView,
    frame: Option<Seq<u8>>,
    event: Option<TrailersEvent>,
) -> (ExchangeView, ExchangeProgress) {
    let (done, p) = recv_end(c, event);
    let x = ExchangeView {
        stream: ClientView { reader: ReaderView { buf: c.reader.buf, done }, ..c },
        stage: StageView::Trailers(frame),
    };
    match p {
        TrailersProgress::Want(i) => (x, ExchangeProgress::Want(i)),
        TrailersProgress::Failed(e) => (x, ExchangeProgress::Failed(e)),
        TrailersProgress::Trailers(s, h) => (x, ExchangeProgress::Done(unary_result(frame, s), h)),
    }
}

/// An exchange while the response message is awaited, and an event.
pub open spec fn at_message(c: ClientView, event: Option<DataEvent>) -> (
    ExchangeView,
    ExchangeProgress,
) {
    let (reader, p) = recv_data(c, event);
    let next = ClientView { reader, ..c };
    let x = ExchangeView { stream: next, stage: StageView::Message };
    match p {
        ReadView::Want(i) => (x, ExchangeProgress::Want(i)),
        ReadView::Failed(e) => (x, ExchangeProgress::Failed(e)),
        ReadView::Message(f) => at_trailers(next, Some(f), None),
        ReadView::End => at_trailers(next, None, None),
    }
}

/// An exchange while the response headers are awaited, and an event.
pub open spec fn at_headers(
    c: ClientView,
    response: Option<Result<ResponseHead, StreamFault>>,
) -> (ExchangeView, ExchangeProgress) {
    let (head, p) = recv_head(c, response);
    let next = ClientView { head, ..c };
    let x = ExchangeView { stream: next, stage: StageView::Headers };
    match p {
        HeadProgress::Want(i) => (x, ExchangeProgress::Want(i)),
        HeadProgress::Failed(e) => (x, ExchangeProgress::Failed(e)),
        HeadProgress::Headers(_) => at_message(next, None),
    }
}

/// An exchange after an event, and how far it has come.
pub open spec fn exchange_next(x: ExchangeView, event: Option<StreamEvent>) -> (
    ExchangeView,
    ExchangeProgress,
) {
    match x.stage {
        StageView::Headers => at_headers(x.stream, response_in(event)),
        StageView::Message => at_message(x.stream, data_in(event)),
        StageView::Trailers(f) => at_trailers(x.stream, f, end_in(event)),
    }
}

/// Whether the outcome of an exchange is the one that the view gives.
pub open spec fn is_exchange_progress(
    p: Progress<(Vec<u8>, Metadata)>,
    v: ExchangeProgress,
) -> bool {
    match v {
        ExchangeProgress::Want(i) => p == Progress::<(Vec<u8>, Metadata)>::Want(i),
        ExchangeProgress::Failed(e) => p matches Progress::Ready(Err(s)) && s@ == e,
        ExchangeProgress::Done(Ok(payload), h) => p matches Progress::Ready(Ok((b, md))) && b@
            == payload && is_trailing(md@, h),
        ExchangeProgress::Done(Err(e), h) => p matches Progress::Ready(Err(s)) && s@ == e,
    }
}

impl UnaryExchange {
    /// An exchange whose request was sent.
    pub fn new() -> (x: Self)
        ensures
            x@.stage is Headers,
            x@.stream.head is Pending,
            x@.stream.reader == (ReaderView { buf: seq![], done: false }),
            !x@.stream.cancelled,
    {
        UnaryExchange { stream: ClientStream::new(), stage: ExchangeStage::Headers }
    }

    /// Whether `n` more bytes of data can be taken.
    pub fn has_room(&self, n: usize) -> (b: bool)
        ensures
            b == room_for(self@.stream.reader.buf, n as nat),
    {
        self.stream.has_room(n)
    }

    /// Takes the exchange further, given the event that was awaited, if any:
    /// headers, message and trailers are received in turn.
    pub fn step(&mut self, event: Option<StreamEvent>) -> (p: Progress<(Vec<u8>, Metadata)>)
        requires
            event_allowed(old(self)@.stream, event),
        ensures
            final(self)@ == exchange_next(old(self)@, event).0,
            is_exchange_progress(p, exchange_next(old(self)@, event).1),
    {
        match &self.stage {
            ExchangeStage::Headers => {
                let (response, _) = split_event(event);
                match self.stream.recv_headers(response) {
                    Progress::Want(i) => Progress::Want(i),
                    Progress::Ready(Err(e)) => Progress::Ready(Err(e)),
                    Progress::Ready(Ok(_)) => {
                        self.stage = ExchangeStage::Message;
                        self.read_message(None)
                    },
                }
            },
            ExchangeStage::Message => {
                let (_, data) = split_event(event);
                self.read_message(data)
            },
            ExchangeStage::Trailers(_) => self.read_trailers(end_event(event)),
        }
    }

    fn read_message(&mut self, data: Option<DataEvent>) -> (p: Progress<(Vec<u8>, Metadata)>)
        requires
            old(self)@.stage is Message,
            event_fits(old(self)@.stream.reader, data),
        ensures
            final(self)@ == at_message(old(self)@.stream, data).0,
            is_exchange_progress(p, at_message(old(self)@.stream, data).1),
    {
        match self.stream.recv_message(data) {
            Progress::Want(i) => Progress::Want(i),
            Progress::Ready(Err(e)) => Progress::Ready(Err(e)),
            Progress::Ready(Ok(frame)) => {
                self.stage = ExchangeStage::Trailers(frame);
                self.read_trailers(None)
            },
        }
    }

    fn read_trailers(&mut self, event: Option<TrailersEvent>) -> (p: Progress<(Vec<u8>, Metadata)>)
        requires
            old(self)@.stage is Trailers,
        ensures
            final(self)@ == at_trailers(
                old(self)@.stream,
                old(self)@.stage->Trailers_0,
                event,
            ).0,
            is_exchange_progress(
                p,
                at_trailers(old(self)@.stream, old(self)@.stage->Trailers_0, event).1,
            ),
    {
        match self.stream.recv_trailers(event) {
            Progress::Want(i) => Progress::Want(i),
            Progress::Ready(Err(e)) => Progress::Ready(Err(e)),
            Progress::Ready(Ok((rpc_status, trailers))) => {
                let frame = match &self.stage {
                    ExchangeStage::Trailers(Some(f)) => Some(bytes_slice(f)),
                    _ => None,
                };
                Progress::Ready(unary_outcome(frame, rpc_status, &trailers))
            },
        }
    }
}

/// A streaming call: server-streaming, client-streaming or bidirectional.
#[derive(Debug)]
pub struct StreamCall {
    stream: ClientStream,
    headers_received: bool,
    deadline: Option<u128>,
}

/// A streaming call, by view.
pub struct CallView {
    pub stream: ClientView,
    pub headers_received: bool,
    pub deadline: Option<u128>,
}

impl View for StreamCall {
    type V = CallView;

    closed spec fn view(&self) -> CallView {
        CallView {
            stream: self.stream@,
            headers_received: self.headers_received,
            deadline: self.deadline,
        }
    }
}

/// A call after its response headers were asked for, and how far that has come:
/// none if they are there.
pub open spec fn ensure_headers(
    c: CallView,
    response: Option<Result<ResponseHead, StreamFault>>,
) -> (CallView, Option<HeadProgress>) {
    if c.headers_received {
        (c, None)
    } else {
        let (head, p) = recv_head(c.stream, response);
        let next = CallView { stream: ClientView { head, ..c.stream }, ..c };
        match p {
            HeadProgress::Headers(_) => (CallView { headers_received: true, ..next }, None),
            _ => (next, Some(p)),
        }
    }
}

/// How far receiving a payload has come, by view.
pub enum PayloadView {
    Want(Input),
    Payload(Seq<u8>),
    End,
    Failed(StatusView),
}

/// How far receiving a payload has come, by view.
pub open spec fn payload_view(p: Progress<Option<Vec<u8>>>) -> PayloadView {
    match p {
        Progress::Want(i) => PayloadView::Want(i),
        Progress::Ready(Ok(Some(v))) => PayloadView::Payload(v@),
        Progress::Ready(Ok(None)) => PayloadView::End,
        Progress::Ready(Err(e)) => PayloadView::Failed(e@),
    }
}

/// What a message that was read, or why none was, comes to.
pub open spec fn unwrapped(p: ReadView) -> PayloadView {
    match p {
        ReadView::Want(i) => PayloadView::Want(i),
        ReadView::End => PayloadView::End,
        ReadView::Failed(e) => PayloadView::Failed(e),
        ReadView::Message(f) => match decoded_plain(f, DEFAULT_MAX_RECV_SIZE as nat) {
            Ok(payload) => PayloadView::Payload(payload),
            Err(e) => PayloadView::Failed(e),
        },
    }
}

/// A call after a payload was asked for, and how far that has come.
pub open spec fn recv_payload_of(c: CallView, event: Option<StreamEvent>) -> (
    CallView,
    PayloadView,
) {
    let (ready, waiting) = ensure_headers(c, response_in(event));
    match waiting {
        Some(HeadProgress::Want(i)) => (ready, PayloadView::Want(i)),
        Some(HeadProgress::Failed(e)) => (ready, PayloadView::Failed(e)),
        _ => {
            let (reader, p) = recv_data(ready.stream, data_in(event));
            (
                CallView { stream: ClientView { reader, ..ready.stream }, ..ready },
                unwrapped(p),
            )
        },
    }
}

/// How far ending a call has come, by view.
pub enum FinishView {
    Want(Input),
    Done(Headers),
    Failed(StatusView),
}

/// Whether the outcome of ending a call is the one that the view gives.
pub open spec fn is_finish(p: Progress<Metadata>, v: FinishView) -> bool {
    match v {
        FinishView::Want(i) => p == Progress::<Metadata>::Want(i),
        FinishView::Failed(e) => p matches Progress::Ready(Err(s)) && s@ == e,
        FinishView::Done(h) => p matches Progress::Ready(Ok(md)) && is_trailing(md@, h),
    }
}

/// A call after its end was asked for, and how far that has come. A status other
/// than `OK` is an error.
pub open spec fn finish_of(c: CallView, event: Option<StreamEvent>) -> (CallView, FinishView) {
    let (ready, waiting) = ensure_headers(c, response_in(event));
    match waiting {
        Some(HeadProgress::Want(i)) => (ready, FinishView::Want(i)),
        Some(HeadProgress::Failed(e)) => (ready, FinishView::Failed(e)),
        _ => {
            let (done, p) = recv_end(ready.stream, end_in(event));
            let reader = ReaderView { buf: ready.stream.reader.buf, done };
            (
                CallView { stream: ClientView { reader, ..ready.stream }, ..ready },
                match p {
                    TrailersProgress::Want(i) => FinishView::Want(i),
                    TrailersProgress::Failed(e) => FinishView::Failed(e),
                    TrailersProgress::Trailers(s, h) => if s.code == Code::OK {
                        FinishView::Done(h)
                    } else {
                        FinishView::Failed(s)
                    },
                },
            )
        },
    }
}

/// The time at which a call that begins at `now` runs out.
pub fn deadline_of(now: u128, timeout: Option<Duration>) -> (r: Option<u128>)
    requires
        timeout matches Some(d) ==> now + duration_nanos(d) <= u128::MAX,
    ensures
        match timeout {
            Some(d) => r == Some((now + duration_nanos(d)) as u128),
            None => r is None,
        },
{
    match timeout {
        Some(d) => Some(now + d.as_nanos()),
        None => None,
    }
}

impl StreamCall {
    /// A call whose request headers were sent, with the time at which it runs
    /// out, if it does.
    pub fn new(deadline: Option<u128>) -> (c: Self)
        ensures
            c@.deadline == deadline,
            !c@.headers_received,
            c@.stream.head is Pending,
            c@.stream.reader == (ReaderView { buf: seq![], done: false }),
            !c@.stream.cancelled,
    {
        StreamCall { stream: ClientStream::new(), headers_received: false, deadline }
    }

    /// The time at which the call runs out, if it does.
    pub fn deadline(&self) -> (d: Option<u128>)
        ensures
            d == self@.deadline,
    {
        self.deadline
    }

    /// Whether `n` more bytes of data can be taken.
    pub fn has_room(&self, n: usize) -> (b: bool)
        ensures
            b == room_for(self@.stream.reader.buf, n as nat),
    {
        self.stream.has_room(n)
    }

    /// Serializes a request message and sends it, with `send` to hand the frame
    /// to the connection.
    pub fn send_message<
        M,
        F: Fn(&M) -> Result<Vec<u8>, String>,
        G: FnOnce(Bytes, bool) -> Result<(), String>,
    >(&mut self, req: &M, serialize: F, send: G) -> (r: Result<(), Status>)
        requires
            call_requires(serialize, (req,)),
            forall|data: Bytes| #[trigger] call_requires(send, (data, false)),
        ensures
            final(self)@ == old(self)@,
            exists|s: Result<Vec<u8>, String>| #[trigger]
                call_ensures(serialize, (req,), s) && sends(s, send, r),
    {
        let s = serialize(req);
        let ghost serialized = s;
        let r = match s {
            Err(fault) => Err(internal_error("proto encode", fault.as_str())),
            Ok(payload) => match encode_raw(payload.as_slice(), None) {
                Err(e) => Err(e),
                Ok(frame) => self.stream.send_message(frame, false, send),
            },
        };
        assert(sends(serialized, send, r));
        r
    }

    /// Ends the request, with `send` to hand the end to the connection.
    pub fn close_send<F: FnOnce(Bytes, bool) -> Result<(), String>>(&mut self, send: F) -> (r:
        Result<(), Status>)
        requires
            forall|none: Bytes|
                bytes_of(none).len() == 0 ==> #[trigger] call_requires(send, (none, true)),
        ensures
            final(self)@ == old(self)@,
            exists|none: Bytes, sent: Result<(), String>|
                bytes_of(none).len() == 0 && #[trigger] call_ensures(send, (none, true), sent)
                    && sent_as("finish_send"@, sent, r),
    {
        self.stream.finish_send(send)
    }

    /// Cancels the call. After this, receiving a message and ending the call
    /// report `Cancelled`.
    pub fn cancel(&mut self)
        ensures
            final(self)@ == (CallView {
                stream: ClientView { cancelled: true, ..old(self)@.stream },
                ..old(self)@
            }),
    {
        self.stream.cancel();
    }

    /// Receives the response headers, unless they are there already.
    fn recv_headers(&mut self, response: Option<Result<ResponseHead, StreamFault>>) -> (p: Option<
        Progress<HeaderMap>,
    >)
        requires
            response matches Some(Ok(r)) ==> 100 <= r.status <= 999,
        ensures
            final(self)@ == ensure_headers(old(self)@, response).0,
            match p {
                None => ensure_headers(old(self)@, response).1 is None,
                Some(q) => ensure_headers(old(self)@, response).1 == Some(head_progress(q)) && !(
                head_progress(q) is Headers),
            },
    {
        if self.headers_received {
            return None;
        }
        match self.stream.recv_headers(response) {
            Progress::Ready(Ok(_)) => {
                self.headers_received = true;
                None
            },
            p => Some(p),
        }
    }

    /// Receives the next response payload, given the event that was awaited, if
    /// any. The response headers are received and checked first.
    pub fn recv_payload(&mut self, event: Option<StreamEvent>) -> (p: Progress<Option<Vec<u8>>>)
        requires
            event_allowed(old(self)@.stream, event),
        ensures
            final(self)@ == recv_payload_of(old(self)@, event).0,
            payload_view(p) == recv_payload_of(old(self)@, event).1,
    {
        let (response, data) = split_event(event);
        match self.recv_headers(response) {
            Some(Progress::Want(i)) => return Progress::Want(i),
            Some(Progress::Ready(Err(e))) => return Progress::Ready(Err(e)),
            _ => {},
        }
        match self.stream.recv_message(data) {
            Progress::Want(i) => Progress::Want(i),
            Progress::Ready(Err(e)) => Progress::Ready(Err(e)),
            Progress::Ready(Ok(None)) => Progress::Ready(Ok(None)),
            Progress::Ready(Ok(Some(frame))) => match decode_raw(
                bytes_slice(&frame),
                None,
                DEFAULT_MAX_RECV_SIZE,
            ) {
                Ok(payload) => Progress::Ready(Ok(Some(payload))),
                Err(e) => Progress::Ready(Err(e)),
            },
        }
    }

    /// Receives the next response message, given the event that was awaited, if
    /// any; `parse` reads a message from a payload.
    ///
    /// There is none once the server has sent all its messages.
    pub fn recv_message<M, F: Fn(&[u8]) -> Result<M, String>>(
        &mut self,
        event: Option<StreamEvent>,
        parse: F,
    ) -> (p: Progress<Option<M>>)
        requires
            event_allowed(old(self)@.stream, event),
            forall|payload: &[u8]| call_requires(parse, (payload,)),
        ensures
            final(self)@ == recv_payload_of(old(self)@, event).0,
            match recv_payload_of(old(self)@, event).1 {
                PayloadView::Want(i) => p == Progress::<Option<M>>::Want(i),
                PayloadView::End => p == Progress::<Option<M>>::Ready(Ok(None)),
                PayloadView::Failed(e) => p matches Progress::Ready(Err(s)) && s@ == e,
                PayloadView::Payload(payload) => p is Ready && match p->Ready_0 {
                    Ok(m) => m is Some && parsed(parse, payload, Ok(m->0)),
                    Err(e) => parsed(parse, payload, Err(e)),
                },
            },
    {
        match self.recv_payload(event) {
            Progress::Want(i) => Progress::Want(i),
            Progress::Ready(Err(e)) => Progress::Ready(Err(e)),
            Progress::Ready(Ok(None)) => Progress::Ready(Ok(None)),
            Progress::Ready(Ok(Some(payload))) => match parse_payload(payload.as_slice(), parse) {
                Ok(m) => Progress::Ready(Ok(Some(m))),
                Err(e) => Progress::Ready(Err(e)),
            },
        }
    }

    /// Ends the call, given the event that was awaited, if any: receives the
    /// trailing metadata, or the status that the call failed with.
    pub fn finish(&mut self, event: Option<StreamEvent>) -> (p: Progress<Metadata>)
        requires
            event_allowed(old(self)@.stream, event),
        ensures
            final(self)@ == finish_of(old(self)@, event).0,
            is_finish(p, finish_of(old(self)@, event).1),
    {
        let (response, end) = match event {
            Some(StreamEvent::Response(r)) => (Some(r), None),
            other => (None, end_event(other)),
        };
        match self.recv_headers(response) {
            Some(Progress::Want(i)) => return Progress::Want(i),
            Some(Progress::Ready(Err(e))) => return Progress::Ready(Err(e)),
            _ => {},
        }
        match self.stream.recv_trailers(end) {
            Progress::Want(i) => Progress::Want(i),
            Progress::Ready(Err(e)) => Progress::Ready(Err(e)),
            Progress::Ready(Ok((rpc_status, trailers))) => if rpc_status.is_ok() {
                Progress::Ready(Ok(Metadata::from_trailer_headers(&trailers)))
            } else {
                Progress::Ready(Err(rpc_status))
            },
        }
    }
}

/// Whether `r` reports what came of framing a serialized message and sending the
/// frame with `send`.
pub open spec fn sends<G: FnOnce(Bytes, bool) -> Result<(), String>>(
    serialized: Result<Vec<u8>, String>,
    send: G,
    r: Result<(), Status>,
) -> bool {
    match serialized {
        Err(fault) => r matches Err(e) && e@ == internal_at("proto encode"@, fault@),
        Ok(payload) => match framed(COMPRESSION_NONE, payload@) {
            Err(fault) => r matches Err(e) && e@ == fault,
            Ok(f) => exists|data: Bytes, sent: Result<(), String>|
                bytes_of(data) == f && #[trigger] call_ensures(send, (data, false), sent)
                    && sent_as("send_data"@, sent, r),
        },
    }
}

/// The time that is left until the deadline; none of it once the deadline has
/// passed.
pub fn time_left(deadline: u128, now: u128) -> (d: u128)
    ensures
        d == (if deadline > now {
            (deadline - now) as u128
        } else {
            0
        }),
{
    if deadline > now {
        deadline - now
    } else {
        0
    }
}

/// What a call with a deadline comes to, given its own outcome and the time. No
/// outcome means that the deadline came first. A call that was cancelled when its
/// deadline had passed ran out of time.
pub open spec fn within_deadline<T>(
    deadline: Option<u128>,
    outcome: Option<Result<T, Status>>,
    now: u128,
    r: Result<T, Status>,
) -> bool {
    match outcome {
        None => r matches Err(e) && e@ == deadline_passed(),
        Some(Ok(v)) => r == Ok::<T, Status>(v),
        Some(Err(fault)) => if deadline is Some && fault.code == Code::Cancelled && now
            >= deadline->0 {
            r matches Err(e) && e@ == deadline_passed()
        } else {
            r == Err::<T, Status>(fault)
        },
    }
}

/// The status of a streaming call whose deadline has passed.
pub open spec fn deadline_passed() -> StatusView {
    status(Code::DeadlineExceeded, "streaming RPC deadline exceeded"@)
}

/// Applies the deadline of a streaming call to its outcome; there is no outcome
/// if the deadline came first.
pub fn apply_deadline<T>(
    deadline: Option<u128>,
    outcome: Option<Result<T, Status>>,
    now: u128,
) -> (r: Result<T, Status>)
    requires
        deadline is None ==> outcome is Some,
    ensures
        within_deadline(deadline, outcome, now, r),
{
    match outcome {
        None => Err(Status::deadline_exceeded("streaming RPC deadline exceeded")),
        Some(Ok(v)) => Ok(v),
        Some(Err(fault)) => match deadline {
            Some(d) => if fault.code == Code::Cancelled && now >= d {
                Err(Status::deadline_exceeded("streaming RPC deadline exceeded"))
            } else {
                Err(fault)
            },
            None => Err(fault),
        },
    }
}

/// A policy by value.
pub open spec fn policy_of(policy: Option<&RetryPolicy>) -> Option<RetryPolicy> {
    match policy {
        Some(p) => Some(*p),
        None => None,
    }
}

/// How far a unary call has come.
#[derive(Debug, Clone, Copy, PartialEq, Eq, Structural)]
pub enum CallPhase {
    /// An attempt is being made.
    Attempting,
    /// The next attempt is waited for.
    Waiting,
    /// The call is over.
    Over,
}

/// A unary call: how far it has come, and the number of attempts that were begun.
#[derive(Debug)]
pub struct UnaryCall {
    phase: CallPhase,
    begun: usize,
}

/// A unary call, by view.
pub struct UnaryCallView {
    pub phase: CallPhase,
    pub begun: nat,
}

impl View for UnaryCall {
    type V = UnaryCallView;

    closed spec fn view(&self) -> UnaryCallView {
        UnaryCallView { phase: self.phase, begun: self.begun as nat }
    }
}

/// What happened to a unary call.
#[derive(Debug)]
pub enum CallEvent<T> {
    /// An attempt ended.
    Attempted(Result<T, Status>),
    /// The wait for the next attempt is over.
    Waited,
    /// The time limit of the call has passed.
    TimedOut,
}

/// What is to be done next for a unary call.
#[derive(Debug)]
pub enum CallAction<T> {
    /// Make an attempt.
    Attempt,
    /// Wait as long as the attempt with this number calls for.
    Wait(usize),
    /// Report this outcome.
    Return(Result<T, Status>),
}

/// Whether an event can happen to a call: attempts end while one is being made,
/// waits end while one is under way, and time runs out whenever the call is not
/// over.
pub open spec fn call_expects<T>(c: UnaryCallView, e: CallEvent<T>) -> bool {
    match e {
        CallEvent::Attempted(_) => c.phase == CallPhase::Attempting,
        CallEvent::Waited => c.phase == CallPhase::Waiting,
        CallEvent::TimedOut => c.phase != CallPhase::Over,
    }
}

/// Whether an attempt that failed with `code` is followed by another.
pub open spec fn tries_again(c: UnaryCallView, policy: Option<RetryPolicy>, code: Code) -> bool {
    retries_on(policy, code) && c.begun < attempts_allowed(policy)
}

/// A call after an event.
pub open spec fn call_next<T>(
    c: UnaryCallView,
    policy: Option<RetryPolicy>,
    e: CallEvent<T>,
) -> UnaryCallView {
    match e {
        CallEvent::Attempted(Err(fault)) => if tries_again(c, policy, fault.code) {
            UnaryCallView { phase: CallPhase::Waiting, begun: c.begun }
        } else {
            UnaryCallView { phase: CallPhase::Over, begun: c.begun }
        },
        CallEvent::Waited => UnaryCallView { phase: CallPhase::Attempting, begun: c.begun + 1 },
        _ => UnaryCallView { phase: CallPhase::Over, begun: c.begun },
    }
}

impl UnaryCall {
    /// A call whose first attempt is being made.
    pub fn new() -> (c: Self)
        ensures
            c@ == (UnaryCallView { phase: CallPhase::Attempting, begun: 1 }),
    {
        UnaryCall { phase: CallPhase::Attempting, begun: 1 }
    }

    /// Decides what follows an event.
    ///
    /// An attempt that failed is followed by another if the policy has the RPC
    /// tried again on that code and allows one more attempt; otherwise its
    /// status is the outcome of the call. Once the time limit has passed, no
    /// attempt is begun.
    pub fn call_unary<T>(&mut self, policy: Option<&RetryPolicy>, event: CallEvent<T>) -> (r:
        CallAction<T>)
        requires
            call_expects(old(self)@, event),
            old(self)@.begun <= attempts_allowed(policy_of(policy)),
            old(self)@.phase == CallPhase::Waiting ==> old(self)@.begun < attempts_allowed(
                policy_of(policy),
            ),
        ensures
            final(self)@ == call_next(old(self)@, policy_of(policy), event),
            final(self)@.begun <= attempts_allowed(policy_of(policy)),
            final(self)@.phase == CallPhase::Waiting ==> final(self)@.begun < attempts_allowed(
                policy_of(policy),
            ),
            match event {
                CallEvent::Attempted(Ok(v)) => r == CallAction::<T>::Return(Ok(v)),
                CallEvent::Attempted(Err(fault)) => if tries_again(
                    old(self)@,
                    policy_of(policy),
                    fault.code,
                ) {
                    r == CallAction::<T>::Wait(old(self)@.begun as usize)
                } else {
                    r == CallAction::<T>::Return(Err(fault))
                },
                CallEvent::Waited => r == CallAction::<T>::Attempt,
                CallEvent::TimedOut => r matches CallAction::Return(Err(e)) && e@ == status(
                    Code::DeadlineExceeded,
                    "RPC deadline exceeded"@,
                ),
            },
    {
        match event {
            CallEvent::Attempted(Ok(v)) => {
                self.phase = CallPhase::Over;
                CallAction::Return(Ok(v))
            },
            CallEvent::Attempted(Err(fault)) => {
                let again = match policy {
                    Some(p) => p.is_retryable(fault.code) && self.begun < p.attempts(),
                    None => false,
                };
                if again {
                    self.phase = CallPhase::Waiting;
                    CallAction::Wait(self.begun)
                } else {
                    self.phase = CallPhase::Over;
                    CallAction::Return(Err(fault))
                }
            },
            CallEvent::Waited => {
                self.phase = CallPhase::Attempting;
                self.begun = self.begun + 1;
                CallAction::Attempt
            },
            CallEvent::TimedOut => {
                self.phase = CallPhase::Over;
                CallAction::Return(Err(Status::deadline_exceeded("RPC deadline exceeded")))
            },
        }
    }
}

/// Whether the events can happen to a call one after another.
pub open spec fn is_call_course<T>(
    c: UnaryCallView,
    policy: Option<RetryPolicy>,
    events: Seq<CallEvent<T>>,
) -> bool
    decreases events.len(),
{
    events.len() > 0 ==> call_expects(c, events[0]) && is_call_course(
        call_next(c, policy, events[0]),
        policy,
        events.skip(1),
    )
}

/// A call after several events.
pub open spec fn call_after<T>(
    c: UnaryCallView,
    policy: Option<RetryPolicy>,
    events: Seq<CallEvent<T>>,
) -> UnaryCallView
    decreases events.len(),
{
    if events.len() == 0 {
        c
    } else {
        call_after(call_next(c, policy, events[0]), policy, events.skip(1))
    }
}

/// However a call goes, it makes no more attempts than its policy allows, which
/// is five at most, and one without a policy.
pub proof fn law_attempts_within_limit<T>(
    c: UnaryCallView,
    policy: Option<RetryPolicy>,
    events: Seq<CallEvent<T>>,
)
    requires
        is_call_course(c, policy, events),
        c.begun <= attempts_allowed(policy),
        c.phase == CallPhase::Waiting ==> c.begun < attempts_allowed(policy),
    ensures
        call_after(c, policy, events).begun <= attempts_allowed(policy) <= 5,
        policy is None ==> call_after(c, policy, events).begun <= 1,
    decreases events.len(),
{
    if events.len() > 0 {
        law_attempts_within_limit(call_next(c, policy, events[0]), policy, events.skip(1));
    }
}

/// Once the time limit of a call has passed, or its outcome was reported, nothing
/// more happens to it: no attempt starts after the deadline.
pub proof fn law_nothing_after_the_end<T>(
    c: UnaryCallView,
    policy: Option<RetryPolicy>,
    events: Seq<CallEvent<T>>,
)
    requires
        events.len() > 0,
        is_call_course(c, policy, events),
        events[0] is TimedOut || events[0] matches CallEvent::Attempted(Ok(_)),
    ensures
        events.len() == 1,
        call_after(c, policy, events).begun == c.begun,
{
    reveal_with_fuel(is_call_course, 2);
    reveal_with_fuel(call_after, 2);
}

/// A call whose every attempt fails with a code that is tried again is tried
/// exactly as often as the policy allows, and then fails with the status of the
/// last attempt. From the call `c` on, `events` are the failures and the waits
/// between them, in turn.
pub proof fn law_retries_are_exhausted<T>(
    c: UnaryCallView,
    policy: Option<RetryPolicy>,
    events: Seq<CallEvent<T>>,
)
    requires
        c.phase == CallPhase::Attempting,
        1 <= c.begun <= attempts_allowed(policy),
        events.len() == 2 * (attempts_allowed(policy) - c.begun) + 1,
        forall|i: int|
            0 <= i < events.len() && i % 2 == 0 ==> (#[trigger] events[i] matches
                CallEvent::Attempted(Err(fault)) && retries_on(policy, fault.code)),
        forall|i: int|
            0 <= i < events.len() && i % 2 == 1 ==> #[trigger] events[i] is Waited,
    ensures
        is_call_course(c, policy, events),
        call_after(c, policy, events) == (UnaryCallView {
            phase: CallPhase::Over,
            begun: attempts_allowed(policy),
        }),
    decreases attempts_allowed(policy) - c.begun,
{
    reveal_with_fuel(is_call_course, 3);
    reveal_with_fuel(call_after, 3);
    assert(events[0] matches CallEvent::Attempted(Err(fault)) && retries_on(policy, fault.code));
    if c.begun < attempts_allowed(policy) {
        let next = UnaryCallView { phase: CallPhase::Attempting, begun: c.begun + 1 };
        let rest = events.skip(2);
        assert(events.skip(1).skip(1) =~= rest);
        assert(events[1] is Waited);
        assert forall|i: int| 0 <= i < rest.len() && i % 2 == 0 implies (#[trigger] rest[i] matches
            CallEvent::Attempted(Err(fault)) && retries_on(policy, fault.code)) by {
            assert(rest[i] == events[i + 2]);
        }
        assert forall|i: int|
            0 <= i < rest.len() && i % 2 == 1 implies #[trigger] rest[i] is Waited by {
            assert(rest[i] == events[i + 2]);
        }
        law_retries_are_exhausted(next, policy, rest);
    }
}

/// A code that is not tried again ends the call at once, with that status.
pub proof fn law_other_codes_are_final<T>(
    c: UnaryCallView,
    policy: Option<RetryPolicy>,
    fault: Status,
)
    requires
        !retries_on(policy, fault.code),
    ensures
        call_next(c, policy, CallEvent::<T>::Attempted(Err(fault))).phase == CallPhase::Over,
{
}

/// Once a streaming call was cancelled, receiving and ending report `Cancelled`,
/// whatever arrives.
pub proof fn law_cancelled_call_reports_cancelled(c: CallView, event: Option<StreamEvent>)
    requires
        c.stream.cancelled,
    ensures
        recv_payload_of(c, event).1 == PayloadView::Failed(call_cancelled()),
        finish_of(c, event).1 == FinishView::Failed(call_cancelled()),
        call_cancelled().code == Code::Cancelled,
{
}

/// A call that is cancelled once its deadline has passed reports
/// `DeadlineExceeded`; before the deadline it reports what happened.
pub proof fn law_late_cancel_is_a_timeout<T>(
    deadline: u128,
    fault: Status,
    now: u128,
    r: Result<T, Status>,
)
    requires
        fault.code == Code::Cancelled,
        within_deadline(Some(deadline), Some(Err(fault)), now, r),
    ensures
        r is Err,
        now >= deadline ==> r->Err_0@.code == Code::DeadlineExceeded,
        now < deadline ==> r->Err_0 == fault,
{
}

/// What a streaming call came to is what it returns, a success and a failure alike: only a
/// call that was cancelled once its deadline had passed, and one that its deadline cut
/// short, fail with `DeadlineExceeded` in its place.
pub proof fn law_outcomes_are_returned_as_they_are<T>(
    deadline: Option<u128>,
    outcome: Option<Result<T, Status>>,
    now: u128,
    r: Result<T, Status>,
)
    requires
        call_ensures(apply_deadline::<T>, (deadline, outcome, now), r),
    ensures
        outcome matches Some(Ok(v)) ==> r == Ok::<T, Status>(v),
        outcome matches Some(Err(fault)) ==> fault.code != Code::Cancelled ==> r == Err::<
            T,
            Status,
        >(fault),
        outcome matches Some(Err(fault)) ==> (deadline matches Some(d) ==> now < d) ==> r == Err::<
            T,
            Status,
        >(fault),
        outcome matches Some(Err(fault)) ==> fault.code == Code::Cancelled ==> (deadline matches
            Some(d) ==> now >= d ==> (r matches Err(e) && e.code == Code::DeadlineExceeded
            && e.message@ == "streaming RPC deadline exceeded"@)),
        outcome is None ==> (r matches Err(e) && e.code == Code::DeadlineExceeded && e.message@
            == "streaming RPC deadline exceeded"@),
        r matches Err(e) ==> e.code == Code::DeadlineExceeded ==> outcome is None || (outcome
            matches Some(Err(fault)) && (fault.code == Code::DeadlineExceeded || (fault.code
            == Code::Cancelled && (deadline matches Some(d) && now >= d)))),
{
}

/// A call has as much time left as lies between now and its deadline, and none once that
/// has passed. Its deadline lies as far behind its beginning as its time limit says.
pub proof fn law_deadlines_and_time_left(
    now: u128,
    timeout: Option<Duration>,
    deadline: Option<u128>,
    at: u128,
    later: u128,
    left: u128,
)
    requires
        call_ensures(deadline_of, (now, timeout), deadline),
        timeout matches Some(d) ==> now + duration_nanos(d) <= u128::MAX,
        call_ensures(time_left, (at, later), left),
    ensures
        deadline is Some <==> timeout is Some,
        timeout matches Some(d) ==> (deadline matches Some(end) && end - now == duration_nanos(d)),
        later < at ==> later + left == at,
        later >= at ==> left == 0,
{
}

/// A call whose attempt succeeded returns what the attempt returned. One that failed is
/// tried again, after a wait, exactly if its code stands in the policy's list and neither
/// the policy's number of attempts nor five were begun; otherwise the call fails with the
/// very status of that attempt.
pub proof fn law_attempts_decide_the_call<T>(
    policy: Option<&RetryPolicy>,
    outcome: Result<T, Status>,
    r: CallAction<T>,
)
    ensures
        forall|c: &mut UnaryCall| #[trigger]
            call_ensures(
                UnaryCall::call_unary::<T>,
                (c, policy, CallEvent::Attempted(outcome)),
                r,
            ) && 1 <= (*c)@.begun <= usize::MAX ==> {
                let before = (*c)@;
                let after = (*final(c))@;
                &&& after.begun == before.begun
                &&& outcome matches Ok(v) ==> r == CallAction::<T>::Return(Ok(v)) && after.phase
                    == CallPhase::Over
                &&& outcome matches Err(fault) ==> {
                    let again = policy matches Some(p) && (exists|i: int|
                        0 <= i < p.retryable_codes@.len() && #[trigger] p.retryable_codes@[i]
                            == fault.code) && before.begun < p.max_attempts && before.begun < 5;
                    &&& again ==> after.phase == CallPhase::Waiting && (r matches
                        CallAction::Wait(n) && n == before.begun)
                    &&& !again ==> after.phase == CallPhase::Over && r == CallAction::<
                        T,
                    >::Return(Err(fault))
                }
            },
{
    if let Err(fault) = outcome {
        if let Some(p) = policy {
            assert(p.retryable_codes@.contains(fault.code) <==> exists|i: int|
                0 <= i < p.retryable_codes@.len() && #[trigger] p.retryable_codes@[i]
                    == fault.code);
        }
    }
}

/// After a wait the next attempt is made; once the time limit has passed the call fails
/// with `DeadlineExceeded`. A call begins with its first attempt.
pub proof fn law_waits_and_time_limits<T>(
    policy: Option<&RetryPolicy>,
    new: UnaryCall,
    r: CallAction<T>,
)
    ensures
        call_ensures(UnaryCall::new, (), new) ==> new@.phase == CallPhase::Attempting
            && new@.begun == 1,
        forall|c: &mut UnaryCall| #[trigger]
            call_ensures(UnaryCall::call_unary::<T>, (c, policy, CallEvent::Waited), r) ==> {
                &&& r is Attempt
                &&& (*final(c))@.phase == CallPhase::Attempting
                &&& (*final(c))@.begun == (*c)@.begun + 1
            },
        forall|c: &mut UnaryCall| #[trigger]
            call_ensures(UnaryCall::call_unary::<T>, (c, policy, CallEvent::TimedOut), r) ==> {
                &&& r matches CallAction::Return(Err(e)) && e.code == Code::DeadlineExceeded
                    && e.message@ == "RPC deadline exceeded"@
                &&& (*final(c))@.phase == CallPhase::Over
                &&& (*final(c))@.begun == (*c)@.begun
            },
{
}

/// A call is sent with all of its metadata that is legal as headers, and with its time
/// limit, if it has one, in place of any `grpc-timeout` of the metadata.
pub proof fn law_calls_are_sent_with_their_headers(
    md: &Metadata,
    timeout: Option<Duration>,
    m: HeaderMap,
    text: String,
    name: Seq<char>,
)
    requires
        call_ensures(call_headers, (md, timeout), Some(m)),
        timeout matches Some(d) ==> call_ensures(encode_timeout, (d,), text),
    ensures
        values_of(header_values(m), name) == if timeout is Some && name == "grpc-timeout"@ {
            seq![encode_utf8(text@)]
        } else {
            header_values_under(md@, name)
        },
{
    lemma_sent_values(md@, name);
}

/// Metadata of few enough pairs always becomes the headers of a call.
pub proof fn law_few_pairs_are_sent(
    md: &Metadata,
    timeout: Option<Duration>,
    r: Option<HeaderMap>,
)
    requires
        call_ensures(call_headers, (md, timeout), r),
        md@.len() <= 6553,
    ensures
        r is Some,
{
    law_few_pairs_fit(md@);
}

/// A unary request is the payload, as one message that is not compressed, and the headers
/// of the call. It fails only for a payload whose length cannot be sent.
pub proof fn law_unary_requests_are_framed(
    payload: &[u8],
    md: &Metadata,
    timeout: Option<Duration>,
    r: Result<(Bytes, Option<HeaderMap>), Status>,
    text: String,
    name: Seq<char>,
)
    requires
        call_ensures(unary_request, (payload, md, timeout), r),
        timeout matches Some(d) ==> call_ensures(encode_timeout, (d,), text),
    ensures
        !is_sendable_length(payload@.len()) ==> (r matches Err(e) && e.code
            == Code::ResourceExhausted),
        is_sendable_length(payload@.len()) ==> {
            &&& r matches Ok((f, _)) && is_on_the_wire(bytes_of(f), 0, payload@)
            &&& md@.len() <= 6553 ==> (r matches Ok((_, h)) && h is Some)
            &&& r matches Ok((_, Some(m))) ==> values_of(header_values(m), name) == if timeout
                is Some && name == "grpc-timeout"@ {
                seq![encode_utf8(text@)]
            } else {
                header_values_under(md@, name)
            }
        },
{
    lemma_sent_values(md@, name);
    if md@.len() <= 6553 {
        law_few_pairs_fit(md@);
    }
    if is_sendable_length(payload@.len()) {
        lemma_on_the_wire(0, payload@);
    }
}

/// A unary RPC fails with the very status that its trailers report, unless that is `OK`,
/// whatever else arrived. With `OK` it returns the body of the response message, up to four
/// mebibytes, and the user-defined trailers; without a response message it is an internal
/// error.
pub proof fn law_unary_outcomes(
    message: Option<&[u8]>,
    reported: Status,
    trailers: &HeaderMap,
    r: Result<(Vec<u8>, Metadata), Status>,
    f: Seq<u8>,
    flag: u8,
    body: Seq<u8>,
    rest: Seq<u8>,
    key: Seq<char>,
)
    requires
        call_ensures(unary_outcome, (message, reported, trailers), r),
        is_on_the_wire(f, flag, body),
        flag <= 1,
        body.len() <= u32::MAX,
    ensures
        reported.code != Code::OK ==> (r matches Err(e) && e.code == reported.code && e.message@
            == reported.message@),
        reported.code == Code::OK && message is None ==> (r matches Err(e) && e.code
            == Code::Internal && e.message@ == "server returned OK but sent no response body"@),
        reported.code == Code::OK ==> (message matches Some(m) ==> m@ == f + rest ==> {
            &&& body.len() > 4_194_304 ==> (r matches Err(e) && e.code == Code::ResourceExhausted)
            &&& body.len() <= 4_194_304 && flag == 1 ==> (r matches Err(e) && e.code
                == Code::Internal)
            &&& body.len() <= 4_194_304 && flag == 0 ==> {
                &&& r matches Ok((p, _)) && p@ == body
                &&& r matches Ok((_, md)) && values(md@, key) == kept_values(
                    header_values(*trailers),
                    key,
                )
            }
        }),
{
    let all = f + rest;
    assert(all[0] == f[0] && all[1] == f[1] && all[2] == f[2] && all[3] == f[3] && all[4] == f[4]);
    assert(all.subrange(5, f.len() as int) =~= f.skip(5));
    if let Ok((p, md)) = r {
        lemma_trailing_values(md@, header_values(*trailers), key);
    }
}

/// What is kept of headers under a key: nothing of the transport's own, and all ASCII text
/// of any other.
pub open spec fn kept_values(h: Headers, key: Seq<char>) -> Seq<Seq<char>> {
    if is_transport_name(key) {
        seq![]
    } else {
        text_values(values_of(h, key))
    }
}

/// Trailing metadata holds what is kept of the trailers.
pub proof fn lemma_trailing_values(md: Seq<(Seq<char>, Seq<char>)>, h: Headers, key: Seq<char>)
    ensures
        is_trailing(md, h) ==> values(md, key) == kept_values(h, key),
{
    lemma_user_keys(key);
    lemma_text_values(values_of(h, key));
    if is_trailing(md, h) {
        assert(values(md, key) == user_values(h, key));
    }
}

/// An exchange first awaits the response head. A head that is not that of a gRPC response
/// is an internal error, and a fault of the stream is reported as such; with any other head
/// the response message is awaited.
pub proof fn law_exchanges_begin_with_the_head(
    event: Option<StreamEvent>,
    p: Progress<(Vec<u8>, Metadata)>,
    new: UnaryExchange,
)
    ensures
        call_ensures(UnaryExchange::new, (), new) ==> new@.stage is Headers && new@.stream.head
            is Pending && new@.stream.reader.buf.len() == 0 && !new@.stream.reader.done
            && !new@.stream.cancelled,
        forall|x: &mut UnaryExchange| #[trigger]
            call_ensures(UnaryExchange::step, (x, event), p) ==> {
                let before = (*x)@;
                let after = (*final(x))@;
                before.stage is Headers && before.stream.head is Pending
                    && before.stream.reader.buf.len() == 0 && !before.stream.reader.done
                    && !before.stream.cancelled ==> {
                    &&& !(event matches Some(StreamEvent::Response(_))) ==> (p matches
                        Progress::Want(Input::Response))
                    &&& event matches Some(StreamEvent::Response(Err(f))) ==> (p matches
                        Progress::Ready(Err(e)) && e.code == (if f.cancelled {
                        Code::Cancelled
                    } else {
                        Code::Internal
                    }) && e.message@ == "await response headers"@ + ": "@ + f.text@)
                    &&& event matches Some(StreamEvent::Response(Ok(head))) ==> if is_grpc_head(
                        head.status,
                        header_values(head.headers),
                    ) {
                        &&& p matches Progress::Want(Input::Data)
                        &&& after.stage is Message
                        &&& after.stream.head == HeadView::Received(header_values(head.headers))
                        &&& after.stream.reader == before.stream.reader
                        &&& !after.stream.cancelled
                    } else {
                        p matches Progress::Ready(Err(e)) && e.code == Code::Internal
                    }
                }
            },
{
    if let Some(StreamEvent::Response(Ok(head))) = event {
        lemma_grpc_head(head.status, header_values(head.headers));
    }
}

/// An exchange that awaits the response message keeps the first message that is whole, and
/// goes on to the trailers; where the data ends without one, there is none. Of part of a
/// message the rest is awaited, and a message whose flag is not defined is an internal
/// error. Faults of the stream are reported as such.
pub proof fn law_exchanges_keep_the_message(
    data: Option<DataEvent>,
    p: Progress<(Vec<u8>, Metadata)>,
    f: Seq<u8>,
    flag: u8,
    body: Seq<u8>,
    rest: Seq<u8>,
    n: int,
    now: Seq<u8>,
    ended: bool,
)
    requires
        is_on_the_wire(f, flag, body),
        flag <= 1,
        body.len() <= u32::MAX,
        0 <= n < f.len(),
    ensures
        forall|x: &mut UnaryExchange| #[trigger]
            call_ensures(UnaryExchange::step, (x, data_event(data)), p) ==> {
                let before = (*x)@;
                let after = (*final(x))@;
                before.stage is Message && before.stream.head is Received
                    && !before.stream.cancelled ==> {
                    &&& after.stream.head == before.stream.head && !after.stream.cancelled
                    &&& takes_in(
                        before.stream.reader.buf,
                        before.stream.reader.done,
                        data,
                        now,
                        ended,
                    ) ==> {
                        &&& after.stream.reader.done == ended
                        &&& now == f + rest ==> {
                            &&& after.stage == StageView::Trailers(Some(f))
                            &&& after.stream.reader.buf == rest
                            &&& ended ==> (p matches Progress::Want(Input::Trailers))
                            &&& !ended ==> (p matches Progress::Want(Input::Data))
                        }
                        &&& now == f.take(n) && !ended ==> {
                            &&& p matches Progress::Want(Input::Data)
                            &&& after.stage is Message
                            &&& after.stream.reader.buf == now
                        }
                        &&& now.len() == 0 && ended ==> {
                            &&& p matches Progress::Want(Input::Trailers)
                            &&& after.stage == StageView::Trailers(None)
                        }
                        &&& now == f.take(n) && n > 0 && ended ==> (p matches Progress::Ready(
                            Err(e),
                        ) && e.code == Code::Internal && e.message@
                            == "unexpected EOF: incomplete gRPC message"@)
                        &&& now.len() >= 5 && now[0] > 1 ==> (p matches Progress::Ready(Err(e))
                            && e.code == Code::Internal)
                    }
                    &&& data matches Some(DataEvent::Data { bytes, released: Err(t) }) ==> (
                    p matches Progress::Ready(Err(e)) && e.code == Code::Internal && e.message@
                        == "release_capacity"@ + ": "@ + t@)
                    &&& data matches Some(DataEvent::Fault(fault)) ==> (p matches Progress::Ready(
                        Err(e),
                    ) && e.code == (if fault.cancelled {
                        Code::Cancelled
                    } else {
                        Code::Internal
                    }) && e.message@ == "recv data frame"@ + ": "@ + fault.text@)
                }
            },
{
    let all = f + rest;
    assert(all[0] == f[0] && all[1] == f[1] && all[2] == f[2] && all[3] == f[3] && all[4] == f[4]);
    assert(all.take(f.len() as int) =~= f);
    assert(all.skip(f.len() as int) =~= rest);
    lemma_part_of_a_message(f, flag, body, n);
}

/// The event of data, if there is any.
pub open spec fn data_event(data: Option<DataEvent>) -> Option<StreamEvent> {
    match data {
        Some(d) => Some(StreamEvent::Data(d)),
        None => None,
    }
}

/// An exchange that awaits the trailers drops further data. Its outcome is decided by the
/// trailers: trailers without a status are the error that they are, a status other than
/// `OK` is the failure of the RPC, and with `OK` the response message is what it returns.
pub proof fn law_exchanges_end_with_the_trailers(
    event: Option<StreamEvent>,
    p: Progress<(Vec<u8>, Metadata)>,
    trailers: HeaderMap,
    reported: Result<Status, Status>,
    f: Seq<u8>,
    body: Seq<u8>,
    key: Seq<char>,
)
    requires
        call_ensures(parse_grpc_status, (&trailers,), reported),
        is_on_the_wire(f, 0, body),
        body.len() <= 4_194_304,
    ensures
        forall|x: &mut UnaryExchange| #[trigger]
            call_ensures(UnaryExchange::step, (x, event), p) ==> {
                let before = (*x)@;
                let after = (*final(x))@;
                let decided = event matches Some(StreamEvent::Trailers(Ok(Some(m))))
                    && header_values(m) == header_values(trailers);
                before.stage is Trailers && before.stream.head is Received
                    && !before.stream.cancelled ==> {
                    &&& after.stage == before.stage
                    &&& !before.stream.reader.done ==> {
                        &&& event matches Some(
                            StreamEvent::Data(DataEvent::Data { released: Ok(_), .. }),
                        ) ==> (p matches Progress::Want(Input::Data)) && !after.stream.reader.done
                        &&& event matches Some(StreamEvent::Data(DataEvent::End)) ==> (p matches
                            Progress::Want(Input::Trailers)) && after.stream.reader.done
                        &&& event matches Some(
                            StreamEvent::Data(DataEvent::Data { bytes, released: Err(t) }),
                        ) ==> (p matches Progress::Ready(Err(e)) && e.code == Code::Internal
                            && e.message@ == "drain release_capacity"@ + ": "@ + t@)
                        &&& event matches Some(StreamEvent::Data(DataEvent::Fault(fault))) ==> (
                        p matches Progress::Ready(Err(e)) && e.code == (if fault.cancelled {
                            Code::Cancelled
                        } else {
                            Code::Internal
                        }) && e.message@ == "drain data"@ + ": "@ + fault.text@)
                    }
                    &&& before.stream.reader.done && decided ==> {
                        &&& reported matches Err(fault) ==> (p matches Progress::Ready(Err(e))
                            && e@ == fault@)
                        &&& reported matches Ok(s) ==> s.code != Code::OK ==> (p matches
                            Progress::Ready(Err(e)) && e@ == s@)
                        &&& reported matches Ok(s) ==> s.code == Code::OK && before.stage
                            == StageView::Trailers(None) ==> (p matches Progress::Ready(Err(e))
                            && e.code == Code::Internal)
                        &&& reported matches Ok(s) ==> s.code == Code::OK && before.stage
                            == StageView::Trailers(Some(f)) ==> (p matches Progress::Ready(
                            Ok((b, md)),
                        ) && b@ == body && values(md@, key) == kept_values(
                            header_values(trailers),
                            key,
                        ))
                    }
                    &&& before.stream.reader.done ==> (event matches Some(
                        StreamEvent::Trailers(Ok(None)),
                    ) ==> (p matches Progress::Ready(Err(e)) && e.code == Code::Internal
                        && e.message@ == "missing grpc-status header in trailers"@))
                    &&& before.stream.reader.done ==> (event matches Some(
                        StreamEvent::Trailers(Err(fault)),
                    ) ==> (p matches Progress::Ready(Err(e)) && e.code == (if fault.cancelled {
                        Code::Cancelled
                    } else {
                        Code::Internal
                    }) && e.message@ == "recv trailers"@ + ": "@ + fault.text@))
                }
            },
{
    lemma_wire_is_unique(f, 0, body);
    law_frame_round_trip(body, seq![], DEFAULT_MAX_RECV_SIZE as nat);
    assert(f + seq![] =~= f);
    if let Progress::Ready(Ok((b, md))) = p {
        lemma_trailing_values(md@, header_values(trailers), key);
    }
}

/// A streaming call receives the response head before anything else: a head that is not
/// that of a gRPC response is an internal error, and a fault of the stream is reported as
/// such. That holds for receiving a payload and for ending the call.
pub proof fn law_streaming_calls_begin_with_the_head(
    event: Option<StreamEvent>,
    p: Progress<Option<Vec<u8>>>,
    q: Progress<Metadata>,
    deadline: Option<u128>,
    new: StreamCall,
    read: Option<u128>,
)
    ensures
        call_ensures(StreamCall::new, (deadline,), new) ==> new@.deadline == deadline
            && !new@.headers_received && new@.stream.head is Pending
            && new@.stream.reader.buf.len() == 0 && !new@.stream.reader.done
            && !new@.stream.cancelled,
        call_ensures(StreamCall::deadline, (&new,), read) ==> read == new@.deadline,
        forall|c: &mut StreamCall| #[trigger]
            call_ensures(StreamCall::recv_payload, (c, event), p) ==> {
                let before = (*c)@;
                let after = (*final(c))@;
                &&& after.deadline == before.deadline
                &&& !before.headers_received && before.stream.head is Pending
                    && before.stream.reader.buf.len() == 0 && !before.stream.reader.done
                    && !before.stream.cancelled ==> {
                    &&& !(event matches Some(StreamEvent::Response(_))) ==> (p matches
                        Progress::Want(Input::Response))
                    &&& event matches Some(StreamEvent::Response(Err(f))) ==> (p matches
                        Progress::Ready(Err(e)) && e.code == (if f.cancelled {
                        Code::Cancelled
                    } else {
                        Code::Internal
                    }) && e.message@ == "await response headers"@ + ": "@ + f.text@)
                    &&& event matches Some(StreamEvent::Response(Ok(head))) ==> if is_grpc_head(
                        head.status,
                        header_values(head.headers),
                    ) {
                        &&& p matches Progress::Want(Input::Data)
                        &&& after.headers_received
                        &&& after.stream.head == HeadView::Received(header_values(head.headers))
                        &&& after.stream.reader == before.stream.reader
                        &&& !after.stream.cancelled
                    } else {
                        p matches Progress::Ready(Err(e)) && e.code == Code::Internal
                    }
                }
            },
        forall|c: &mut StreamCall| #[trigger]
            call_ensures(StreamCall::finish, (c, event), q) ==> {
                let before = (*c)@;
                let after = (*final(c))@;
                &&& after.deadline == before.deadline
                &&& !before.headers_received && before.stream.head is Pending
                    && !before.stream.reader.done && !before.stream.cancelled ==> {
                    &&& !(event matches Some(StreamEvent::Response(_))) ==> (q matches
                        Progress::Want(Input::Response))
                    &&& event matches Some(StreamEvent::Response(Err(f))) ==> (q matches
                        Progress::Ready(Err(e)) && e.code == (if f.cancelled {
                        Code::Cancelled
                    } else {
                        Code::Internal
                    }) && e.message@ == "await response headers"@ + ": "@ + f.text@)
                    &&& event matches Some(StreamEvent::Response(Ok(head))) ==> if is_grpc_head(
                        head.status,
                        header_values(head.headers),
                    ) {
                        &&& q matches Progress::Want(Input::Data)
                        &&& after.headers_received
                        &&& after.stream.head == HeadView::Received(header_values(head.headers))
                    } else {
                        q matches Progress::Ready(Err(e)) && e.code == Code::Internal
                    }
                }
            },
{
    if let Some(StreamEvent::Response(Ok(head))) = event {
        lemma_grpc_head(head.status, header_values(head.headers));
    }
}

/// Once the response head is there, a streaming call returns the body of each message as
/// soon as the message is whole. Of part of a message the rest is awaited, and a message
/// whose flag is not defined is an internal error. Faults of the stream are reported as
/// such, and a call that was cancelled reports so.
pub proof fn law_streaming_calls_receive_payloads(
    data: Option<DataEvent>,
    p: Progress<Option<Vec<u8>>>,
    f: Seq<u8>,
    flag: u8,
    body: Seq<u8>,
    rest: Seq<u8>,
    n: int,
    now: Seq<u8>,
    ended: bool,
)
    requires
        is_on_the_wire(f, flag, body),
        flag <= 1,
        body.len() <= u32::MAX,
        0 <= n < f.len(),
    ensures
        forall|c: &mut StreamCall| #[trigger]
            call_ensures(StreamCall::recv_payload, (c, data_event(data)), p) ==> {
                let before = (*c)@;
                let after = (*final(c))@;
                &&& before.stream.cancelled ==> (p matches Progress::Ready(Err(e)) && e.code
                    == Code::Cancelled)
                &&& before.stream.head is Rejected && !before.stream.cancelled ==> (p matches
                    Progress::Ready(Err(e)) && e.code == Code::Internal)
                &&& before.headers_received && before.stream.head is Received
                    && !before.stream.cancelled ==> {
                    &&& after.headers_received && after.stream.head == before.stream.head
                        && !after.stream.cancelled
                    &&& takes_in(
                        before.stream.reader.buf,
                        before.stream.reader.done,
                        data,
                        now,
                        ended,
                    ) ==> {
                        &&& after.stream.reader.done == ended
                        &&& now == f + rest ==> {
                            &&& is_payload_of(p, flag, body)
                            &&& after.stream.reader.buf == rest
                        }
                        &&& now == f.take(n) ==> awaits_the_rest(p, now, ended)
                            && after.stream.reader.buf == now
                        &&& now.len() >= 5 && now[0] > 1 ==> (p matches Progress::Ready(Err(e))
                            && e.code == Code::Internal)
                    }
                    &&& data matches Some(DataEvent::Data { bytes, released: Err(t) }) ==> (
                    p matches Progress::Ready(Err(e)) && e.code == Code::Internal && e.message@
                        == "release_capacity"@ + ": "@ + t@)
                    &&& data matches Some(DataEvent::Fault(fault)) ==> (p matches Progress::Ready(
                        Err(e),
                    ) && e.code == (if fault.cancelled {
                        Code::Cancelled
                    } else {
                        Code::Internal
                    }) && e.message@ == "recv data frame"@ + ": "@ + fault.text@)
                }
            },
{
    let all = f + rest;
    assert(all[0] == f[0] && all[1] == f[1] && all[2] == f[2] && all[3] == f[3] && all[4] == f[4]);
    assert(all.take(f.len() as int) =~= f);
    assert(all.skip(f.len() as int) =~= rest);
    lemma_part_of_a_message(f, flag, body, n);
    assert(f.skip(5) =~= f.subrange(5, f.len() as int));
}

/// Whether the payload of a message is returned: its body, if it is not compressed and has
/// no more than four mebibytes. A longer one is `ResourceExhausted`, and one that is
/// compressed an internal error.
pub open spec fn is_payload_of(p: Progress<Option<Vec<u8>>>, flag: u8, body: Seq<u8>) -> bool {
    if body.len() > 4_194_304 {
        p matches Progress::Ready(Err(e)) && e.code == Code::ResourceExhausted
    } else if flag == 0 {
        p matches Progress::Ready(Ok(Some(payload))) && payload@ == body
    } else {
        p matches Progress::Ready(Err(e)) && e.code == Code::Internal
    }
}

/// Receiving a message is receiving a payload and parsing it: the message is what the
/// payload is parsed as, a payload that holds none is an internal error, and in all else
/// the two do not differ.
pub proof fn law_messages_are_parsed_payloads<M, F: Fn(&[u8]) -> Result<M, String>>(
    event: Option<StreamEvent>,
    parse: F,
    p: Progress<Option<Vec<u8>>>,
    q: Progress<Option<M>>,
)
    ensures
        forall|c: &mut StreamCall, d: &mut StreamCall|
            #![trigger call_ensures(StreamCall::recv_payload, (c, event), p), call_ensures(
                StreamCall::recv_message::<M, F>,
                (d, event, parse),
                q,
            )]
            (*c)@ == (*d)@ && call_ensures(StreamCall::recv_payload, (c, event), p)
                && call_ensures(StreamCall::recv_message::<M, F>, (d, event, parse), q) ==> {
                &&& (*final(c))@ == (*final(d))@
                &&& p matches Progress::Want(i) ==> (q matches Progress::Want(j) && i == j)
                &&& p matches Progress::Ready(Ok(None)) ==> (q matches Progress::Ready(Ok(None)))
                &&& p matches Progress::Ready(Err(fault)) ==> (q matches Progress::Ready(Err(e))
                    && e@ == fault@)
                &&& p matches Progress::Ready(Ok(Some(payload))) ==> exists|
                    given: &[u8],
                    m: Result<M, String>,
                |
                    {
                        &&& #[trigger] call_ensures(parse, (given,), m)
                        &&& given@ == payload@
                        &&& m matches Ok(msg) ==> q == Progress::<Option<M>>::Ready(Ok(Some(msg)))
                        &&& m matches Err(fault) ==> (q matches Progress::Ready(Err(e)) && e.code
                            == Code::Internal && e.message@ == "proto decode"@ + ": "@ + fault@)
                    }
            },
{
    if let Progress::Ready(Ok(Some(payload))) = p {
        let r: Result<M, Status> = match q {
            Progress::Ready(Ok(Some(m))) => Ok(m),
            Progress::Ready(Err(e)) => Err(e),
            _ => arbitrary(),
        };
        if parsed(parse, payload@, r) {
            let (given, m) = choose|given: &[u8], m: Result<M, String>| #[trigger]
                call_ensures(parse, (given,), m) && given@ == payload@ && match m {
                    Ok(msg) => r == Ok::<M, Status>(msg),
                    Err(fault) => r is Err && r->Err_0@ == internal_at("proto decode"@, fault@),
                };
        }
    }
}

/// Ending a streaming call drops the data that is left, and then gives the user-defined
/// trailers if the status that they report is `OK`, and fails with that very status if it
/// is not. Trailers without a status are the error that they are, and faults are reported
/// as such.
pub proof fn law_streaming_calls_end_with_the_status(
    event: Option<StreamEvent>,
    p: Progress<Metadata>,
    trailers: HeaderMap,
    reported: Result<Status, Status>,
    key: Seq<char>,
)
    requires
        call_ensures(parse_grpc_status, (&trailers,), reported),
    ensures
        forall|c: &mut StreamCall| #[trigger]
            call_ensures(StreamCall::finish, (c, event), p) ==> {
                let before = (*c)@;
                let after = (*final(c))@;
                &&& before.stream.cancelled ==> (p matches Progress::Ready(Err(e)) && e.code
                    == Code::Cancelled)
                &&& before.stream.head is Rejected && !before.stream.cancelled ==> (p matches
                    Progress::Ready(Err(e)) && e.code == Code::Internal)
                &&& before.headers_received && before.stream.head is Received
                    && !before.stream.cancelled && !before.stream.reader.done ==> {
                    &&& event is None ==> (p matches Progress::Want(Input::Data))
                    &&& event matches Some(
                        StreamEvent::Data(DataEvent::Data { released: Ok(_), .. }),
                    ) ==> (p matches Progress::Want(Input::Data)) && after == before
                    &&& event matches Some(StreamEvent::Data(DataEvent::End)) ==> (p matches
                        Progress::Want(Input::Trailers)) && after.stream.reader.done
                    &&& event matches Some(
                        StreamEvent::Data(DataEvent::Data { bytes, released: Err(t) }),
                    ) ==> (p matches Progress::Ready(Err(e)) && e.code == Code::Internal
                        && e.message@ == "drain release_capacity"@ + ": "@ + t@)
                    &&& event matches Some(StreamEvent::Data(DataEvent::Fault(fault))) ==> (
                    p matches Progress::Ready(Err(e)) && e.code == (if fault.cancelled {
                        Code::Cancelled
                    } else {
                        Code::Internal
                    }) && e.message@ == "drain data"@ + ": "@ + fault.text@)
                }
                &&& before.headers_received && before.stream.head is Received
                    && !before.stream.cancelled && before.stream.reader.done ==> {
                    &&& event is None ==> (p matches Progress::Want(Input::Trailers))
                    &&& event matches Some(StreamEvent::Trailers(Ok(Some(m)))) ==> header_values(m)
                        == header_values(trailers) ==> match reported {
                        Err(fault) => p matches Progress::Ready(Err(e)) && e@ == fault@,
                        Ok(s) => if s.code == Code::OK {
                            p matches Progress::Ready(Ok(md)) && values(md@, key) == kept_values(
                                header_values(trailers),
                                key,
                            )
                        } else {
                            p matches Progress::Ready(Err(e)) && e@ == s@
                        },
                    }
                    &&& event matches Some(StreamEvent::Trailers(Ok(None))) ==> (p matches
                        Progress::Ready(Err(e)) && e.code == Code::Internal && e.message@
                        == "missing grpc-status header in trailers"@)
                    &&& event matches Some(StreamEvent::Trailers(Err(fault))) ==> (p matches
                        Progress::Ready(Err(e)) && e.code == (if fault.cancelled {
                        Code::Cancelled
                    } else {
                        Code::Internal
                    }) && e.message@ == "recv trailers"@ + ": "@ + fault.text@)
                }
            },
{
    if let Progress::Ready(Ok(md)) = p {
        lemma_trailing_values(md@, header_values(trailers), key);
    }
}

/// Cancelling a streaming call marks it as cancelled and changes nothing else.
pub proof fn law_cancelled_streaming_calls()
    ensures
        forall|c: &mut StreamCall| #[trigger]
            call_ensures(StreamCall::cancel, (c,), ()) ==> {
                &&& (*final(c))@.stream.cancelled
                &&& (*final(c))@.stream.head == (*c)@.stream.head
                &&& (*final(c))@.stream.reader == (*c)@.stream.reader
                &&& (*final(c))@.headers_received == (*c)@.headers_received
                &&& (*final(c))@.deadline == (*c)@.deadline
            },
{
}

/// A request message of a streaming call is serialized, and its bytes are sent as one
/// message that is not compressed and does not end the request. A message that cannot be
/// serialized, and one that cannot be sent, are internal errors with the fault's text.
pub proof fn law_request_messages_are_sent<
    M,
    F: Fn(&M) -> Result<Vec<u8>, String>,
    G: FnOnce(Bytes, bool) -> Result<(), String>,
>(req: &M, serialize: F, send: G, r: Result<(), Status>)
    ensures
        forall|c: &mut StreamCall| #[trigger]
            call_ensures(StreamCall::send_message::<M, F, G>, (c, req, serialize, send), r) ==> {
                &&& (*final(c))@ == (*c)@
                &&& exists|s: Result<Vec<u8>, String>|
                    {
                        &&& #[trigger] call_ensures(serialize, (req,), s)
                        &&& s matches Err(fault) ==> (r matches Err(e) && e.code == Code::Internal
                            && e.message@ == "proto encode"@ + ": "@ + fault@)
                        &&& s matches Ok(payload) ==> is_sendable_length(payload@.len())
                            ==> is_sent(payload@, send, r)
                    }
            },
{
    assert forall|c: &mut StreamCall| #[trigger]
        call_ensures(StreamCall::send_message::<M, F, G>, (c, req, serialize, send), r) implies {
        &&& (*final(c))@ == (*c)@
        &&& exists|s: Result<Vec<u8>, String>|
            {
                &&& #[trigger] call_ensures(serialize, (req,), s)
                &&& s matches Err(fault) ==> (r matches Err(e) && e.code == Code::Internal
                    && e.message@ == "proto encode"@ + ": "@ + fault@)
                &&& s matches Ok(payload) ==> is_sendable_length(payload@.len()) ==> is_sent(
                    payload@,
                    send,
                    r,
                )
            }
    } by {
        let s = choose|s: Result<Vec<u8>, String>| #[trigger]
            call_ensures(serialize, (req,), s) && sends(s, send, r);
        assert(call_ensures(serialize, (req,), s));
        if let Ok(payload) = s {
            if is_sendable_length(payload@.len()) {
                lemma_on_the_wire(0, payload@);
                let (data, sent) = choose|data: Bytes, sent: Result<(), String>|
                    bytes_of(data) == framed(COMPRESSION_NONE, payload@)->Ok_0
                        && #[trigger] call_ensures(send, (data, false), sent) && sent_as(
                        "send_data"@,
                        sent,
                        r,
                    );
                assert(call_ensures(send, (data, false), sent));
            }
        }
    }
}

/// Whether `r` reports what came of sending a payload, as one message that is not
/// compressed and does not end the request.
pub open spec fn is_sent<G: FnOnce(Bytes, bool) -> Result<(), String>>(
    payload: Seq<u8>,
    send: G,
    r: Result<(), Status>,
) -> bool {
    exists|data: Bytes, sent: Result<(), String>|
        {
            &&& is_on_the_wire(bytes_of(data), 0, payload)
            &&& #[trigger] call_ensures(send, (data, false), sent)
            &&& sent is Ok ==> r is Ok
            &&& sent matches Err(t) ==> (r matches Err(e) && e.code == Code::Internal
                && e.message@ == "send_data"@ + ": "@ + t@)
        }
}

/// Ending the request sends the end and no data; where that fails, it is an internal error
/// with the fault's text.
pub proof fn law_requests_are_ended<G: FnOnce(Bytes, bool) -> Result<(), String>>(
    send: G,
    r: Result<(), Status>,
)
    ensures
        forall|c: &mut StreamCall| #[trigger]
            call_ensures(StreamCall::close_send::<G>, (c, send), r) ==> {
                &&& (*final(c))@ == (*c)@
                &&& exists|none: Bytes, sent: Result<(), String>|
                    {
                        &&& bytes_of(none).len() == 0
                        &&& #[trigger] call_ensures(send, (none, true), sent)
                        &&& sent is Ok ==> r is Ok
                        &&& sent matches Err(t) ==> (r matches Err(e) && e.code == Code::Internal
                            && e.message@ == "finish_send"@ + ": "@ + t@)
                    }
            },
{
    assert forall|c: &mut StreamCall| #[trigger]
        call_ensures(StreamCall::close_send::<G>, (c, send), r) implies {
        &&& (*final(c))@ == (*c)@
        &&& exists|none: Bytes, sent: Result<(), String>|
            {
                &&& bytes_of(none).len() == 0
                &&& #[trigger] call_ensures(send, (none, true), sent)
                &&& sent is Ok ==> r is Ok
                &&& sent matches Err(t) ==> (r matches Err(e) && e.code == Code::Internal
                    && e.message@ == "finish_send"@ + ": "@ + t@)
            }
    } by {
        let (none, sent) = choose|none: Bytes, sent: Result<(), String>|
            bytes_of(none).len() == 0 && #[trigger] call_ensures(send, (none, true), sent)
                && sent_as("finish_send"@, sent, r);
        assert(call_ensures(send, (none, true), sent));
    }
}

/// A channel keeps its connection, its interceptors in the order in which they were added,
/// and its policy, if it was given one.
pub proof fn law_channels_keep_what_they_are_given<T, I>(
    transport: T,
    new: Channel<T, I>,
    channel: Channel<T, I>,
    policy: RetryPolicy,
    retrying: Channel<T, I>,
    interceptor: I,
    listed: &[I],
    connection: &T,
    held: Option<&RetryPolicy>,
)
    ensures
        call_ensures(Channel::<T, I>::new, (transport,), new) ==> new.connection() == transport
            && new.chain().len() == 0 && new.policy() is None,
        call_ensures(Channel::<T, I>::with_retry_policy, (channel, policy), retrying)
            ==> retrying.connection() == channel.connection() && retrying.chain()
            == channel.chain() && retrying.policy() == Some(policy),
        call_ensures(Channel::<T, I>::interceptors, (&channel,), listed) ==> listed@
            == channel.chain(),
        call_ensures(Channel::<T, I>::transport, (&channel,), connection) ==> *connection
            == channel.connection(),
        call_ensures(Channel::<T, I>::retry_policy, (&channel,), held) ==> match channel.policy() {
            Some(p) => held matches Some(q) && *q == p,
            None => held is None,
        },
        forall|c: &mut Channel<T, I>| #[trigger]
            call_ensures(Channel::<T, I>::add_interceptor, (c, interceptor), ()) ==> {
                &&& (*final(c)).chain() == (*c).chain().push(interceptor)
                &&& (*final(c)).connection() == (*c).connection()
                &&& (*final(c)).policy() == (*c).policy()
            },
{
}

/// A call and an exchange have room for so many bytes more exactly if no more than
/// `isize::MAX` are then held.
pub proof fn law_calls_know_their_room(
    c: &StreamCall,
    x: &UnaryExchange,
    s: &ClientStream,
    n: usize,
    room: bool,
)
    ensures
        call_ensures(StreamCall::has_room, (c, n), room) ==> (room <==> c@.stream.reader.buf.len()
            + n <= isize::MAX),
        call_ensures(UnaryExchange::has_room, (x, n), room) ==> (room
            <==> x@.stream.reader.buf.len() + n <= isize::MAX),
        call_ensures(ClientStream::has_room, (s, n), room) ==> (room <==> s@.reader.buf.len() + n
            <= isize::MAX),
{
}

} // verus!
