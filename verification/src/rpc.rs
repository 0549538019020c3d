//! What holds of an RPC as a whole, from the client through the server and back.

use crate::buffers::bytes_of;
use crate::client::{
    call_headers, call_headers_of, exchange_next, finish_of, recv_payload_of, unary_outcome,
    unary_request, unary_result, unwrapped, CallView, ExchangeProgress, ExchangeView, FinishView,
    PayloadView, StageView, StreamEvent,
};
use crate::codec::{
    body_len, decode_raw, decoded_plain, encode_raw, frame, framed, is_sendable_length,
    law_frame_round_trip, law_payloads_are_encoded, law_plain_messages_are_decoded,
    lemma_frame_parts, COMPRESSION_NONE, DEFAULT_MAX_RECV_SIZE, HEADER_LEN,
};
use crate::headers::{
    header_values, lemma_grpc_headers, no_headers, text_of, value_text, values_of, Headers,
};
use crate::metadata::{
    is_user_key, is_visible_char, law_header_round_trip, lemma_values_under, lemma_visible_text,
    sent_headers, survives, user_values, values, values_under, Metadata, Pairs,
};
use crate::server::{
    after_request, after_response, content_type, dispatch_fault, dispatch_unary, granted_nanos,
    route_fault, Handler, UnaryAction, UnaryActionView, UnaryEvent, UnaryState, UnaryStateView,
};
use crate::status::{status, Code, Status, StatusView};
use crate::text::has_prefix;
use crate::transport::client::{
    build_request, client_read_call, head_fault, law_status_round_trip, lemma_call_like_the_server,
    parse_grpc_status, parsed_status, recv_data, request_headers, ClientView, HeadView,
    ResponseHead,
};
use crate::transport::server::{
    build_trailers, fresh_reader, law_server_reads_the_stream, lemma_read_call, read_at,
    response_headers, trailer_headers,
};
use crate::transport::{
    concat, data_events, decode_timeout, duration_nanos, encode_timeout, first_frame_len, fits_unit,
    frames, header_fault, is_frame, joined, law_frames_of_encoded, law_timeout_round_trip,
    lemma_timeout_header, remainder, timeout_text, unit_nanos, DataEvent, Input, ReadView,
    ReaderView, HOUR, MICRO, MILLI, MINUTE, SECOND,
};
use bytes::Bytes;
use http::HeaderMap;
use std::time::Duration;
use vstd::prelude::*;
use vstd::utf8::*;

verus! {

/// Framing a payload and reading the frame gives the payload back, up to the
/// default size limit.
pub proof fn lemma_plain_frame(payload: Seq<u8>)
    requires
        payload.len() <= DEFAULT_MAX_RECV_SIZE,
    ensures
        framed(COMPRESSION_NONE, payload) == Ok::<Seq<u8>, StatusView>(
            frame(COMPRESSION_NONE, payload),
        ),
        decoded_plain(frame(COMPRESSION_NONE, payload), DEFAULT_MAX_RECV_SIZE as nat) == Ok::<
            Seq<u8>,
            StatusView,
        >(payload),
{
    law_frame_round_trip(payload, seq![], DEFAULT_MAX_RECV_SIZE as nat);
    assert(frame(COMPRESSION_NONE, payload) + seq![] =~= frame(COMPRESSION_NONE, payload));
}

/// The handler of a unary RPC gets the very payload that the client sent, and the
/// client gets the very payload that the handler returned.
pub proof fn law_payloads_survive(request: Seq<u8>, response: Seq<u8>)
    requires
        request.len() <= DEFAULT_MAX_RECV_SIZE,
        response.len() <= DEFAULT_MAX_RECV_SIZE,
    ensures
        after_request(frame(COMPRESSION_NONE, request)) == (
            UnaryStateView::Handling,
            UnaryActionView::Invoke(request),
        ),
        after_response(response) == (
            UnaryStateView::Opening(frame(COMPRESSION_NONE, response)),
            UnaryActionView::SendHeaders,
        ),
        unary_result(
            Some(frame(COMPRESSION_NONE, response)),
            status(Code::OK, seq![]),
        ) == Ok::<Seq<u8>, StatusView>(response),
{
    lemma_plain_frame(request);
    lemma_plain_frame(response);
}

/// The frames of payloads, in order.
pub open spec fn framed_all(payloads: Seq<Seq<u8>>) -> Seq<Seq<u8>> {
    payloads.map_values(|p: Seq<u8>| frame(COMPRESSION_NONE, p))
}

/// The messages of a stream arrive as they were sent: the data of their frames,
/// however it is cut into chunks, holds just these frames, in order, and each of
/// them gives its payload back.
pub proof fn law_streamed_messages_survive(payloads: Seq<Seq<u8>>)
    requires
        forall|i: int|
            0 <= i < payloads.len() ==> (#[trigger] payloads[i]).len() <= DEFAULT_MAX_RECV_SIZE,
    ensures
        frames(concat(framed_all(payloads))) == framed_all(payloads),
        remainder(concat(framed_all(payloads))) == Seq::<u8>::empty(),
        forall|i: int|
            0 <= i < payloads.len() ==> decoded_plain(
                #[trigger] framed_all(payloads)[i],
                DEFAULT_MAX_RECV_SIZE as nat,
            ) == Ok::<Seq<u8>, StatusView>(payloads[i]),
{
    let parts = framed_all(payloads);
    assert forall|i: int| 0 <= i < parts.len() implies is_frame(#[trigger] parts[i])
        && decoded_plain(parts[i], DEFAULT_MAX_RECV_SIZE as nat) == Ok::<Seq<u8>, StatusView>(
        payloads[i],
    ) by {
        assert(parts[i] == frame(COMPRESSION_NONE, payloads[i]));
        lemma_plain_frame(payloads[i]);
    }
    law_frames_of_encoded(parts);
}

/// A server that receives the framed payloads of a request, cut into chunks of any
/// sizes, and the end of the data, reads the frame of each payload, in order, which
/// gives the payload back, and then none, however often it is asked.
pub proof fn law_streamed_request_reaches_the_server(
    chunks: Seq<Bytes>,
    payloads: Seq<Seq<u8>>,
    n: nat,
)
    requires
        forall|i: int|
            0 <= i < payloads.len() ==> (#[trigger] payloads[i]).len() <= DEFAULT_MAX_RECV_SIZE,
        joined(chunks) == concat(framed_all(payloads)),
    ensures
        ({
            let v = read_at(fresh_reader(), data_events(chunks), n);
            &&& n < payloads.len() ==> (v matches ReadView::Message(f) && decoded_plain(
                f,
                DEFAULT_MAX_RECV_SIZE as nat,
            ) == Ok::<Seq<u8>, StatusView>(payloads[n as int]))
            &&& n >= payloads.len() ==> v is End
        }),
{
    let parts = framed_all(payloads);
    law_streamed_messages_survive(payloads);
    assert forall|i: int| 0 <= i < parts.len() implies is_frame(#[trigger] parts[i]) by {
        assert(parts[i] == frame(COMPRESSION_NONE, payloads[i]));
    }
    assert(concat(parts) + seq![] =~= concat(parts));
    law_server_reads_the_stream(chunks, parts, seq![], n);
}

/// The head of a response as the server sends it is one that the client accepts.
pub proof fn law_response_head_is_accepted()
    ensures
        head_fault(200, response_headers(no_headers())) is None,
{
    let h = response_headers(no_headers());
    let text = "application/grpc"@;
    lemma_application_grpc();
    assert(values_of(h, "content-type"@) =~= seq![encode_utf8(text)]);
    assert(text.take(text.len() as int) =~= text);
    assert(has_prefix(text, text));
}

/// An exchange whose request was sent.
pub open spec fn begun() -> ExchangeView {
    ExchangeView {
        stream: ClientView {
            head: HeadView::Pending,
            reader: ReaderView { buf: seq![], done: false },
            cancelled: false,
        },
        stage: StageView::Headers,
    }
}

/// An exchange that awaits the trailers, after the response message, if there was
/// one.
pub open spec fn ending(message: Option<Seq<u8>>) -> ExchangeView {
    ExchangeView {
        stream: ClientView {
            head: HeadView::Received(response_headers(no_headers())),
            reader: ReaderView { buf: seq![], done: true },
            cancelled: false,
        },
        stage: StageView::Trailers(message),
    }
}

/// The event of a chunk of data.
pub open spec fn chunk_event(chunk: Bytes) -> Option<StreamEvent> {
    Some(StreamEvent::Data(DataEvent::Data { bytes: chunk, released: Ok(()) }))
}

/// An exchange after chunks of data have arrived, one after another.
pub open spec fn after_chunks(x: ExchangeView, chunks: Seq<Bytes>) -> ExchangeView
    decreases chunks.len(),
{
    if chunks.len() == 0 {
        x
    } else {
        after_chunks(exchange_next(x, chunk_event(chunks[0])).0, chunks.skip(1))
    }
}

/// Whether an exchange asks for more data after each of the chunks.
pub open spec fn wants_more(x: ExchangeView, chunks: Seq<Bytes>) -> bool
    decreases chunks.len(),
{
    chunks.len() > 0 ==> {
        let (next, p) = exchange_next(x, chunk_event(chunks[0]));
        p == ExchangeProgress::Want(Input::Data) && wants_more(next, chunks.skip(1))
    }
}

/// An exchange that has the response headers and `buf` of the response.
pub open spec fn reading(buf: Seq<u8>) -> ExchangeView {
    ExchangeView {
        stream: ClientView {
            head: HeadView::Received(response_headers(no_headers())),
            reader: ReaderView { buf, done: false },
            cancelled: false,
        },
        stage: StageView::Message,
    }
}

/// An exchange that has the whole response message.
pub open spec fn complete(message: Seq<u8>) -> ExchangeView {
    ExchangeView {
        stream: ClientView {
            head: HeadView::Received(response_headers(no_headers())),
            reader: ReaderView { buf: seq![], done: false },
            cancelled: false,
        },
        stage: StageView::Trailers(Some(message)),
    }
}

/// A proper prefix of a frame holds no frame; the frame holds itself and nothing
/// more.
proof fn lemma_frame_prefix(payload: Seq<u8>, buf: Seq<u8>, rest: Seq<u8>)
    requires
        payload.len() <= DEFAULT_MAX_RECV_SIZE,
        buf + rest == frame(COMPRESSION_NONE, payload),
    ensures
        header_fault(buf) is None,
        rest.len() > 0 ==> first_frame_len(buf) is None,
        rest.len() == 0 ==> buf == frame(COMPRESSION_NONE, payload) && first_frame_len(buf) == Some(
            buf.len(),
        ),
{
    let f = frame(COMPRESSION_NONE, payload);
    lemma_frame_parts(COMPRESSION_NONE, payload);
    if buf.len() >= HEADER_LEN {
        let all = buf + rest;
        assert(all[0] == buf[0] && all[1] == buf[1] && all[2] == buf[2] && all[3] == buf[3]
            && all[4] == buf[4]);
        assert(body_len(buf) == body_len(f));
    }
    if rest.len() == 0 {
        assert(buf + rest =~= buf);
    }
}

/// However a response is cut into chunks, an exchange that receives them ends up
/// with the whole message.
proof fn lemma_chunks_complete(x: ExchangeView, payload: Seq<u8>, buf: Seq<u8>, chunks: Seq<Bytes>)
    requires
        payload.len() <= DEFAULT_MAX_RECV_SIZE,
        buf + joined(chunks) == frame(COMPRESSION_NONE, payload),
        if joined(chunks).len() > 0 {
            x == reading(buf)
        } else {
            x == complete(frame(COMPRESSION_NONE, payload))
        },
    ensures
        wants_more(x, chunks),
        after_chunks(x, chunks) == complete(frame(COMPRESSION_NONE, payload)),
    decreases chunks.len(),
{
    let f = frame(COMPRESSION_NONE, payload);
    if chunks.len() > 0 {
        let chunk = bytes_of(chunks[0]);
        let rest = joined(chunks.skip(1));
        let (next, p) = exchange_next(x, chunk_event(chunks[0]));
        assert((buf + chunk) + rest =~= buf + joined(chunks));
        if joined(chunks).len() > 0 {
            lemma_frame_prefix(payload, buf + chunk, rest);
            if rest.len() == 0 {
                assert((buf + chunk).take(f.len() as int) =~= f);
                assert((buf + chunk).skip(f.len() as int) =~= seq![]);
                assert(next == complete(f));
            } else {
                assert(next == reading(buf + chunk));
            }
        } else {
            assert(chunk.len() == 0 && rest.len() == 0);
            assert(next == x);
        }
        lemma_chunks_complete(next, payload, buf + chunk, chunks.skip(1));
    }
}

/// A client that receives what the server sends for a successful unary RPC
/// returns the handler's response: response headers, the framed response cut into
/// chunks of any sizes, the end of the data, trailers with the status `OK`.
pub proof fn law_response_reaches_the_client(
    head: ResponseHead,
    chunks: Seq<Bytes>,
    trailers: HeaderMap,
    response: Seq<u8>,
)
    requires
        head.status == 200,
        header_values(head.headers) == response_headers(no_headers()),
        response.len() <= DEFAULT_MAX_RECV_SIZE,
        joined(chunks) == frame(COMPRESSION_NONE, response),
        header_values(trailers) == trailer_headers(status(Code::OK, seq![]), no_headers()),
    ensures
        ({
            let (x1, p1) = exchange_next(begun(), Some(StreamEvent::Response(Ok(head))));
            let x2 = after_chunks(x1, chunks);
            let (x3, p3) = exchange_next(x2, Some(StreamEvent::Data(DataEvent::End)));
            let (x4, p4) = exchange_next(x3, Some(StreamEvent::Trailers(Ok(Some(trailers)))));
            &&& p1 == ExchangeProgress::Want(Input::Data)
            &&& wants_more(x1, chunks)
            &&& p3 == ExchangeProgress::Want(Input::Trailers)
            &&& p4 == ExchangeProgress::Done(Ok(response), header_values(trailers))
        }),
{
    law_response_head_is_accepted();
    lemma_plain_frame(response);
    lemma_frame_parts(COMPRESSION_NONE, response);
    law_status_round_trip(status(Code::OK, seq![]), no_headers());
    let f = frame(COMPRESSION_NONE, response);
    let (x1, p1) = exchange_next(begun(), Some(StreamEvent::Response(Ok(head))));
    assert(x1 == reading(seq![]));
    assert(seq![] + joined(chunks) =~= f);
    lemma_chunks_complete(x1, response, seq![], chunks);
    let x2 = after_chunks(x1, chunks);
    assert(x2 == complete(f));
    let (x3, p3) = exchange_next(x2, Some(StreamEvent::Data(DataEvent::End)));
    assert(x3 == ending(Some(f)));
}

/// A client that receives what the server sends for a unary RPC that failed
/// (response headers, the end of the data, trailers with the status) returns that
/// status, code and message.
pub proof fn law_error_reaches_the_client(
    head: ResponseHead,
    trailers: HeaderMap,
    s: StatusView,
)
    requires
        head.status == 200,
        header_values(head.headers) == response_headers(no_headers()),
        s.code != Code::OK,
        header_values(trailers) == trailer_headers(s, no_headers()),
    ensures
        ({
            let (x1, p1) = exchange_next(begun(), Some(StreamEvent::Response(Ok(head))));
            let (x2, p2) = exchange_next(x1, Some(StreamEvent::Data(DataEvent::End)));
            let (x3, p3) = exchange_next(x2, Some(StreamEvent::Trailers(Ok(Some(trailers)))));
            &&& p1 == ExchangeProgress::Want(Input::Data)
            &&& p2 == ExchangeProgress::Want(Input::Trailers)
            &&& p3 == ExchangeProgress::Done(Err(s), header_values(trailers))
        }),
{
    law_response_head_is_accepted();
    law_status_round_trip(s, no_headers());
    let (x1, p1) = exchange_next(begun(), Some(StreamEvent::Response(Ok(head))));
    assert(x1 == reading(seq![]));
    let (x2, p2) = exchange_next(x1, Some(StreamEvent::Data(DataEvent::End)));
    assert(x2 == ending(None));
}

/// One receipt of a payload, event by event: as long as more is wanted, the next
/// pending event is handed in. Gives the call and the pending events afterwards, and
/// what the receipt came to.
pub open spec fn payload_call(
    c: CallView,
    event: Option<StreamEvent>,
    pending: Seq<StreamEvent>,
) -> (CallView, Seq<StreamEvent>, PayloadView)
    decreases pending.len(),
{
    let (next, v) = recv_payload_of(c, event);
    if v is Want && pending.len() > 0 {
        payload_call(next, Some(pending[0]), pending.skip(1))
    } else {
        (next, pending, v)
    }
}

/// What ending a call comes to, event by event: as long as more is wanted, the next
/// pending event is handed in.
pub open spec fn finish_call(
    c: CallView,
    event: Option<StreamEvent>,
    pending: Seq<StreamEvent>,
) -> FinishView
    decreases pending.len(),
{
    let (next, v) = finish_of(c, event);
    if v is Want && pending.len() > 0 {
        finish_call(next, Some(pending[0]), pending.skip(1))
    } else {
        v
    }
}

/// A call and the pending events after `n` receipts of a payload.
pub open spec fn after_receipts(c: CallView, pending: Seq<StreamEvent>, n: nat) -> (
    CallView,
    Seq<StreamEvent>,
)
    decreases n,
{
    if n == 0 {
        (c, pending)
    } else {
        let (next, left, v) = payload_call(c, None, pending);
        after_receipts(next, left, (n - 1) as nat)
    }
}

/// What the receipt with number `n`, the first being 0, comes to.
pub open spec fn payload_at(c: CallView, pending: Seq<StreamEvent>, n: nat) -> PayloadView {
    let (next, left) = after_receipts(c, pending, n);
    payload_call(next, None, left).2
}

/// What ending a call after `n` receipts comes to.
pub open spec fn finish_after(c: CallView, pending: Seq<StreamEvent>, n: nat) -> FinishView {
    let (next, left) = after_receipts(c, pending, n);
    finish_call(next, None, left)
}

/// Whether a streaming call was just begun.
pub open spec fn is_new_call(c: CallView) -> bool {
    &&& !c.headers_received
    &&& c.stream.head is Pending
    &&& c.stream.reader == fresh_reader()
    &&& !c.stream.cancelled
}

/// Data events as events of a client stream.
pub open spec fn stream_events(events: Seq<DataEvent>) -> Seq<StreamEvent> {
    events.map_values(|e: DataEvent| StreamEvent::Data(e))
}

/// What arrives of a response: its head, the chunks of data and their end, and the
/// trailers.
pub open spec fn response_events(
    head: ResponseHead,
    chunks: Seq<Bytes>,
    trailers: HeaderMap,
) -> Seq<StreamEvent> {
    seq![StreamEvent::Response(Ok(head))] + stream_events(data_events(chunks)) + seq![
        StreamEvent::Trailers(Ok(Some(trailers))),
    ]
}

/// A new streaming call that receives what the server sends (a response head that it
/// accepts, the framed payloads, cut into chunks of any sizes, the end of the data,
/// trailers with a status) returns each payload, in order, and then none, however
/// often it is asked.
///
/// Whenever it is ended, it gives the trailing metadata if the status is `OK`, and
/// fails with the status, code and message, otherwise. A status without a message
/// needs trailers without another `grpc-message`.
pub proof fn law_streamed_response_reaches_the_client(
    c: CallView,
    head: ResponseHead,
    chunks: Seq<Bytes>,
    trailers: HeaderMap,
    payloads: Seq<Seq<u8>>,
    s: StatusView,
    extra: Headers,
    n: nat,
)
    requires
        is_new_call(c),
        head_fault(head.status, header_values(head.headers)) is None,
        forall|i: int|
            0 <= i < payloads.len() ==> (#[trigger] payloads[i]).len() <= DEFAULT_MAX_RECV_SIZE,
        joined(chunks) == concat(framed_all(payloads)),
        header_values(trailers) == trailer_headers(s, extra),
        s.message.len() > 0 || values_of(extra, "grpc-message"@).len() == 0,
    ensures
        ({
            let events = response_events(head, chunks, trailers);
            &&& n < payloads.len() ==> payload_at(c, events, n) == PayloadView::Payload(
                payloads[n as int],
            )
            &&& n >= payloads.len() ==> payload_at(c, events, n) == PayloadView::End
            &&& s.code == Code::OK ==> finish_after(c, events, n) == FinishView::Done(
                header_values(trailers),
            )
            &&& s.code != Code::OK ==> finish_after(c, events, n) == FinishView::Failed(s)
        }),
{
    let h = header_values(head.headers);
    let events = response_events(head, chunks, trailers);
    let rest = stream_events(data_events(chunks)) + seq![
        StreamEvent::Trailers(Ok(Some(trailers))),
    ];
    let received = CallView {
        stream: ClientView { head: HeadView::Received(h), ..c.stream },
        headers_received: true,
        ..c
    };
    law_streamed_messages_survive(payloads);
    law_status_round_trip(s, extra);
    assert(seq![] + joined(chunks) =~= joined(chunks));
    assert(on_course(received, h, rest, chunks, framed_all(payloads), trailers));
    lemma_on_course(received, h, rest, chunks, framed_all(payloads), trailers, s, n);
    assert(events[0] == StreamEvent::Response(Ok(head)));
    assert(events.skip(1) =~= rest);
    lemma_head_is_awaited(c, head, rest, events);
    assert(n > 0 ==> after_receipts(c, events, n) == after_receipts(received, rest, n));
    if n < payloads.len() {
        assert(framed_all(payloads)[n as int] == frame(COMPRESSION_NONE, payloads[n as int]));
    }
}

/// A new call first awaits the response head, and then goes on as a call that has it.
proof fn lemma_head_is_awaited(
    c: CallView,
    head: ResponseHead,
    rest: Seq<StreamEvent>,
    events: Seq<StreamEvent>,
)
    requires
        is_new_call(c),
        head_fault(head.status, header_values(head.headers)) is None,
        events.len() > 0,
        events[0] == StreamEvent::Response(Ok(head)),
        events.skip(1) == rest,
    ensures
        ({
            let received = CallView {
                stream: ClientView {
                    head: HeadView::Received(header_values(head.headers)),
                    ..c.stream
                },
                headers_received: true,
                ..c
            };
            &&& payload_call(c, None, events) == payload_call(received, None, rest)
            &&& finish_call(c, None, events) == finish_call(received, None, rest)
        }),
{
    let received = CallView {
        stream: ClientView {
            head: HeadView::Received(header_values(head.headers)),
            ..c.stream
        },
        headers_received: true,
        ..c
    };
    let e = Some(StreamEvent::Response(Ok(head)));
    assert(recv_payload_of(c, None) == (c, PayloadView::Want(Input::Response)));
    assert(recv_payload_of(c, e) == recv_payload_of(received, None));
    assert(payload_call(c, e, rest) == payload_call(received, None, rest));
    assert(finish_of(c, None) == (c, FinishView::Want(Input::Response)));
    assert(finish_of(c, e) == finish_of(received, None));
    assert(finish_call(c, e, rest) == finish_call(received, None, rest));
}

/// Whether a call that has the response headers `h` is still to receive the messages
/// `parts`, and then the trailers: `left` are the chunks among the pending events,
/// unless all data has arrived.
spec fn on_course(
    c: CallView,
    h: Headers,
    pending: Seq<StreamEvent>,
    left: Seq<Bytes>,
    parts: Seq<Seq<u8>>,
    trailers: HeaderMap,
) -> bool {
    let end = seq![StreamEvent::Trailers(Ok(Some(trailers)))];
    let reader = c.stream.reader;
    &&& c.headers_received
    &&& c.stream.head == HeadView::Received(h)
    &&& !c.stream.cancelled
    &&& if reader.done {
        pending == end && reader.buf.len() == 0 && parts.len() == 0
    } else {
        &&& pending == stream_events(data_events(left)) + end
        &&& frames(reader.buf + joined(left)) == parts
        &&& remainder(reader.buf + joined(left)) == Seq::<u8>::empty()
    }
}

/// A call on its course receives the messages in order, and then none; ended at any
/// time, it comes to what the status of the trailers says.
proof fn lemma_on_course(
    c: CallView,
    h: Headers,
    pending: Seq<StreamEvent>,
    left: Seq<Bytes>,
    parts: Seq<Seq<u8>>,
    trailers: HeaderMap,
    s: StatusView,
    n: nat,
)
    requires
        on_course(c, h, pending, left, parts, trailers),
        parsed_status(header_values(trailers)) == Ok::<StatusView, StatusView>(s),
    ensures
        payload_at(c, pending, n) == if n < parts.len() {
            unwrapped(ReadView::Message(parts[n as int]))
        } else {
            PayloadView::End
        },
        finish_after(c, pending, n) == outcome_of(s, header_values(trailers)),
    decreases n,
{
    let rest = lemma_receipt(c, h, pending, left, parts, trailers);
    if n == 0 {
        lemma_finish(c, h, pending, left, parts, trailers, s);
    } else {
        let (next, later, v) = payload_call(c, None, pending);
        let m = (n - 1) as nat;
        let others = parts.skip(1);
        if parts.len() > 0 {
            lemma_on_course(next, h, later, rest, others, trailers, s, m);
            assert(n < parts.len() ==> others[m as int] == parts[n as int]);
        } else {
            lemma_on_course(next, h, later, rest, parts, trailers, s, m);
        }
    }
}

/// What ending a call comes to, given the status and the trailers.
spec fn outcome_of(s: StatusView, trailers: Headers) -> FinishView {
    if s.code == Code::OK {
        FinishView::Done(trailers)
    } else {
        FinishView::Failed(s)
    }
}

/// One receipt of a call on its course gives the next message, if there is one, and
/// leaves the call on its course. Returns the chunks that are still pending.
proof fn lemma_receipt(
    c: CallView,
    h: Headers,
    pending: Seq<StreamEvent>,
    left: Seq<Bytes>,
    parts: Seq<Seq<u8>>,
    trailers: HeaderMap,
) -> (rest: Seq<Bytes>)
    requires
        on_course(c, h, pending, left, parts, trailers),
    ensures
        ({
            let (next, later, v) = payload_call(c, None, pending);
            if parts.len() > 0 {
                &&& v == unwrapped(ReadView::Message(parts[0]))
                &&& on_course(next, h, later, rest, parts.skip(1), trailers)
            } else {
                &&& v is End
                &&& on_course(next, h, later, rest, parts, trailers)
            }
        }),
{
    let reader = c.stream.reader;
    if reader.done {
        assert(reader.buf =~= seq![]);
        assert(recv_data(c.stream, None) == (reader, ReadView::End));
        assert(recv_payload_of(c, None) == (c, PayloadView::End));
        left
    } else {
        let data = data_events(left);
        let end = seq![StreamEvent::Trailers(Ok(Some(trailers)))];
        let rest = lemma_read_call(reader, None, reader, left);
        assert forall|i: int| 0 <= i < data.len() implies !(#[trigger] data[i] is Fault) by {}
        lemma_call_like_the_server(c.stream, None, data);
        let (next, later, v) = client_read_call(c.stream, None, data);
        lemma_payload_call(c, None, data, end);
        if parts.len() == 0 {
            assert(later.len() == 0 ==> stream_events(later) + end =~= end);
        }
        rest
    }
}

/// Once the response headers are there, a receipt that the data at hand decides
/// comes to what a read of the stream does.
proof fn lemma_payload_call(
    c: CallView,
    event: Option<DataEvent>,
    data: Seq<DataEvent>,
    end: Seq<StreamEvent>,
)
    requires
        c.headers_received,
        !(client_read_call(c.stream, event, data).2 is Want),
    ensures
        ({
            let (stream, left, v) = client_read_call(c.stream, event, data);
            let e = match event {
                Some(d) => Some(StreamEvent::Data(d)),
                None => None,
            };
            payload_call(c, e, stream_events(data) + end) == (
                CallView { stream, ..c },
                stream_events(left) + end,
                unwrapped(v),
            )
        }),
    decreases data.len(),
{
    let (reader, v) = recv_data(c.stream, event);
    let next = CallView { stream: ClientView { reader, ..c.stream }, ..c };
    let pending = stream_events(data) + end;
    if v is Want {
        assert(pending[0] == StreamEvent::Data(data[0]));
        assert(pending.skip(1) =~= stream_events(data.skip(1)) + end);
        lemma_payload_call(next, Some(data[0]), data.skip(1), end);
    }
}

/// Ending a call on its course drops the messages that are left and comes to what
/// the status of the trailers says.
proof fn lemma_finish(
    c: CallView,
    h: Headers,
    pending: Seq<StreamEvent>,
    left: Seq<Bytes>,
    parts: Seq<Seq<u8>>,
    trailers: HeaderMap,
    s: StatusView,
)
    requires
        on_course(c, h, pending, left, parts, trailers),
        parsed_status(header_values(trailers)) == Ok::<StatusView, StatusView>(s),
    ensures
        finish_call(c, None, pending) == outcome_of(s, header_values(trailers)),
{
    if c.stream.reader.done {
        lemma_last_event(c, None, trailers, s);
    } else {
        lemma_drained(c, None, left, trailers, s);
    }
}

/// A call that awaits the trailers ends with them.
proof fn lemma_last_event(
    c: CallView,
    event: Option<StreamEvent>,
    trailers: HeaderMap,
    s: StatusView,
)
    requires
        finish_of(c, event).1 is Want,
        ({
            let next = finish_of(c, event).0;
            &&& next.headers_received
            &&& next.stream.head is Received
            &&& next.stream.reader.done
            &&& !next.stream.cancelled
        }),
        parsed_status(header_values(trailers)) == Ok::<StatusView, StatusView>(s),
    ensures
        finish_call(c, event, seq![StreamEvent::Trailers(Ok(Some(trailers)))]) == outcome_of(
            s,
            header_values(trailers),
        ),
{
    let pending = seq![StreamEvent::Trailers(Ok(Some(trailers)))];
    let next = finish_of(c, event).0;
    assert(finish_of(next, Some(pending[0])).1 == outcome_of(s, header_values(trailers)));
    assert(finish_call(next, Some(pending[0]), pending.skip(1)) == outcome_of(
        s,
        header_values(trailers),
    ));
}

/// A call that drops what is left of the data ends with the trailers after it.
proof fn lemma_drained(
    c: CallView,
    event: Option<StreamEvent>,
    left: Seq<Bytes>,
    trailers: HeaderMap,
    s: StatusView,
)
    requires
        c.headers_received,
        c.stream.head is Received,
        !c.stream.reader.done,
        !c.stream.cancelled,
        finish_of(c, event) == (c, FinishView::Want(Input::Data)),
        parsed_status(header_values(trailers)) == Ok::<StatusView, StatusView>(s),
    ensures
        finish_call(
            c,
            event,
            stream_events(data_events(left)) + seq![StreamEvent::Trailers(Ok(Some(trailers)))],
        ) == outcome_of(s, header_values(trailers)),
    decreases left.len(),
{
    let end = seq![StreamEvent::Trailers(Ok(Some(trailers)))];
    let pending = stream_events(data_events(left)) + end;
    let first = data_events(left)[0];
    assert(pending[0] == StreamEvent::Data(first));
    if left.len() > 0 {
        let others = left.skip(1);
        assert(first == DataEvent::Data { bytes: left[0], released: Ok(()) });
        assert(finish_of(c, Some(pending[0])) == (c, FinishView::Want(Input::Data)));
        assert(pending.skip(1) =~= stream_events(data_events(others)) + end);
        lemma_drained(c, Some(pending[0]), others, trailers, s);
    } else {
        assert(first is End);
        assert(pending.skip(1) =~= end);
        lemma_last_event(c, Some(pending[0]), trailers, s);
    }
}

/// Every request that a client builds has the content type that a server asks
/// for, whatever extra headers it has: it is refused for its path alone.
pub proof fn law_requests_are_accepted<U, S>(
    services: Map<Seq<char>, Map<Seq<char>, Handler<U, S>>>,
    path: Seq<char>,
    extra: Headers,
)
    ensures
        has_prefix(content_type(request_headers(extra)), "application/grpc"@),
        dispatch_fault(services, path, request_headers(extra)) == route_fault(services, path),
{
    let h = request_headers(extra);
    let text = "application/grpc"@;
    lemma_application_grpc();
    lemma_grpc_headers();
    assert(values_of(h, "content-type"@)[0] == encode_utf8(text));
    assert(text.take(text.len() as int) =~= text);
    assert(has_prefix(text, text));
}

/// The metadata that a client sends with a call is what the handler gets, key by
/// key, whatever time limit the call has.
pub proof fn law_metadata_reaches_the_handler(md: Pairs, timeout: Option<Duration>, key: Seq<char>)
    requires
        forall|i: int| 0 <= i < md.len() ==> survives(#[trigger] md[i]),
    ensures
        user_values(request_headers(call_headers_of(md, timeout)), key) == values(md, key),
{
    law_header_round_trip(md, key);
    lemma_grpc_headers();
    lemma_reserved_names();
    let sent = call_headers_of(md, timeout);
    if is_user_key(key) {
        assert(key != "grpc-timeout"@);
        assert(values_of(request_headers(sent), key) =~= values_of(sent, key));
    }
}

/// The metadata that a server sends with the trailers is what the client gets, key
/// by key, whatever the status is.
pub proof fn law_trailing_metadata_reaches_the_client(s: StatusView, md: Pairs, key: Seq<char>)
    requires
        forall|i: int| 0 <= i < md.len() ==> survives(#[trigger] md[i]),
    ensures
        user_values(trailer_headers(s, sent_headers(md)), key) == values(md, key),
{
    law_header_round_trip(md, key);
    lemma_reserved_names();
    if is_user_key(key) {
        assert(values_of(trailer_headers(s, sent_headers(md)), key) =~= values_of(
            sent_headers(md),
            key,
        ));
    }
}

/// The time limit that a client sets is the one that the server grants, exactly,
/// as long as the limit is a whole number of at most eight digits of some unit or,
/// in nanoseconds, a number of 64 bits.
pub proof fn law_time_limit_reaches_the_server(md: Pairs, limit: Duration)
    requires
        ({
            let nanos = duration_nanos(limit);
            nanos <= u64::MAX || fits_unit(nanos, HOUR) || fits_unit(nanos, MINUTE) || fits_unit(
                nanos,
                SECOND,
            ) || fits_unit(nanos, MILLI) || fits_unit(nanos, MICRO)
        }),
    ensures
        granted_nanos(request_headers(call_headers_of(md, Some(limit)))) == Some(
            duration_nanos(limit),
        ),
{
    let nanos = duration_nanos(limit);
    let text = timeout_text(nanos);
    let h = request_headers(call_headers_of(md, Some(limit)));
    law_timeout_round_trip(nanos);
    lemma_grpc_headers();
    lemma_timeout_header(nanos);
    assert(values_of(h, "grpc-timeout"@) =~= seq![encode_utf8(text)]);
    assert(text_of(h, "grpc-timeout"@) == Some(text));
}

/// The content type of gRPC is a header value, and is read back from its bytes.
proof fn lemma_application_grpc()
    ensures
        value_text(encode_utf8("application/grpc"@)) == Some("application/grpc"@),
{
    let text = "application/grpc"@;
    reveal_strlit("application/grpc");
    assert forall|i: int| 0 <= i < text.len() implies is_visible_char(#[trigger] text[i]) by {}
    lemma_visible_text(text);
}

/// The headers that gRPC sets itself are no user-defined metadata.
proof fn lemma_reserved_names()
    ensures
        !is_user_key("content-type"@),
        !is_user_key("te"@),
        !is_user_key("grpc-timeout"@),
        !is_user_key("grpc-status"@),
        !is_user_key("grpc-message"@),
{
    reveal_strlit("grpc-timeout");
    reveal_strlit("grpc-status");
    reveal_strlit("grpc-message");
    reveal_strlit("grpc-");
    assert("grpc-timeout"@.take(5) =~= "grpc-"@);
    assert("grpc-status"@.take(5) =~= "grpc-"@);
    assert("grpc-message"@.take(5) =~= "grpc-"@);
}

/// The status that a handler fails with, whatever its code and message, is the one that the
/// client reads from the trailers that the server sends for it. A status without a message
/// needs trailers without another `grpc-message`.
pub proof fn law_handler_status_reaches_the_client(
    state: UnaryState,
    fault: Status,
    answer: (UnaryState, UnaryAction),
    extra: &HeaderMap,
    trailers: HeaderMap,
    read: Result<Status, Status>,
)
    requires
        call_ensures(dispatch_unary, (state, UnaryEvent::Handled(Some(Err(fault)))), answer),
        answer.1 matches UnaryAction::SendTrailers(s) ==> call_ensures(
            build_trailers,
            (&s, extra),
            Some(trailers),
        ),
        call_ensures(parse_grpc_status, (&trailers,), read),
        fault.message@.len() > 0 || values_of(header_values(*extra), "grpc-message"@).len() == 0,
    ensures
        read matches Ok(s) && s.code == fault.code && s.message@ == fault.message@,
{
    law_status_round_trip(fault@, header_values(*extra));
}

/// What a client sends as a unary request, up to four mebibytes, is what the handler is
/// called with, byte for byte.
pub proof fn law_request_payload_reaches_the_handler(
    payload: &[u8],
    md: &Metadata,
    timeout: Option<Duration>,
    message: Bytes,
    headers: Option<HeaderMap>,
    state: UnaryState,
    r: (UnaryState, UnaryAction),
)
    requires
        call_ensures(unary_request, (payload, md, timeout), Ok((message, headers))),
        call_ensures(dispatch_unary, (state, UnaryEvent::Received(Ok(Some(message)))), r),
        payload@.len() <= 4_194_304,
    ensures
        r.1 matches UnaryAction::Invoke(p) && bytes_of(p) == payload@,
{
    lemma_plain_frame(payload@);
}

/// What a handler returns, up to four mebibytes, is what the client returns, byte for byte,
/// if the status is `OK`.
pub proof fn law_response_payload_reaches_the_client(
    state: UnaryState,
    payload: Bytes,
    opened: (UnaryState, UnaryAction),
    sent: (UnaryState, UnaryAction),
    message: &[u8],
    reported: Status,
    trailers: &HeaderMap,
    r: Result<(Vec<u8>, Metadata), Status>,
)
    requires
        call_ensures(dispatch_unary, (state, UnaryEvent::Handled(Some(Ok(payload)))), opened),
        call_ensures(dispatch_unary, (opened.0, UnaryEvent::HeadersSent(Ok(()))), sent),
        sent.1 matches UnaryAction::SendMessage(f) ==> message@ == bytes_of(f),
        call_ensures(unary_outcome, (Some(message), reported, trailers), r),
        reported.code == Code::OK,
        bytes_of(payload).len() <= 4_194_304,
    ensures
        r matches Ok((p, _)) && p@ == bytes_of(payload),
{
    lemma_plain_frame(bytes_of(payload));
}

/// The metadata of a call reaches the handler: what a server reads from the headers of the
/// request that a client builds has, under every key, the values of the client's metadata,
/// in order. Pairs that are no legal header with an ASCII text, and those of the transport,
/// are left out of this.
pub proof fn law_sent_metadata_is_read(
    md: &Metadata,
    timeout: Option<Duration>,
    headers: HeaderMap,
    request: HeaderMap,
    read: Metadata,
    key: Seq<char>,
)
    requires
        call_ensures(call_headers, (md, timeout), Some(headers)),
        call_ensures(build_request, (Ok(()), &headers), Ok(request)),
        call_ensures(Metadata::from_request_headers, (&request,), read),
        forall|i: int| 0 <= i < md@.len() ==> survives(#[trigger] md@[i]),
    ensures
        values_under(read@, key) == values_under(md@, key),
{
    law_metadata_reaches_the_handler(md@, timeout, key);
    lemma_values_under(read@, key);
    lemma_values_under(md@, key);
    assert(values(read@, key) == user_values(header_values(request), key));
}

/// The trailing metadata of a server reaches the client, in the same way and whatever the
/// status is.
pub proof fn law_sent_trailing_metadata_is_read(
    md: &Metadata,
    headers: HeaderMap,
    s: &Status,
    trailers: HeaderMap,
    read: Metadata,
    key: Seq<char>,
)
    requires
        call_ensures(Metadata::to_header_map, (md,), headers),
        call_ensures(build_trailers, (s, &headers), Some(trailers)),
        call_ensures(Metadata::from_trailer_headers, (&trailers,), read),
        forall|i: int| 0 <= i < md@.len() ==> survives(#[trigger] md@[i]),
    ensures
        values_under(read@, key) == values_under(md@, key),
{
    law_trailing_metadata_reaches_the_client(s@, md@, key);
    lemma_values_under(read@, key);
    lemma_values_under(md@, key);
    assert(values(read@, key) == user_values(header_values(trailers), key));
}

/// A time limit that was written is read as the very same limit, as long as it is a whole
/// number of at most eight digits of some unit or, in nanoseconds, a number of 64 bits.
pub proof fn law_written_timeouts_are_read(
    d: Duration,
    written: String,
    s: &str,
    read: Option<Duration>,
)
    requires
        call_ensures(encode_timeout, (d,), written),
        s@ == written@,
        call_ensures(decode_timeout, (s,), read),
        duration_nanos(d) <= u64::MAX || exists|unit: char|
            #[trigger] unit_nanos(unit) > 1 && duration_nanos(d) % unit_nanos(unit) == 0
                && duration_nanos(d) / unit_nanos(unit) < 100_000_000,
    ensures
        read matches Some(g) && duration_nanos(g) == duration_nanos(d),
{
    let nanos = duration_nanos(d);
    if nanos > u64::MAX {
        let unit = choose|unit: char|
            #[trigger] unit_nanos(unit) > 1 && nanos % unit_nanos(unit) == 0 && nanos / unit_nanos(
                unit,
            ) < 100_000_000;
        assert(unit == 'H' || unit == 'M' || unit == 'S' || unit == 'm' || unit == 'u');
    }
    law_timeout_round_trip(nanos);
}

/// A payload that was encoded without compression is decoded to itself, whatever follows
/// it, as long as it is within the limit and its length can be sent.
pub proof fn law_encoded_payloads_are_decoded(
    payload: &[u8],
    encoded: Result<Bytes, Status>,
    given: &[u8],
    rest: Seq<u8>,
    max: usize,
    decoded: Result<Vec<u8>, Status>,
)
    requires
        call_ensures(encode_raw, (payload, None), encoded),
        is_sendable_length(payload@.len()),
        encoded matches Ok(f) ==> given@ == bytes_of(f) + rest,
        call_ensures(decode_raw, (given, None, max), decoded),
        payload@.len() <= max,
    ensures
        decoded matches Ok(p) && p@ == payload@,
{
    law_payloads_are_encoded(payload, None, encoded);
    law_plain_messages_are_decoded(
        given,
        None,
        max,
        decoded,
        bytes_of(encoded->Ok_0),
        payload@,
        rest,
    );
}

} // verus!
