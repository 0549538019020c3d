//! The server side of one RPC stream.

use crate::buffers::bytes_of;
use crate::codec::is_on_the_wire;
use crate::headers::{
    append_headers, ascii_text, full_map, header_values, insert_text, inserted, is_header_value,
    is_value_byte, lemma_grpc_headers, lemma_merged_count, merged, names_within, new_map,
    no_headers, values_of, Headers, MAX_NAMES,
};
use crate::status::{code_number, internal_at, internal_error, status, Code, Status, StatusView};
use crate::text::{decimal, decimal_string, has_suffix, is_digit, lemma_decimal_digits};
use crate::transport::{
    awaits_the_rest, concat, data_events, ended_with, first_frame_len, frames, is_frame, joined,
    lemma_part_of_a_message, lemma_read_of_parts, lemma_start_stays, poll_view, polled, read_of,
    read_view, remainder, room_for, takes_in, DataEvent, FrameReader, Progress, ReadView,
    ReaderView,
};
use bytes::Bytes;
use http::HeaderMap;
use vstd::prelude::*;
use vstd::string::*;
use vstd::utf8::*;

verus! {

/// The hexadecimal digit with value `d`, its letters in upper case, as a byte.
pub open spec fn hex_upper(d: u8) -> u8 {
    if d < 10 {
        (48 + d) as u8
    } else {
        (55 + d) as u8
    }
}

/// Whether a byte of a message is sent as it is.
pub open spec fn is_plain(b: u8) -> bool {
    0x20 <= b <= 0x7E && b != 0x25
}

/// How one byte of a message is sent: as it is, or as `%` and two digits.
pub open spec fn escaped_byte(b: u8) -> Seq<u8> {
    if is_plain(b) {
        seq![b]
    } else {
        seq![0x25, hex_upper(b / 16), hex_upper(b % 16)]
    }
}

/// How the bytes of a message are sent.
pub open spec fn escaped(bytes: Seq<u8>) -> Seq<u8>
    decreases bytes.len(),
{
    if bytes.len() == 0 {
        seq![]
    } else {
        escaped_byte(bytes[0]) + escaped(bytes.skip(1))
    }
}

/// The percent-encoded text of a status message.
pub open spec fn percent_text(message: Seq<char>) -> Seq<char> {
    ascii_text(escaped(encode_utf8(message)))
}

/// The hexadecimal digit with value `d`, as a character.
fn upper_digit(d: u8) -> (c: char)
    requires
        d < 16,
    ensures
        c == hex_upper(d) as char,
{
    if d < 10 {
        (48 + d) as char
    } else {
        (55 + d) as char
    }
}

/// Percent-encodes a status message: bytes outside printable ASCII, and the
/// percent sign itself, become `%` and two upper-case digits.
pub fn percent_encode_grpc_message(s: &str) -> (out: String)
    ensures
        out@ == percent_text(s@),
{
    let bytes = s.as_bytes();
    let mut out = String::new();
    let ghost all = escaped(bytes@);
    assert(bytes@.skip(0) =~= bytes@);
    assert(out@ + ascii_text(escaped(bytes@)) =~= ascii_text(all));
    for i in 0..bytes.len()
        invariant
            all == escaped(bytes@),
            out@ + ascii_text(escaped(bytes@.skip(i as int))) == ascii_text(all),
    {
        let b: u8 = bytes[i];
        let ghost before = out@;
        proof {
            assert(bytes@.skip(i as int).skip(1) =~= bytes@.skip(i + 1));
            assert(ascii_text(escaped(bytes@.skip(i as int))) =~= ascii_text(escaped_byte(b))
                + ascii_text(escaped(bytes@.skip(i + 1))));
        }
        if b == 0x25 || b < 0x20 || b > 0x7E {
            out.push('%');
            out.push(upper_digit(b / 16));
            out.push(upper_digit(b % 16));
        } else {
            out.push(b as char);
        }
        assert(out@ =~= before + ascii_text(escaped_byte(b)));
        assert(out@ + ascii_text(escaped(bytes@.skip(i + 1))) =~= before + (ascii_text(
            escaped_byte(b),
        ) + ascii_text(escaped(bytes@.skip(i + 1)))));
    }
    assert(bytes@.skip(bytes@.len() as int) =~= seq![]);
    assert(out@ + ascii_text(seq![]) =~= out@);
    out
}

/// Every byte of an escaped message is printable ASCII.
pub proof fn lemma_escaped_is_printable(bytes: Seq<u8>)
    ensures
        forall|i: int| 0 <= i < escaped(bytes).len() ==> 0x20 <= #[trigger] escaped(bytes)[i] <= 0x7E,
    decreases bytes.len(),
{
    if bytes.len() > 0 {
        lemma_escaped_is_printable(bytes.skip(1));
        let head = escaped_byte(bytes[0]);
        let tail = escaped(bytes.skip(1));
        assert forall|i: int| 0 <= i < escaped(bytes).len() implies 0x20 <= #[trigger] escaped(
            bytes,
        )[i] <= 0x7E by {
            if i < head.len() {
                assert(escaped(bytes)[i] == head[i]);
            } else {
                assert(escaped(bytes)[i] == tail[i - head.len()]);
            }
        }
    }
}

/// Text of printable ASCII bytes has those bytes.
pub proof fn lemma_ascii_bytes(b: Seq<u8>)
    requires
        forall|i: int| 0 <= i < b.len() ==> #[trigger] b[i] < 0x80,
    ensures
        encode_utf8(ascii_text(b)) == b,
{
    let t = ascii_text(b);
    assert(is_ascii_chars(t)) by {
        assert forall|i: int| 0 <= i < t.len() implies '\0' <= #[trigger] t[i] <= '\u{7f}' by {
            assert(t[i] == b[i] as char);
        }
    }
    is_ascii_chars_encode_utf8(t);
    assert forall|i: int| 0 <= i < b.len() implies encode_utf8(t)[i] == b[i] by {
        assert(t[i] as u8 == b[i]);
    }
    assert(encode_utf8(t) =~= b);
}

/// A percent-encoded message is a legal header value with the escaped bytes.
pub proof fn lemma_percent_text_is_header(message: Seq<char>)
    ensures
        encode_utf8(percent_text(message)) == escaped(encode_utf8(message)),
        is_header_value(encode_utf8(percent_text(message))),
{
    lemma_escaped_is_printable(encode_utf8(message));
    lemma_ascii_bytes(escaped(encode_utf8(message)));
}

/// How far the send side of a stream has come.
#[derive(Debug, Clone, Copy, PartialEq, Eq, Structural)]
pub enum SendState {
    /// Nothing was sent.
    AwaitingHeaders,
    /// The response headers are being sent.
    Opening,
    /// The response headers were sent.
    Streaming,
    /// The trailers were sent, or sending failed.
    Done,
}

/// One RPC stream on the server side.
#[derive(Debug)]
pub struct ServerStream {
    method: String,
    request_headers: HeaderMap,
    reader: FrameReader,
    send: SendState,
}

/// What has to be sent to end the response.
#[derive(Debug)]
pub enum TrailersStep {
    /// The response headers, and then the trailers.
    SendHeaders(HeaderMap),
    /// The trailers, which end the stream.
    SendTrailers(HeaderMap),
    /// Nothing can be sent.
    Failed(Status),
    /// The trailers do not fit into a header map.
    TooManyHeaders,
}

/// The headers of a response.
pub open spec fn response_headers(extra: Headers) -> Headers {
    merged(
        inserted(no_headers(), "content-type"@, encode_utf8("application/grpc"@)),
        extra,
    )
}

/// The headers that carry a status.
pub open spec fn status_headers(s: StatusView) -> Headers {
    let base = inserted(
        no_headers(),
        "grpc-status"@,
        encode_utf8(decimal(code_number(s.code) as nat)),
    );
    if s.message.len() == 0 {
        base
    } else {
        inserted(base, "grpc-message"@, encode_utf8(percent_text(s.message)))
    }
}

/// The trailers of a response: its status, and then the extra headers.
pub open spec fn trailer_headers(s: StatusView, extra: Headers) -> Headers {
    merged(status_headers(s), extra)
}

/// The status of headers that do not fit into a header map.
pub open spec fn too_many_headers(step: Seq<char>) -> StatusView {
    internal_at(step, full_map())
}

/// What the server reports of a data event, before it asks for a message:
/// nothing, or the error that ends the read.
pub open spec fn data_fault(event: DataEvent) -> Option<StatusView> {
    match event {
        DataEvent::Data { bytes, released: Err(t) } => Some(internal_at("release_capacity"@, t@)),
        DataEvent::Data { bytes, released: Ok(_) } => None,
        DataEvent::End => None,
        DataEvent::Fault(f) => Some(internal_at("recv data frame"@, f.text@)),
    }
}

/// The reader after a data event.
pub open spec fn absorbed(r: ReaderView, event: DataEvent) -> ReaderView {
    match event {
        DataEvent::Data { bytes, .. } => ReaderView { buf: r.buf + bytes_of(bytes), done: r.done },
        DataEvent::End => ReaderView { buf: r.buf, done: true },
        DataEvent::Fault(_) => r,
    }
}

/// What reading a message comes to, given the data event that was awaited, if any:
/// the reader afterwards, and how far it has come.
pub open spec fn server_read(r: ReaderView, event: Option<DataEvent>) -> (ReaderView, ReadView) {
    match event {
        Some(e) => match data_fault(e) {
            Some(fault) => (absorbed(r, e), ReadView::Failed(fault)),
            None => (polled(absorbed(r, e)), poll_view(absorbed(r, e))),
        },
        None => (polled(r), poll_view(r)),
    }
}

/// Whether the bytes of a data event fit into the reader.
pub open spec fn event_fits(r: ReaderView, event: Option<DataEvent>) -> bool {
    event matches Some(DataEvent::Data { bytes, .. }) ==> room_for(r.buf, bytes_of(bytes).len())
}

impl ServerStream {
    /// The bytes received and not delivered yet.
    pub closed spec fn reader(&self) -> ReaderView {
        self.reader@
    }

    /// How far the send side has come.
    pub closed spec fn send_state(&self) -> SendState {
        self.send
    }

    /// The method path.
    pub closed spec fn path(&self) -> Seq<char> {
        self.method@
    }

    /// The request headers.
    pub closed spec fn headers(&self) -> Headers {
        header_values(self.request_headers)
    }

    /// A stream that a request with the given path and headers opened.
    pub fn new(method: &str, request_headers: HeaderMap) -> (s: Self)
        ensures
            s.path() == method@,
            s.headers() == header_values(request_headers),
            s.reader() == (ReaderView { buf: seq![], done: false }),
            s.send_state() == SendState::AwaitingHeaders,
    {
        ServerStream {
            method: method.to_owned(),
            request_headers,
            reader: FrameReader::new(),
            send: SendState::AwaitingHeaders,
        }
    }

    /// The method path, e.g. `/helloworld.Greeter/SayHello`.
    pub fn method(&self) -> (s: &str)
        ensures
            s@ == self.path(),
    {
        self.method.as_str()
    }

    /// The request headers.
    pub fn request_headers(&self) -> (m: &HeaderMap)
        ensures
            header_values(*m) == self.headers(),
    {
        &self.request_headers
    }

    /// How far the send side has come.
    pub fn state(&self) -> (s: SendState)
        ensures
            s == self.send_state(),
    {
        self.send
    }

    /// Whether `n` more bytes of data can be taken.
    pub fn has_room(&self, n: usize) -> (b: bool)
        ensures
            b == room_for(self.reader().buf, n as nat),
    {
        self.reader.has_room(n)
    }

    /// Reads the next message, given the data event that was awaited, if any.
    ///
    /// The message is the raw frame. There is none once the client has sent all
    /// its data and every message was delivered.
    pub fn recv_message(&mut self, event: Option<DataEvent>) -> (p: Progress<Option<Bytes>>)
        requires
            event_fits(old(self).reader(), event),
        ensures
            final(self).reader() == server_read(old(self).reader(), event).0,
            read_view(p) == server_read(old(self).reader(), event).1,
            final(self).send_state() == old(self).send_state(),
            final(self).path() == old(self).path(),
            final(self).headers() == old(self).headers(),
    {
        match event {
            Some(DataEvent::Data { bytes, released }) => {
                self.reader.push(&bytes);
                if let Err(t) = released {
                    return Progress::Ready(Err(internal_error("release_capacity", t.as_str())));
                }
            },
            Some(DataEvent::End) => {
                self.reader.finish();
            },
            Some(DataEvent::Fault(f)) => {
                return Progress::Ready(Err(internal_error("recv data frame", f.text.as_str())));
            },
            None => {},
        }
        self.reader.poll()
    }

    /// Starts the response: returns the headers to send with status 200.
    ///
    /// The extra headers follow the content type. Once the headers were sent, or
    /// could not be, [`headers_sent`](Self::headers_sent) is told so.
    pub fn send_headers(&mut self, extra: &HeaderMap) -> (r: Result<HeaderMap, Status>)
        ensures
            starts_response(
                old(self).send_state(),
                header_values(*extra),
                final(self).send_state(),
                headers_result(r),
            ),
            final(self).reader() == old(self).reader(),
            final(self).path() == old(self).path(),
            final(self).headers() == old(self).headers(),
    {
        let mut map = new_map();
        proof {
            lemma_grpc_headers();
        }
        insert_text(&mut map, "content-type", "application/grpc");
        if let Err(t) = append_headers(&mut map, extra) {
            return Err(internal_error("build response", t.as_str()));
        }
        match self.send {
            SendState::AwaitingHeaders => {
                self.send = SendState::Opening;
                Ok(map)
            },
            _ => Err(Status::internal("send_headers called after headers already sent")),
        }
    }

    /// Notes whether the response headers were sent.
    pub fn headers_sent(&mut self, sent: Result<(), String>) -> (r: Result<(), Status>)
        requires
            old(self).send_state() == SendState::Opening,
        ensures
            match sent {
                Ok(_) => r is Ok && final(self).send_state() == SendState::Streaming,
                Err(t) => r is Err && r->Err_0@ == internal_at("send_response"@, t@)
                    && final(self).send_state() == SendState::Done,
            },
            final(self).reader() == old(self).reader(),
            final(self).path() == old(self).path(),
            final(self).headers() == old(self).headers(),
    {
        match sent {
            Ok(_) => {
                self.send = SendState::Streaming;
                Ok(())
            },
            Err(t) => {
                self.send = SendState::Done;
                Err(internal_error("send_response", t.as_str()))
            },
        }
    }

    /// Passes a frame on to be sent. The response headers must have been sent,
    /// and the trailers not yet.
    pub fn send_message(&self, data: Bytes) -> (r: Result<Bytes, Status>)
        ensures
            match message_fault(self.send_state()) {
                Some(fault) => r is Err && r->Err_0@ == fault,
                None => r == Ok::<Bytes, Status>(data),
            },
    {
        match self.send {
            SendState::Streaming => Ok(data),
            SendState::AwaitingHeaders => Err(
                Status::internal("send_message called before send_headers"),
            ),
            _ => Err(Status::internal("send_message on closed stream")),
        }
    }

    /// Ends the response with a status: says what to send next.
    ///
    /// Where nothing was sent yet, the response headers come first; once they
    /// were sent, this is called again. The extra headers follow the status.
    pub fn send_trailers(&mut self, s: &Status, extra: &HeaderMap) -> (r: TrailersStep)
        ensures
            match old(self).send_state() {
                SendState::AwaitingHeaders => {
                    &&& r matches TrailersStep::SendHeaders(m) && header_values(m)
                        == response_headers(no_headers())
                    &&& final(self).send_state() == SendState::Opening
                },
                SendState::Streaming => match r {
                    TrailersStep::SendTrailers(m) => header_values(m) == trailer_headers(
                        s@,
                        header_values(*extra),
                    ) && final(self).send_state() == SendState::Done,
                    TrailersStep::TooManyHeaders => !names_within(
                        trailer_headers(s@, header_values(*extra)),
                        MAX_NAMES as nat,
                    ) && final(self).send_state() == SendState::Streaming,
                    _ => false,
                },
                _ => {
                    &&& r matches TrailersStep::Failed(e) && e@ == status(
                        Code::Internal,
                        "unexpected send state in send_trailers"@,
                    )
                    &&& final(self).send_state() == SendState::Done
                },
            },
            final(self).reader() == old(self).reader(),
            final(self).path() == old(self).path(),
            final(self).headers() == old(self).headers(),
    {
        match self.send {
            SendState::AwaitingHeaders => {
                let none = new_map();
                proof {
                    lemma_response_names();
                }
                match self.send_headers(&none) {
                    Ok(map) => TrailersStep::SendHeaders(map),
                    Err(e) => TrailersStep::Failed(e),
                }
            },
            SendState::Streaming => match build_trailers(s, extra) {
                Some(map) => {
                    self.send = SendState::Done;
                    TrailersStep::SendTrailers(map)
                },
                None => TrailersStep::TooManyHeaders,
            },
            _ => {
                self.send = SendState::Done;
                TrailersStep::Failed(Status::internal("unexpected send state in send_trailers"))
            },
        }
    }
}

/// The outcome of starting a response, by view.
pub open spec fn headers_result(r: Result<HeaderMap, Status>) -> Result<Headers, StatusView> {
    match r {
        Ok(m) => Ok(header_values(m)),
        Err(e) => Err(e@),
    }
}

/// Whether starting a response in the state `before`, with the extra headers, may
/// lead to the state `after` and the outcome `r`: the headers are built once, and
/// whatever is wrong with the request for them changes nothing.
pub open spec fn starts_response(
    before: SendState,
    extra: Headers,
    after: SendState,
    r: Result<Headers, StatusView>,
) -> bool {
    match r {
        Ok(h) => {
            &&& before == SendState::AwaitingHeaders
            &&& after == SendState::Opening
            &&& h == response_headers(extra)
        },
        Err(e) => {
            &&& after == before
            &&& if names_within(response_headers(extra), MAX_NAMES as nat) {
                before != SendState::AwaitingHeaders && e == already_sent()
            } else {
                e == too_many_headers("build response"@) || (before != SendState::AwaitingHeaders
                    && e == already_sent())
            }
        },
    }
}

/// Why a frame cannot be sent in a state, if it cannot.
pub open spec fn message_fault(state: SendState) -> Option<StatusView> {
    match state {
        SendState::Streaming => None,
        SendState::AwaitingHeaders => Some(
            status(Code::Internal, "send_message called before send_headers"@),
        ),
        _ => Some(status(Code::Internal, "send_message on closed stream"@)),
    }
}

/// Response headers are sent once: asking for them again is an internal error that
/// says so, sends nothing and leaves the stream as it was, so that frames and
/// trailers can be sent as before. Headers that a map cannot hold are reported as
/// such first.
pub proof fn law_headers_are_sent_once(
    before: SendState,
    extra: Headers,
    after: SendState,
    r: Result<Headers, StatusView>,
)
    requires
        before != SendState::AwaitingHeaders,
        starts_response(before, extra, after, r),
    ensures
        after == before,
        message_fault(after) == message_fault(before),
        r is Err,
        r->Err_0.code == Code::Internal,
        names_within(response_headers(extra), MAX_NAMES as nat) ==> r->Err_0 == already_sent(),
        r->Err_0 != too_many_headers("build response"@) ==> r->Err_0 == already_sent(),
        has_suffix(already_sent().message, "already sent"@),
{
    reveal_strlit("send_headers called after headers already sent");
    reveal_strlit("already sent");
    let message = "send_headers called after headers already sent"@;
    assert(message.skip(message.len() - "already sent"@.len()) =~= "already sent"@);
}

/// One read of a message, event by event: as long as more data is wanted, the next
/// pending event is handed in. Gives the reader and the pending events afterwards,
/// and what the read came to.
pub open spec fn read_call(
    r: ReaderView,
    event: Option<DataEvent>,
    pending: Seq<DataEvent>,
) -> (ReaderView, Seq<DataEvent>, ReadView)
    decreases pending.len(),
{
    let (next, v) = server_read(r, event);
    if v is Want && pending.len() > 0 {
        read_call(next, Some(pending[0]), pending.skip(1))
    } else {
        (next, pending, v)
    }
}

/// What the read with number `n`, the first being 0, comes to.
pub open spec fn read_at(r: ReaderView, pending: Seq<DataEvent>, n: nat) -> ReadView
    decreases n,
{
    let (next, left, v) = read_call(r, None, pending);
    if n == 0 {
        v
    } else {
        read_at(next, left, (n - 1) as nat)
    }
}

/// A reader that nothing has arrived at.
pub open spec fn fresh_reader() -> ReaderView {
    ReaderView { buf: seq![], done: false }
}

/// A server reads the messages of a stream in order, however the data is cut into
/// chunks. Once all of them were read, every further read gives the end of the
/// stream if nothing is left over, and an internal error otherwise.
pub proof fn law_server_reads_the_stream(
    chunks: Seq<Bytes>,
    parts: Seq<Seq<u8>>,
    rest: Seq<u8>,
    n: nat,
)
    requires
        forall|i: int| 0 <= i < parts.len() ==> is_frame(#[trigger] parts[i]),
        first_frame_len(rest) is None,
        joined(chunks) == concat(parts) + rest,
    ensures
        ({
            let v = read_at(fresh_reader(), data_events(chunks), n);
            &&& n < parts.len() ==> v == ReadView::Message(parts[n as int])
            &&& n >= parts.len() && rest.len() == 0 ==> v == ReadView::End
            &&& n >= parts.len() && rest.len() > 0 ==> (v matches ReadView::Failed(e) && e.code
                == Code::Internal)
        }),
{
    assert(seq![] + joined(chunks) =~= joined(chunks));
    lemma_read_at(fresh_reader(), chunks, n);
    lemma_read_of_parts(joined(chunks), parts, rest, n);
}

/// One read of a stream, of which `held` is the reader once the event was taken in:
/// it gives the first message and leaves the others; with no message to give, it
/// ends as the stream does. Returns the chunks that are still pending.
pub proof fn lemma_read_call(
    r: ReaderView,
    event: Option<DataEvent>,
    held: ReaderView,
    chunks: Seq<Bytes>,
) -> (left: Seq<Bytes>)
    requires
        match event {
            Some(e) => data_fault(e) is None && held == absorbed(r, e),
            None => held == r,
        },
        !held.done,
    ensures
        ({
            let (next, pending, v) = read_call(r, event, data_events(chunks));
            reads_first(held.buf + joined(chunks), next, pending, v, left)
        }),
    decreases chunks.len(),
{
    let buf = held.buf;
    let all = buf + joined(chunks);
    let pending = data_events(chunks);
    lemma_start_stays(buf, joined(chunks));
    match poll_view(held) {
        ReadView::Want(_) => if chunks.len() > 0 {
            let e = pending[0];
            let next = absorbed(held, e);
            let others = chunks.skip(1);
            assert(e == DataEvent::Data { bytes: chunks[0], released: Ok(()) });
            assert(pending.skip(1) =~= data_events(others));
            assert(next.buf + joined(others) =~= all);
            lemma_read_call(held, Some(e), next, others)
        } else {
            assert(pending =~= seq![DataEvent::End]);
            assert(pending.skip(1) =~= seq![]);
            assert(all =~= buf);
            let ended = ReaderView { buf, done: true };
            assert(read_call(held, Some(DataEvent::End), seq![]) == (
                ended,
                Seq::<DataEvent>::empty(),
                poll_view(ended),
            ));
            chunks
        },
        ReadView::Message(m) => {
            let rest = frames(buf.skip(m.len() as int) + joined(chunks));
            assert(frames(all) == seq![m] + rest);
            assert(frames(all).skip(1) =~= rest);
            chunks
        },
        _ => chunks,
    }
}

/// Whether one read of a stream, whose data not read yet is `all`, may leave the
/// reader `next` and the events `pending`, of which `left` are the chunks, and give
/// `v`: the first message if there is one, and what the stream ends with otherwise.
pub open spec fn reads_first(
    all: Seq<u8>,
    next: ReaderView,
    pending: Seq<DataEvent>,
    v: ReadView,
    left: Seq<Bytes>,
) -> bool {
    if frames(all).len() > 0 {
        &&& v == ReadView::Message(frames(all)[0])
        &&& !next.done
        &&& pending == data_events(left)
        &&& frames(next.buf + joined(left)) == frames(all).skip(1)
        &&& remainder(next.buf + joined(left)) == remainder(all)
    } else {
        &&& v == ended_with(all)
        &&& remainder(all) == all
        &&& if next.done {
            pending.len() == 0 && next.buf == all
        } else {
            pending == data_events(left) && next.buf + joined(left) == all
        }
    }
}

/// The reads of a stream give its messages, and then its end.
proof fn lemma_read_at(r: ReaderView, chunks: Seq<Bytes>, n: nat)
    requires
        !r.done,
    ensures
        read_at(r, data_events(chunks), n) == read_of(r.buf + joined(chunks), n),
    decreases n,
{
    let all = r.buf + joined(chunks);
    let left = lemma_read_call(r, None, r, chunks);
    let (next, pending, v) = read_call(r, None, data_events(chunks));
    if n > 0 {
        let m = (n - 1) as nat;
        if next.done {
            assert(pending =~= seq![]);
            lemma_read_at_end(next, m);
        } else {
            lemma_read_at(next, left, m);
        }
    }
}

/// Once all data has arrived and no message is left, every read ends the same way.
proof fn lemma_read_at_end(r: ReaderView, n: nat)
    requires
        r.done,
        frames(r.buf).len() == 0,
    ensures
        read_at(r, seq![], n) == ended_with(r.buf),
    decreases n,
{
    if n > 0 {
        lemma_read_at_end(r, (n - 1) as nat);
    }
}

/// The status of response headers that are sent a second time.
pub open spec fn already_sent() -> StatusView {
    status(Code::Internal, "send_headers called after headers already sent"@)
}

/// The outcome of sending something, given the step and what came of it.
pub fn sent_status(step: &str, sent: Result<(), String>) -> (r: Result<(), Status>)
    ensures
        match sent {
            Ok(_) => r is Ok,
            Err(t) => r is Err && r->Err_0@ == internal_at(step@, t@),
        },
{
    match sent {
        Ok(_) => Ok(()),
        Err(t) => Err(internal_error(step, t.as_str())),
    }
}

/// The trailers that carry a status, followed by the extra headers, unless there
/// are too many for a header map.
pub fn build_trailers(s: &Status, extra: &HeaderMap) -> (r: Option<HeaderMap>)
    ensures
        r matches Some(m) ==> header_values(m) == trailer_headers(s@, header_values(*extra)),
        names_within(trailer_headers(s@, header_values(*extra)), MAX_NAMES as nat) ==> r is Some,
{
    let mut map = new_map();
    let code = decimal_string(s.code.number() as u128);
    proof {
        lemma_grpc_headers();
        lemma_code_header(s@.code);
    }
    insert_text(&mut map, "grpc-status", code.as_str());
    if !s.message.as_str().is_empty() {
        proof {
            lemma_percent_text_is_header(s.message@);
        }
        insert_text(
            &mut map,
            "grpc-message",
            percent_encode_grpc_message(s.message.as_str()).as_str(),
        );
    }
    match append_headers(&mut map, extra) {
        Ok(_) => Some(map),
        Err(_) => None,
    }
}

/// A response without extra headers has one header.
proof fn lemma_response_names()
    ensures
        names_within(response_headers(no_headers()), MAX_NAMES as nat),
{
    let base = inserted(no_headers(), "content-type"@, encode_utf8("application/grpc"@));
    lemma_merged_count(base, no_headers());
}

/// The number of a code is a legal header value.
proof fn lemma_code_header(code: Code)
    ensures
        is_header_value(encode_utf8(decimal(code_number(code) as nat))),
{
    let digits = decimal(code_number(code) as nat);
    lemma_decimal_digits(code_number(code) as nat);
    assert(is_ascii_chars(digits)) by {
        assert forall|i: int| 0 <= i < digits.len() implies '\0' <= #[trigger] digits[i]
            <= '\u{7f}' by {
            assert(is_digit(digits[i]));
        }
    }
    is_ascii_chars_encode_utf8(digits);
    assert forall|i: int| 0 <= i < encode_utf8(digits).len() implies is_value_byte(
        #[trigger] encode_utf8(digits)[i],
    ) by {
        assert(is_digit(digits[i]));
    }
}

/// A status message is sent byte by byte: printable ASCII but the percent sign stands for
/// itself, any other byte is `%` and its two digits, which are of 0 to 9 and A to F.
pub proof fn law_bytes_are_escaped_one_by_one(b: u8, rest: Seq<u8>)
    ensures
        escaped(seq![]).len() == 0,
        escaped(seq![b] + rest) == escaped(seq![b]) + escaped(rest),
        0x20 <= b <= 0x7E && b != 0x25 ==> escaped(seq![b]) == seq![b],
        !(0x20 <= b <= 0x7E && b != 0x25) ==> {
            let e = escaped(seq![b]);
            &&& e.len() == 3 && e[0] == 0x25
            &&& b / 16 < 10 ==> e[1] == 48 + b / 16
            &&& b / 16 >= 10 ==> e[1] == 65 + (b / 16 - 10)
            &&& b % 16 < 10 ==> e[2] == 48 + b % 16
            &&& b % 16 >= 10 ==> e[2] == 65 + (b % 16 - 10)
        },
{
    let all = seq![b] + rest;
    assert(all.skip(1) =~= rest);
    assert(seq![b].skip(1) =~= seq![]);
    assert(escaped(Seq::<u8>::empty()) =~= seq![]);
    assert(escaped(seq![b]) =~= escaped_byte(b));
    assert(escaped(all) =~= escaped(seq![b]) + escaped(rest));
}

/// What a status message is sent as has the escaped bytes of the message, and is
/// printable ASCII throughout. A message of printable ASCII without a percent sign is sent
/// as it is.
pub proof fn law_messages_are_escaped(s: &str, r: String)
    requires
        call_ensures(percent_encode_grpc_message, (s,), r),
    ensures
        encode_utf8(r@) == escaped(encode_utf8(s@)),
        forall|i: int| 0 <= i < r@.len() ==> ' ' <= #[trigger] r@[i] && r@[i] <= '~',
        (forall|i: int|
            0 <= i < s@.len() ==> ' ' <= #[trigger] s@[i] && s@[i] <= '~' && s@[i] != '%')
            ==> r@ == s@,
{
    let bytes = encode_utf8(s@);
    lemma_percent_text_is_header(s@);
    lemma_escaped_is_printable(bytes);
    assert forall|i: int| 0 <= i < r@.len() implies ' ' <= #[trigger] r@[i] && r@[i] <= '~' by {
        assert(r@[i] == escaped(bytes)[i] as char);
    }
    if forall|i: int|
        0 <= i < s@.len() ==> ' ' <= #[trigger] s@[i] && s@[i] <= '~' && s@[i] != '%' {
        assert(is_ascii_chars(s@)) by {
            assert forall|i: int| 0 <= i < s@.len() implies '\0' <= #[trigger] s@[i]
                <= '\u{7f}' by {}
        }
        is_ascii_chars_encode_utf8(s@);
        assert forall|i: int| 0 <= i < bytes.len() implies is_plain(#[trigger] bytes[i])
            && bytes[i] as char == s@[i] by {
            assert(s@[i] as u8 == bytes[i]);
        }
        lemma_plain_stays(bytes);
        assert(r@ =~= s@);
    }
}

/// Bytes that stand for themselves are sent as they are.
proof fn lemma_plain_stays(bytes: Seq<u8>)
    requires
        forall|i: int| 0 <= i < bytes.len() ==> is_plain(#[trigger] bytes[i]),
    ensures
        escaped(bytes) == bytes,
    decreases bytes.len(),
{
    if bytes.len() > 0 {
        let rest = bytes.skip(1);
        assert forall|i: int| 0 <= i < rest.len() implies is_plain(#[trigger] rest[i]) by {
            assert(rest[i] == bytes[i + 1]);
        }
        lemma_plain_stays(rest);
        assert(is_plain(bytes[0]));
    }
    assert(escaped(bytes) =~= bytes);
}

/// Trailers carry the number of the status code, in decimal, and the status message, if
/// there is one, percent-encoded. Every extra header follows, with all of its values.
pub proof fn law_trailers_carry_the_status(
    s: &Status,
    extra: &HeaderMap,
    trailers: HeaderMap,
    number: u32,
    digits: String,
    message: &str,
    text: String,
    name: Seq<char>,
)
    requires
        call_ensures(build_trailers, (s, extra), Some(trailers)),
        call_ensures(Code::number, (s.code,), number),
        call_ensures(decimal_string, (number as u128,), digits),
        message@ == s.message@,
        call_ensures(percent_encode_grpc_message, (message,), text),
    ensures
        ({
            let sent = values_of(header_values(trailers), name);
            let more = values_of(header_values(*extra), name);
            sent == if name == "grpc-status"@ {
                seq![encode_utf8(digits@)] + more
            } else if name == "grpc-message"@ && message@.len() > 0 {
                seq![encode_utf8(text@)] + more
            } else {
                more
            }
        }),
{
    lemma_grpc_headers();
    assert(values_of(header_values(trailers), name) =~= if name == "grpc-status"@ {
        seq![encode_utf8(digits@)] + values_of(header_values(*extra), name)
    } else if name == "grpc-message"@ && message@.len() > 0 {
        seq![encode_utf8(text@)] + values_of(header_values(*extra), name)
    } else {
        values_of(header_values(*extra), name)
    });
}

/// Trailers can be built whenever the extra headers have few enough names.
pub proof fn law_trailers_can_be_built(s: &Status, extra: &HeaderMap, r: Option<HeaderMap>)
    requires
        call_ensures(build_trailers, (s, extra), r),
        names_within(header_values(*extra), 6551),
    ensures
        r is Some,
{
    lemma_merged_count(status_headers(s@), header_values(*extra));
}

/// A response begins with the content type of gRPC and all extra headers, if nothing was
/// sent before. It can whenever the extra headers have few enough names.
pub proof fn law_responses_begin_with_headers(extra: &HeaderMap, r: Result<HeaderMap, Status>)
    ensures
        forall|s: &mut ServerStream| #[trigger]
            call_ensures(ServerStream::send_headers, (s, extra), r) ==> {
                &&& r matches Ok(m) ==> {
                    &&& (*s).send_state() == SendState::AwaitingHeaders
                    &&& (*final(s)).send_state() == SendState::Opening
                    &&& values_of(header_values(m), "content-type"@) == seq![
                        encode_utf8("application/grpc"@),
                    ] + values_of(header_values(*extra), "content-type"@)
                    &&& forall|name: Seq<char>|
                        name != "content-type"@ ==> #[trigger] values_of(header_values(m), name)
                            == values_of(header_values(*extra), name)
                }
                &&& r matches Err(e) ==> {
                    &&& e.code == Code::Internal
                    &&& (*final(s)).send_state() == (*s).send_state()
                }
                &&& (*s).send_state() != SendState::AwaitingHeaders ==> r is Err
                &&& (*s).send_state() == SendState::AwaitingHeaders && names_within(
                    header_values(*extra),
                    6552,
                ) ==> r is Ok
            },
{
    let h = response_headers(header_values(*extra));
    let base = inserted(no_headers(), "content-type"@, encode_utf8("application/grpc"@));
    if names_within(header_values(*extra), 6552) {
        lemma_merged_count(base, header_values(*extra));
    }
    assert(values_of(h, "content-type"@) =~= seq![encode_utf8("application/grpc"@)] + values_of(
        header_values(*extra),
        "content-type"@,
    ));
    assert forall|name: Seq<char>| name != "content-type"@ implies #[trigger] values_of(h, name)
        == values_of(header_values(*extra), name) by {
        assert(values_of(h, name) =~= values_of(header_values(*extra), name));
    }
}

/// Messages are passed on, as they are, after the headers were sent and before the
/// trailers were; at any other time they are an internal error.
pub proof fn law_messages_are_sent_while_streaming(
    s: &ServerStream,
    data: Bytes,
    r: Result<Bytes, Status>,
)
    requires
        call_ensures(ServerStream::send_message, (s, data), r),
    ensures
        (*s).send_state() == SendState::Streaming ==> r == Ok::<Bytes, Status>(data),
        (*s).send_state() != SendState::Streaming ==> (r matches Err(e) && e.code
            == Code::Internal),
{
}

/// Headers that were sent open the stream; headers that could not be end it, with an
/// internal error that says why.
pub proof fn law_sent_headers_open_the_stream(sent: Result<(), String>, r: Result<(), Status>)
    ensures
        forall|s: &mut ServerStream| #[trigger]
            call_ensures(ServerStream::headers_sent, (s, sent), r) ==> {
                &&& sent is Ok ==> r is Ok && (*final(s)).send_state() == SendState::Streaming
                &&& sent matches Err(t) ==> {
                    &&& r matches Err(e) && e.code == Code::Internal && e.message@
                        == "send_response"@ + ": "@ + t@
                    &&& (*final(s)).send_state() == SendState::Done
                }
            },
{
}

/// Ending a response sends the trailers once its headers were sent, and the headers first
/// if nothing was. After the trailers, nothing more can be sent.
pub proof fn law_responses_end_with_trailers(s: &Status, extra: &HeaderMap, r: TrailersStep)
    ensures
        forall|stream: &mut ServerStream| #[trigger]
            call_ensures(ServerStream::send_trailers, (stream, s, extra), r) ==> {
                let before = (*stream).send_state();
                let after = (*final(stream)).send_state();
                &&& before == SendState::AwaitingHeaders ==> {
                    &&& r matches TrailersStep::SendHeaders(m) && values_of(
                        header_values(m),
                        "content-type"@,
                    ) == seq![encode_utf8("application/grpc"@)]
                    &&& after == SendState::Opening
                }
                &&& before == SendState::Streaming && names_within(header_values(*extra), 6551)
                    ==> {
                    &&& r matches TrailersStep::SendTrailers(m) && header_values(m)
                        == trailer_headers(s@, header_values(*extra))
                    &&& after == SendState::Done
                }
                &&& before == SendState::Opening || before == SendState::Done ==> {
                    &&& r matches TrailersStep::Failed(e) && e.code == Code::Internal
                    &&& after == SendState::Done
                }
            },
{
    if names_within(header_values(*extra), 6551) {
        lemma_merged_count(status_headers(s@), header_values(*extra));
    }
    assert(values_of(response_headers(no_headers()), "content-type"@) =~= seq![
        encode_utf8("application/grpc"@),
    ]);
}

/// What came of sending something is passed on: success, or an internal error that names
/// the step and keeps the fault's text.
pub proof fn law_send_faults_name_the_step(
    step: &str,
    sent: Result<(), String>,
    r: Result<(), Status>,
)
    requires
        call_ensures(sent_status, (step, sent), r),
    ensures
        sent is Ok <==> r is Ok,
        sent matches Err(t) ==> (r matches Err(e) && e.code == Code::Internal && e.message@ == step@
            + ": "@ + t@),
{
}

/// A server that reads holds what arrives behind what it held; a message that is then whole
/// is returned, and just that. Of part of a message the rest is awaited, and a message whose
/// flag is not defined is an internal error. A fault is an internal error with its text.
pub proof fn law_server_reads_take_events(
    event: Option<DataEvent>,
    p: Progress<Option<Bytes>>,
    f: Seq<u8>,
    flag: u8,
    body: Seq<u8>,
    rest: Seq<u8>,
    n: int,
    now: Seq<u8>,
    ended: bool,
)
    requires
        is_on_the_wire(f, flag, body),
        flag <= 1,
        body.len() <= u32::MAX,
        0 <= n < f.len(),
    ensures
        forall|s: &mut ServerStream| #[trigger]
            call_ensures(ServerStream::recv_message, (s, event), p) ==> {
                let before = (*s).reader();
                let after = (*final(s)).reader();
                &&& (*final(s)).send_state() == (*s).send_state()
                &&& (*final(s)).path() == (*s).path()
                &&& (*final(s)).headers() == (*s).headers()
                &&& takes_in(before.buf, before.done, event, now, ended) ==> {
                    &&& after.done == ended
                    &&& now == f + rest ==> {
                        &&& p matches Progress::Ready(Ok(Some(m))) && bytes_of(m) == f
                        &&& after.buf == rest
                    }
                    &&& now == f.take(n) ==> awaits_the_rest(p, now, ended) && after.buf == now
                    &&& now.len() >= 5 && now[0] > 1 ==> {
                        &&& p matches Progress::Ready(Err(e)) && e.code == Code::Internal
                        &&& after.buf == now
                    }
                }
                &&& event matches Some(DataEvent::Fault(fault)) ==> (p matches Progress::Ready(
                    Err(e),
                ) && e.code == Code::Internal && e.message@ == "recv data frame"@ + ": "@
                    + fault.text@)
                &&& event matches Some(DataEvent::Data { bytes, released: Err(t) }) ==> (p matches
                    Progress::Ready(Err(e)) && e.code == Code::Internal && e.message@
                    == "release_capacity"@ + ": "@ + t@)
            },
{
    let all = f + rest;
    assert(all[0] == f[0] && all[1] == f[1] && all[2] == f[2] && all[3] == f[3] && all[4] == f[4]);
    assert(all.take(f.len() as int) =~= f);
    assert(all.skip(f.len() as int) =~= rest);
    lemma_part_of_a_message(f, flag, body, n);
}

/// A new stream has the path and the headers of its request, and nothing was sent or
/// received on it; it says how far the response has come, and what it has room for.
pub proof fn law_streams_hold_their_request(
    method: &str,
    headers: HeaderMap,
    s: ServerStream,
    path: &str,
    held: &HeaderMap,
    state: SendState,
    n: usize,
    room: bool,
)
    requires
        call_ensures(ServerStream::new, (method, headers), s),
        call_ensures(ServerStream::method, (&s,), path),
        call_ensures(ServerStream::request_headers, (&s,), held),
        call_ensures(ServerStream::state, (&s,), state),
        call_ensures(ServerStream::has_room, (&s, n), room),
    ensures
        path@ == method@,
        header_values(*held) == header_values(headers),
        state == SendState::AwaitingHeaders,
        s.reader().buf.len() == 0,
        !s.reader().done,
        room <==> n <= isize::MAX,
{
}

} // verus!
