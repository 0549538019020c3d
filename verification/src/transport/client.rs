//! The client side of one RPC stream.

use crate::buffers::bytes_of;
use crate::codec::is_on_the_wire;
use crate::headers::{
    append_headers, clone_map, find, header_text, header_values, insert_text, inserted,
    is_visible_byte, lemma_grpc_headers, lemma_merged_count, merged, names_within, new_map,
    no_headers, text_of, value_text, values_of, Headers, MAX_NAMES,
};
use crate::metadata::{is_visible_char, lemma_visible_text};
use crate::status::{
    code_from_u32, code_number, code_of_number, internal_at, internal_error, law_code_numbers,
    lemma_code_of_number, status, Code, Status, StatusView,
};
use crate::text::{
    decimal, digits_value, has_prefix, is_digit, join, law_decimal_round_trip,
    lemma_decimal_digits, lossy_text, numeral, parse_unsigned, starts_with, text_from_utf8_lossy,
    unsigned,
};
use crate::transport::server::{
    absorbed, escaped, event_fits, fresh_reader, hex_upper, is_plain, law_server_reads_the_stream,
    lemma_escaped_is_printable, lemma_percent_text_is_header, percent_encode_grpc_message,
    percent_text, read_at, read_call, sent_status, server_read, status_headers, too_many_headers,
    trailer_headers,
};
use crate::transport::{
    awaits_the_rest, concat, data_events, fault_at, fault_status, first_frame_len, is_frame, joined,
    lemma_part_of_a_message, poll_view, polled, read_view, room_for, takes_in, DataEvent,
    FrameReader, Input, Progress, ReadView, ReaderView, StreamFault,
};
use bytes::Bytes;
use http::HeaderMap;
use vstd::prelude::*;
use vstd::string::*;
use vstd::utf8::*;

verus! {

/// The value of a hexadecimal digit.
pub open spec fn hex_value(b: u8) -> Option<u8> {
    if 48 <= b <= 57 {
        Some((b - 48) as u8)
    } else if 97 <= b <= 102 {
        Some((b - 87) as u8)
    } else if 65 <= b <= 70 {
        Some((b - 55) as u8)
    } else {
        None
    }
}

/// Whether `bytes` begin with `%` and two hexadecimal digits.
pub open spec fn starts_escape(bytes: Seq<u8>) -> bool {
    bytes.len() >= 3 && bytes[0] == 0x25 && hex_value(bytes[1]) is Some && hex_value(
        bytes[2],
    ) is Some
}

/// The bytes that a percent-encoded message stands for. What is no escape stands
/// for itself.
pub open spec fn unescaped(bytes: Seq<u8>) -> Seq<u8>
    decreases bytes.len(),
{
    if bytes.len() == 0 {
        seq![]
    } else if starts_escape(bytes) {
        seq![(hex_value(bytes[1])->0 * 16 + hex_value(bytes[2])->0) as u8] + unescaped(
            bytes.skip(3),
        )
    } else {
        seq![bytes[0]] + unescaped(bytes.skip(1))
    }
}

/// The message that a percent-encoded text stands for.
pub open spec fn percent_decoded(s: Seq<char>) -> Seq<char> {
    lossy_text(unescaped(encode_utf8(s)))
}

/// The value of a hexadecimal digit.
pub fn from_hex(b: u8) -> (r: Option<u8>)
    ensures
        r == hex_value(b),
        r matches Some(v) ==> v < 16,
{
    if 48 <= b && b <= 57 {
        Some(b - 48)
    } else if 97 <= b && b <= 102 {
        Some(b - 87)
    } else if 65 <= b && b <= 70 {
        Some(b - 55)
    } else {
        None
    }
}

/// Decodes a percent-encoded status message.
pub fn percent_decode_grpc_message(s: &str) -> (r: String)
    ensures
        r@ == percent_decoded(s@),
{
    let bytes = s.as_bytes();
    let mut out: Vec<u8> = Vec::new();
    let mut i: usize = 0;
    assert(bytes@.skip(0) =~= bytes@);
    assert(out@ + unescaped(bytes@) =~= unescaped(bytes@));
    while i < bytes.len()
        invariant
            i <= bytes.len(),
            out@ + unescaped(bytes@.skip(i as int)) == unescaped(bytes@),
        decreases bytes.len() - i,
    {
        let ghost before = out@;
        let ghost rest = bytes@.skip(i as int);
        if bytes[i] == 0x25 && bytes.len() - i > 2 {
            if let Some(hi) = from_hex(bytes[i + 1]) {
                if let Some(lo) = from_hex(bytes[i + 2]) {
                    out.push(hi * 16 + lo);
                    i += 3;
                    proof {
                        assert(rest.skip(3) =~= bytes@.skip(i as int));
                        assert(out@ + unescaped(rest.skip(3)) =~= before + unescaped(rest));
                    }
                    continue ;
                }
            }
        }
        out.push(bytes[i]);
        i += 1;
        proof {
            assert(rest.skip(1) =~= bytes@.skip(i as int));
            assert(out@ + unescaped(rest.skip(1)) =~= before + unescaped(rest));
        }
    }
    assert(bytes@.skip(i as int) =~= seq![]);
    assert(out@ + seq![] =~= out@);
    text_from_utf8_lossy(out.as_slice())
}

/// Undoing the escapes of escaped bytes gives the bytes back.
pub proof fn lemma_unescaped_escaped(bytes: Seq<u8>)
    ensures
        unescaped(escaped(bytes)) == bytes,
    decreases bytes.len(),
{
    if bytes.len() > 0 {
        let b = bytes[0];
        let rest = escaped(bytes.skip(1));
        let all = escaped(bytes);
        lemma_unescaped_escaped(bytes.skip(1));
        assert(seq![b] + bytes.skip(1) =~= bytes);
        if is_plain(b) {
            assert(all[0] == b);
            assert(all.skip(1) =~= rest);
        } else {
            assert(all[0] == 0x25 && all[1] == hex_upper(b / 16) && all[2] == hex_upper(b % 16));
            assert(all.skip(3) =~= rest);
            assert(b / 16 * 16 + b % 16 == b);
        }
    }
}

/// A status message that was percent-encoded and decoded is the same message,
/// whatever characters it holds.
pub proof fn law_percent_round_trip(message: Seq<char>)
    ensures
        percent_decoded(percent_text(message)) == message,
{
    lemma_percent_text_is_header(message);
    lemma_unescaped_escaped(encode_utf8(message));
    encode_utf8_valid_utf8(message);
    encode_utf8_decode_utf8(message);
}

/// The status that trailers report.
pub open spec fn parsed_status(h: Headers) -> Result<StatusView, StatusView> {
    match text_of(h, "grpc-status"@) {
        None => Err(status(Code::Internal, "missing grpc-status header in trailers"@)),
        Some(text) => match numeral(text, u32::MAX as nat) {
            None => Err(status(Code::Internal, "non-numeric grpc-status: "@ + text)),
            Some(n) => match code_of_number(n as u32) {
                None => Err(
                    status(Code::Internal, "unknown grpc-status code: "@ + decimal(n)),
                ),
                Some(code) => Ok(
                    status(
                        code,
                        match text_of(h, "grpc-message"@) {
                            Some(m) => percent_decoded(m),
                            None => seq![],
                        },
                    ),
                ),
            },
        },
    }
}

/// The outcome of reading a status, by view.
pub open spec fn status_result(r: Result<Status, Status>) -> Result<StatusView, StatusView> {
    match r {
        Ok(s) => Ok(s@),
        Err(e) => Err(e@),
    }
}

/// Reads the status that trailers report: `grpc-status` and, if it is there,
/// `grpc-message`.
pub fn parse_grpc_status(trailers: &HeaderMap) -> (r: Result<Status, Status>)
    ensures
        status_result(r) == parsed_status(header_values(*trailers)),
{
    proof {
        lemma_grpc_headers();
    }
    let text = match header_text(trailers, "grpc-status") {
        Some(t) => t,
        None => return Err(Status::internal("missing grpc-status header in trailers")),
    };
    let number: u32 = match parse_unsigned(text.as_str(), u32::MAX as u64) {
        Some(n) => n as u32,
        None => return Err(
            Status::internal(join("non-numeric grpc-status: ", text.as_str()).as_str()),
        ),
    };
    let code = match code_from_u32(number) {
        Ok(c) => c,
        Err(e) => return Err(e),
    };
    let message = match header_text(trailers, "grpc-message") {
        Some(m) => percent_decode_grpc_message(m.as_str()),
        None => String::new(),
    };
    Ok(Status { code, message })
}

/// The client reads from the trailers the very status that the server ended the
/// RPC with. A status without a message needs trailers without another
/// `grpc-message`.
pub proof fn law_status_round_trip(s: StatusView, extra: Headers)
    requires
        s.message.len() > 0 || values_of(extra, "grpc-message"@).len() == 0,
    ensures
        parsed_status(trailer_headers(s, extra)) == Ok::<StatusView, StatusView>(s),
{
    lemma_grpc_headers();
    let base = status_headers(s);
    let all = trailer_headers(s, extra);
    let digits = decimal(code_number(s.code) as nat);
    let code_bytes = encode_utf8(digits);
    law_code_numbers(s.code);
    law_decimal_round_trip(code_number(s.code) as nat, u32::MAX as nat);
    assert(values_of(base, "grpc-status"@) =~= seq![code_bytes]);
    assert(values_of(all, "grpc-status"@)[0] == code_bytes);
    lemma_decimal_digits(code_number(s.code) as nat);
    assert forall|i: int| 0 <= i < digits.len() implies is_visible_char(
        #[trigger] digits[i],
    ) by {
        assert(is_digit(digits[i]));
    }
    lemma_visible_text(digits);
    if s.message.len() > 0 {
        let text = percent_text(s.message);
        let bytes = encode_utf8(text);
        law_percent_round_trip(s.message);
        lemma_percent_text_is_header(s.message);
        lemma_escaped_is_printable(encode_utf8(s.message));
        assert(values_of(base, "grpc-message"@) =~= seq![bytes]);
        assert(values_of(all, "grpc-message"@)[0] == bytes);
        assert forall|i: int| 0 <= i < text.len() implies is_visible_char(
            #[trigger] text[i],
        ) by {
            let b = escaped(encode_utf8(s.message))[i];
            assert(text[i] == b as char);
        }
        lemma_visible_text(text);
    } else {
        assert(values_of(all, "grpc-message"@) =~= seq![]);
        assert(s.message =~= seq![]);
    }
}

/// The text of an HTTP status code: the number and its reason phrase.
pub uninterp spec fn http_status_text(code: u16) -> Seq<char>;

/// The `Display` form of an `http::StatusCode`. The type holds the numbers from
/// 100 to 999.
#[verifier::external_body]
fn status_line(code: u16) -> (r: String)
    requires
        100 <= code <= 999,
    ensures
        r@ == http_status_text(code),
{
    http::StatusCode::from_u16(code).map(|s| s.to_string()).unwrap_or_default()
}

/// Why a text is not a request target, if it is not.
pub uninterp spec fn uri_fault(s: Seq<char>) -> Option<Seq<char>>;

/// Whether `http::Uri` can be parsed from the text and, if not, the error's
/// text. It depends on the text alone.
#[verifier::external_body]
fn check_uri(s: &str) -> (r: Result<(), String>)
    ensures
        uri_fault(s@) == fault_view(r),
{
    match s.parse::<http::Uri>() {
        Ok(_) => Ok(()),
        Err(e) => Err(e.to_string()),
    }
}

/// The fault of something that was tried, by view.
pub open spec fn fault_view(r: Result<(), String>) -> Option<Seq<char>> {
    match r {
        Ok(_) => None,
        Err(t) => Some(t@),
    }
}

/// The headers of a request: those that gRPC requires, and then the extra ones.
pub open spec fn request_headers(extra: Headers) -> Headers {
    merged(
        inserted(
            inserted(no_headers(), "content-type"@, encode_utf8("application/grpc"@)),
            "te"@,
            encode_utf8("trailers"@),
        ),
        extra,
    )
}

/// Builds the headers of a request to `method`.
///
/// A method that is no request target, and headers that do not fit into a header
/// map, are internal errors.
pub fn new_request(method: &str, extra: &HeaderMap) -> (r: Result<HeaderMap, Status>)
    ensures
        match uri_fault(method@) {
            Some(t) => r is Err && r->Err_0@ == internal_at("build request"@, t),
            None => {
                &&& r matches Ok(m) ==> header_values(m) == request_headers(header_values(*extra))
                &&& r matches Err(e) ==> e@ == too_many_headers("build request"@)
                &&& names_within(request_headers(header_values(*extra)), MAX_NAMES as nat)
                    ==> r is Ok
            },
        },
{
    build_request(check_uri(method), extra)
}

/// Builds the headers of a request, given whether its target is well formed.
pub fn build_request(target: Result<(), String>, extra: &HeaderMap) -> (r: Result<
    HeaderMap,
    Status,
>)
    ensures
        match fault_view(target) {
            Some(t) => r is Err && r->Err_0@ == internal_at("build request"@, t),
            None => {
                &&& r matches Ok(m) ==> header_values(m) == request_headers(header_values(*extra))
                &&& r matches Err(e) ==> e@ == too_many_headers("build request"@)
                &&& names_within(request_headers(header_values(*extra)), MAX_NAMES as nat)
                    ==> r is Ok
            },
        },
{
    if let Err(t) = target {
        return Err(internal_error("build request", t.as_str()));
    }
    proof {
        lemma_grpc_headers();
    }
    let mut map = new_map();
    insert_text(&mut map, "content-type", "application/grpc");
    insert_text(&mut map, "te", "trailers");
    if let Err(t) = append_headers(&mut map, extra) {
        return Err(internal_error("build request", t.as_str()));
    }
    Ok(map)
}

/// The head of a response: its HTTP status and its headers.
#[derive(Debug)]
pub struct ResponseHead {
    pub status: u16,
    pub headers: HeaderMap,
}

/// What arrives while the trailers are awaited.
#[derive(Debug)]
pub enum TrailersEvent {
    /// Data that precedes the trailers.
    Data(DataEvent),
    /// The trailers, if there are any.
    Trailers(Result<Option<HeaderMap>, StreamFault>),
}

/// The head of a response, as far as a stream has come to it.
#[derive(Debug)]
pub enum HeadState {
    /// It was not received yet.
    Pending,
    /// It was received and is that of a gRPC response.
    Received(HeaderMap),
    /// It could not be received, or is not that of a gRPC response.
    Rejected,
}

/// The head of a response, by view.
pub enum HeadView {
    Pending,
    Received(Headers),
    Rejected,
}

/// The head of a response, by view.
pub open spec fn head_view(h: HeadState) -> HeadView {
    match h {
        HeadState::Pending => HeadView::Pending,
        HeadState::Received(m) => HeadView::Received(header_values(m)),
        HeadState::Rejected => HeadView::Rejected,
    }
}

/// One RPC stream on the client side.
#[derive(Debug)]
pub struct ClientStream {
    head: HeadState,
    reader: FrameReader,
    cancelled: bool,
}

/// A client stream, by view.
pub struct ClientView {
    pub head: HeadView,
    pub reader: ReaderView,
    pub cancelled: bool,
}

impl View for ClientStream {
    type V = ClientView;

    closed spec fn view(&self) -> ClientView {
        ClientView {
            head: head_view(self.head),
            reader: self.reader@,
            cancelled: self.cancelled,
        }
    }
}

/// The status of a call that this side cancelled.
pub open spec fn call_cancelled() -> StatusView {
    status(Code::Cancelled, "call cancelled"@)
}

/// The status of a response with another HTTP status than 200, given the text of
/// that HTTP status.
pub open spec fn bad_http_status(text: Seq<char>) -> StatusView {
    status(Code::Internal, "unexpected HTTP status: "@ + text)
}

/// Builds the status of a response with another HTTP status than 200, given the
/// text of that HTTP status.
pub fn unexpected_http_status(text: &str) -> (s: Status)
    ensures
        s@ == bad_http_status(text@),
{
    Status::internal(join("unexpected HTTP status: ", text).as_str())
}

/// Why a response head is not that of a gRPC response, if it is not: the HTTP
/// status must be 200 and the content type, if there is one, that of gRPC.
pub open spec fn head_fault(code: u16, h: Headers) -> Option<StatusView> {
    if code != 200 {
        Some(bad_http_status(http_status_text(code)))
    } else if values_of(h, "content-type"@).len() == 0 {
        None
    } else {
        match text_of(h, "content-type"@) {
            Some(t) => if has_prefix(t, "application/grpc"@) {
                None
            } else {
                Some(status(Code::Internal, "unexpected content-type: "@ + t))
            },
            None => Some(status(Code::Internal, "unexpected content-type: <non-utf8>"@)),
        }
    }
}

/// How far receiving the response head has come, by view.
pub enum HeadProgress {
    Want(Input),
    Headers(Headers),
    Failed(StatusView),
}

/// How far receiving the response head has come, by view.
pub open spec fn head_progress(p: Progress<HeaderMap>) -> HeadProgress {
    match p {
        Progress::Want(input) => HeadProgress::Want(input),
        Progress::Ready(Ok(m)) => HeadProgress::Headers(header_values(m)),
        Progress::Ready(Err(e)) => HeadProgress::Failed(e@),
    }
}

/// What receiving the response head comes to: the stream's head afterwards, and
/// how far it has come.
pub open spec fn recv_head(
    c: ClientView,
    response: Option<Result<ResponseHead, StreamFault>>,
) -> (HeadView, HeadProgress) {
    if c.cancelled {
        (c.head, HeadProgress::Failed(call_cancelled()))
    } else {
        match c.head {
            HeadView::Received(h) => (c.head, HeadProgress::Headers(h)),
            HeadView::Rejected => (c.head, HeadProgress::Headers(no_headers())),
            HeadView::Pending => match response {
                None => (c.head, HeadProgress::Want(Input::Response)),
                Some(Err(f)) => (
                    HeadView::Rejected,
                    HeadProgress::Failed(fault_at("await response headers"@, f)),
                ),
                Some(Ok(r)) => match head_fault(r.status, header_values(r.headers)) {
                    Some(fault) => (HeadView::Rejected, HeadProgress::Failed(fault)),
                    None => (
                        HeadView::Received(header_values(r.headers)),
                        HeadProgress::Headers(header_values(r.headers)),
                    ),
                },
            },
        }
    }
}

/// What the client reports of a data event, before it asks for a message:
/// nothing, or the error that ends the read.
pub open spec fn client_data_fault(event: DataEvent) -> Option<StatusView> {
    match event {
        DataEvent::Data { bytes, released: Err(t) } => Some(internal_at("release_capacity"@, t@)),
        DataEvent::Data { bytes, released: Ok(_) } => None,
        DataEvent::End => None,
        DataEvent::Fault(f) => Some(fault_at("recv data frame"@, f)),
    }
}

/// What reading a message comes to: the reader afterwards, and how far it has
/// come.
pub open spec fn recv_data(c: ClientView, event: Option<DataEvent>) -> (ReaderView, ReadView) {
    if c.cancelled {
        (c.reader, ReadView::Failed(call_cancelled()))
    } else if !(c.head is Received) {
        (
            c.reader,
            ReadView::Failed(
                status(Code::Internal, "recv_headers must be called before recv_message"@),
            ),
        )
    } else {
        match event {
            Some(e) => match client_data_fault(e) {
                Some(fault) => (absorbed(c.reader, e), ReadView::Failed(fault)),
                None => (polled(absorbed(c.reader, e)), poll_view(absorbed(c.reader, e))),
            },
            None => (polled(c.reader), poll_view(c.reader)),
        }
    }
}

/// How far receiving the trailers has come, by view.
pub enum TrailersProgress {
    Want(Input),
    Trailers(StatusView, Headers),
    Failed(StatusView),
}

/// How far receiving the trailers has come, by view.
pub open spec fn trailers_progress(p: Progress<(Status, HeaderMap)>) -> TrailersProgress {
    match p {
        Progress::Want(input) => TrailersProgress::Want(input),
        Progress::Ready(Ok((s, m))) => TrailersProgress::Trailers(s@, header_values(m)),
        Progress::Ready(Err(e)) => TrailersProgress::Failed(e@),
    }
}

/// What the trailers `h` come to: the status that they report.
pub open spec fn ended(h: Headers) -> TrailersProgress {
    match parsed_status(h) {
        Ok(s) => TrailersProgress::Trailers(s, h),
        Err(e) => TrailersProgress::Failed(e),
    }
}

/// What receiving the trailers comes to: whether all data has arrived, and how
/// far it has come. Data that precedes the trailers is dropped.
pub open spec fn recv_end(c: ClientView, event: Option<TrailersEvent>) -> (bool, TrailersProgress) {
    let done = c.reader.done;
    if c.cancelled {
        (done, TrailersProgress::Failed(call_cancelled()))
    } else if !(c.head is Received) {
        (
            done,
            TrailersProgress::Failed(
                status(Code::Internal, "recv_headers must be called before recv_trailers"@),
            ),
        )
    } else if !done {
        match event {
            Some(TrailersEvent::Data(DataEvent::End)) => (
                true,
                TrailersProgress::Want(Input::Trailers),
            ),
            Some(TrailersEvent::Data(DataEvent::Fault(f))) => (
                false,
                TrailersProgress::Failed(fault_at("drain data"@, f)),
            ),
            Some(TrailersEvent::Data(DataEvent::Data { bytes, released: Err(t) })) => (
                false,
                TrailersProgress::Failed(internal_at("drain release_capacity"@, t@)),
            ),
            _ => (false, TrailersProgress::Want(Input::Data)),
        }
    } else {
        match event {
            Some(TrailersEvent::Trailers(Ok(Some(m)))) => (true, ended(header_values(m))),
            Some(TrailersEvent::Trailers(Ok(None))) => (true, ended(no_headers())),
            Some(TrailersEvent::Trailers(Err(f))) => (
                true,
                TrailersProgress::Failed(fault_at("recv trailers"@, f)),
            ),
            _ => (true, TrailersProgress::Want(Input::Trailers)),
        }
    }
}

/// Checks that a response head is that of a gRPC response.
fn check_head(code: u16, headers: &HeaderMap) -> (r: Result<(), Status>)
    requires
        100 <= code <= 999,
    ensures
        match head_fault(code, header_values(*headers)) {
            Some(fault) => r is Err && r->Err_0@ == fault,
            None => r is Ok,
        },
{
    if code != 200 {
        return Err(unexpected_http_status(status_line(code).as_str()));
    }
    proof {
        lemma_grpc_headers();
    }
    if find(headers, "content-type").is_none() {
        return Ok(());
    }
    match header_text(headers, "content-type") {
        Some(t) => if starts_with(t.as_str(), "application/grpc") {
            Ok(())
        } else {
            Err(Status::internal(join("unexpected content-type: ", t.as_str()).as_str()))
        },
        None => Err(Status::internal("unexpected content-type: <non-utf8>")),
    }
}

/// Whether `r` reports what came of sending something in the given step.
pub open spec fn sent_as(
    step: Seq<char>,
    sent: Result<(), String>,
    r: Result<(), Status>,
) -> bool {
    match sent {
        Ok(_) => r is Ok,
        Err(t) => r matches Err(e) && e@ == internal_at(step, t@),
    }
}

impl ClientStream {
    /// A stream whose request was sent.
    pub fn new() -> (s: Self)
        ensures
            s@ == (ClientView {
                head: HeadView::Pending,
                reader: ReaderView { buf: seq![], done: false },
                cancelled: false,
            }),
    {
        ClientStream { head: HeadState::Pending, reader: FrameReader::new(), cancelled: false }
    }

    /// Whether `n` more bytes of data can be taken.
    pub fn has_room(&self, n: usize) -> (b: bool)
        ensures
            b == room_for(self@.reader.buf, n as nat),
    {
        self.reader.has_room(n)
    }

    /// Sends a frame, with `send` to hand it to the connection. The last frame
    /// also ends the request.
    pub fn send_message<F: FnOnce(Bytes, bool) -> Result<(), String>>(
        &mut self,
        data: Bytes,
        end_of_stream: bool,
        send: F,
    ) -> (r: Result<(), Status>)
        requires
            call_requires(send, (data, end_of_stream)),
        ensures
            final(self)@ == old(self)@,
            exists|sent: Result<(), String>| #[trigger]
                call_ensures(send, (data, end_of_stream), sent) && sent_as(
                    "send_data"@,
                    sent,
                    r,
                ),
    {
        sent_status("send_data", send(data, end_of_stream))
    }

    /// Ends the request without sending more data, with `send` to hand the end
    /// to the connection.
    pub fn finish_send<F: FnOnce(Bytes, bool) -> Result<(), String>>(&mut self, send: F) -> (r:
        Result<(), Status>)
        requires
            forall|none: Bytes|
                bytes_of(none).len() == 0 ==> #[trigger] call_requires(send, (none, true)),
        ensures
            final(self)@ == old(self)@,
            exists|none: Bytes, sent: Result<(), String>|
                bytes_of(none).len() == 0 && #[trigger] call_ensures(send, (none, true), sent)
                    && sent_as("finish_send"@, sent, r),
    {
        sent_status("finish_send", send(Bytes::new(), true))
    }

    /// Cancels the call: from now on every receive operation reports so.
    pub fn cancel(&mut self)
        ensures
            final(self)@ == (ClientView { cancelled: true, ..old(self)@ }),
    {
        self.cancelled = true;
    }

    /// Receives the response headers, given the response that was awaited, if
    /// any. Once they were received, later calls return the same headers.
    pub fn recv_headers(&mut self, response: Option<Result<ResponseHead, StreamFault>>) -> (p:
        Progress<HeaderMap>)
        requires
            response matches Some(Ok(r)) ==> 100 <= r.status <= 999,
        ensures
            head_progress(p) == recv_head(old(self)@, response).1,
            final(self)@ == (ClientView {
                head: recv_head(old(self)@, response).0,
                ..old(self)@
            }),
    {
        if self.cancelled {
            return Progress::Ready(Err(Status::cancelled("call cancelled")));
        }
        match &self.head {
            HeadState::Received(m) => return Progress::Ready(Ok(clone_map(m))),
            HeadState::Rejected => return Progress::Ready(Ok(new_map())),
            HeadState::Pending => {},
        }
        match response {
            None => Progress::Want(Input::Response),
            Some(Err(f)) => {
                self.head = HeadState::Rejected;
                Progress::Ready(Err(fault_status("await response headers", &f)))
            },
            Some(Ok(r)) => match check_head(r.status, &r.headers) {
                Err(e) => {
                    self.head = HeadState::Rejected;
                    Progress::Ready(Err(e))
                },
                Ok(_) => {
                    let copy = clone_map(&r.headers);
                    self.head = HeadState::Received(r.headers);
                    Progress::Ready(Ok(copy))
                },
            },
        }
    }

    /// Reads the next message, given the data event that was awaited, if any.
    ///
    /// The message is the raw frame. There is none once the server has sent all
    /// its data and every message was delivered. The response headers must have
    /// been received.
    pub fn recv_message(&mut self, event: Option<DataEvent>) -> (p: Progress<Option<Bytes>>)
        requires
            event_fits(old(self)@.reader, event),
        ensures
            read_view(p) == recv_data(old(self)@, event).1,
            final(self)@ == (ClientView { reader: recv_data(old(self)@, event).0, ..old(self)@ }),
    {
        if self.cancelled {
            return Progress::Ready(Err(Status::cancelled("call cancelled")));
        }
        match &self.head {
            HeadState::Received(_) => {},
            _ => return Progress::Ready(
                Err(Status::internal("recv_headers must be called before recv_message")),
            ),
        }
        match event {
            Some(DataEvent::Data { bytes, released }) => {
                self.reader.push(&bytes);
                if let Err(t) = released {
                    return Progress::Ready(Err(internal_error("release_capacity", t.as_str())));
                }
            },
            Some(DataEvent::End) => {
                self.reader.finish();
            },
            Some(DataEvent::Fault(f)) => {
                return Progress::Ready(Err(fault_status("recv data frame", &f)));
            },
            None => {},
        }
        self.reader.poll()
    }

    /// Receives the trailers and the status that they report, given the event
    /// that was awaited, if any.
    ///
    /// Data that still precedes the trailers is dropped. The response headers
    /// must have been received.
    pub fn recv_trailers(&mut self, event: Option<TrailersEvent>) -> (p: Progress<
        (Status, HeaderMap),
    >)
        ensures
            trailers_progress(p) == recv_end(old(self)@, event).1,
            final(self)@ == (ClientView {
                reader: ReaderView {
                    buf: old(self)@.reader.buf,
                    done: recv_end(old(self)@, event).0,
                },
                ..old(self)@
            }),
    {
        if self.cancelled {
            return Progress::Ready(Err(Status::cancelled("call cancelled")));
        }
        match &self.head {
            HeadState::Received(_) => {},
            _ => return Progress::Ready(
                Err(Status::internal("recv_headers must be called before recv_trailers")),
            ),
        }
        if !self.reader.is_done() {
            match event {
                Some(TrailersEvent::Data(DataEvent::End)) => {
                    self.reader.finish();
                    Progress::Want(Input::Trailers)
                },
                Some(TrailersEvent::Data(DataEvent::Fault(f))) => {
                    Progress::Ready(Err(fault_status("drain data", &f)))
                },
                Some(TrailersEvent::Data(DataEvent::Data { bytes: _, released: Err(t) })) => {
                    Progress::Ready(Err(internal_error("drain release_capacity", t.as_str())))
                },
                _ => Progress::Want(Input::Data),
            }
        } else {
            match event {
                Some(TrailersEvent::Trailers(Ok(m))) => {
                    let map = match m {
                        Some(map) => map,
                        None => new_map(),
                    };
                    match parse_grpc_status(&map) {
                        Ok(s) => Progress::Ready(Ok((s, map))),
                        Err(e) => Progress::Ready(Err(e)),
                    }
                },
                Some(TrailersEvent::Trailers(Err(f))) => {
                    Progress::Ready(Err(fault_status("recv trailers", &f)))
                },
                _ => Progress::Want(Input::Trailers),
            }
        }
    }
}

/// Once a call was cancelled, whatever is asked of it and whatever arrives, it
/// reports `Cancelled`, and stays cancelled.
pub proof fn law_cancelled_stays_cancelled(
    c: ClientView,
    response: Option<Result<ResponseHead, StreamFault>>,
    data: Option<DataEvent>,
    end: Option<TrailersEvent>,
)
    requires
        c.cancelled,
    ensures
        recv_head(c, response).1 == HeadProgress::Failed(call_cancelled()),
        recv_data(c, data).1 == ReadView::Failed(call_cancelled()),
        recv_end(c, end).1 == TrailersProgress::Failed(call_cancelled()),
        call_cancelled().code == Code::Cancelled,
{
}

/// One read of a message, event by event: as long as more data is wanted, the next
/// pending event is handed in. Gives the stream and the pending events afterwards,
/// and what the read came to.
pub open spec fn client_read_call(
    c: ClientView,
    event: Option<DataEvent>,
    pending: Seq<DataEvent>,
) -> (ClientView, Seq<DataEvent>, ReadView)
    decreases pending.len(),
{
    let (reader, v) = recv_data(c, event);
    let next = ClientView { reader, ..c };
    if v is Want && pending.len() > 0 {
        client_read_call(next, Some(pending[0]), pending.skip(1))
    } else {
        (next, pending, v)
    }
}

/// What the read with number `n`, the first being 0, comes to.
pub open spec fn client_read_at(c: ClientView, pending: Seq<DataEvent>, n: nat) -> ReadView
    decreases n,
{
    let (next, left, v) = client_read_call(c, None, pending);
    if n == 0 {
        v
    } else {
        client_read_at(next, left, (n - 1) as nat)
    }
}

/// A client that has the response headers `h` reads the messages of a stream in
/// order, however the data is cut into chunks. Once all of them were read, every
/// further read gives the end of the stream if nothing is left over, and an internal
/// error otherwise.
pub proof fn law_client_reads_the_stream(
    h: Headers,
    chunks: Seq<Bytes>,
    parts: Seq<Seq<u8>>,
    rest: Seq<u8>,
    n: nat,
)
    requires
        forall|i: int| 0 <= i < parts.len() ==> is_frame(#[trigger] parts[i]),
        first_frame_len(rest) is None,
        joined(chunks) == concat(parts) + rest,
    ensures
        ({
            let c = ClientView {
                head: HeadView::Received(h),
                reader: fresh_reader(),
                cancelled: false,
            };
            let v = client_read_at(c, data_events(chunks), n);
            &&& n < parts.len() ==> v == ReadView::Message(parts[n as int])
            &&& n >= parts.len() && rest.len() == 0 ==> v == ReadView::End
            &&& n >= parts.len() && rest.len() > 0 ==> (v matches ReadView::Failed(e) && e.code
                == Code::Internal)
        }),
{
    let c = ClientView { head: HeadView::Received(h), reader: fresh_reader(), cancelled: false };
    law_server_reads_the_stream(chunks, parts, rest, n);
    lemma_reads_like_the_server(c, data_events(chunks), n);
}

/// Whether no event is a fault.
pub open spec fn without_faults(events: Seq<DataEvent>) -> bool {
    forall|i: int| 0 <= i < events.len() ==> !(#[trigger] events[i] is Fault)
}

/// Without faults, one read of a client comes to what that of a server does.
pub proof fn lemma_call_like_the_server(
    c: ClientView,
    event: Option<DataEvent>,
    pending: Seq<DataEvent>,
)
    requires
        c.head is Received,
        !c.cancelled,
        event matches Some(e) ==> !(e is Fault),
        without_faults(pending),
    ensures
        ({
            let (reader, left, v) = read_call(c.reader, event, pending);
            &&& client_read_call(c, event, pending) == (ClientView { reader, ..c }, left, v)
            &&& without_faults(left)
        }),
    decreases pending.len(),
{
    let (reader, v) = recv_data(c, event);
    assert((reader, v) == server_read(c.reader, event));
    if v is Want && pending.len() > 0 {
        let others = pending.skip(1);
        assert forall|i: int| 0 <= i < others.len() implies !(#[trigger] others[i] is Fault) by {
            assert(others[i] == pending[i + 1]);
        }
        assert(!(pending[0] is Fault));
        lemma_call_like_the_server(ClientView { reader, ..c }, Some(pending[0]), others);
    }
}

/// Without faults, the reads of a client come to what those of a server do.
proof fn lemma_reads_like_the_server(c: ClientView, pending: Seq<DataEvent>, n: nat)
    requires
        c.head is Received,
        !c.cancelled,
        without_faults(pending),
    ensures
        client_read_at(c, pending, n) == read_at(c.reader, pending, n),
    decreases n,
{
    lemma_call_like_the_server(c, None, pending);
    if n > 0 {
        let (next, left, v) = client_read_call(c, None, pending);
        lemma_reads_like_the_server(next, left, (n - 1) as nat);
    }
}

/// Response headers that were received once are returned by every later call,
/// whatever else is handed in.
pub proof fn law_headers_are_kept(
    c: ClientView,
    first: Option<Result<ResponseHead, StreamFault>>,
    later: Option<Result<ResponseHead, StreamFault>>,
)
    requires
        recv_head(c, first).1 is Headers,
    ensures
        recv_head(ClientView { head: recv_head(c, first).0, ..c }, later) == recv_head(c, first),
{
}

/// The digits 0 to 9, and the letters A to F in either case, are hexadecimal digits; no
/// other byte is.
pub proof fn law_hexadecimal_digits(b: u8, r: Option<u8>)
    requires
        call_ensures(from_hex, (b,), r),
    ensures
        '0' as u8 <= b <= '9' as u8 ==> r == Some((b - '0' as u8) as u8),
        'a' as u8 <= b <= 'f' as u8 ==> r == Some((b - 'a' as u8 + 10) as u8),
        'A' as u8 <= b <= 'F' as u8 ==> r == Some((b - 'A' as u8 + 10) as u8),
        r is Some ==> '0' as u8 <= b <= '9' as u8 || 'a' as u8 <= b <= 'f' as u8 || 'A' as u8 <= b
            <= 'F' as u8,
        r == hex_value(b),
{
}

/// An encoded message is decoded from left to right: `%` and two hexadecimal digits are
/// one byte, and any other byte stands for itself.
pub proof fn law_escapes_are_undone_one_by_one(b: u8, hi: u8, lo: u8, rest: Seq<u8>)
    ensures
        unescaped(seq![]).len() == 0,
        b != 0x25 ==> unescaped(seq![b] + rest) == seq![b] + unescaped(rest),
        hex_value(hi) matches Some(h) ==> hex_value(lo) matches Some(l) ==> unescaped(
            seq![0x25, hi, lo] + rest,
        ) == seq![(h * 16 + l) as u8] + unescaped(rest),
        hex_value(hi) is None || hex_value(lo) is None ==> unescaped(seq![0x25, hi, lo] + rest)
            == seq![0x25u8] + unescaped(seq![hi, lo] + rest),
        unescaped(seq![0x25, hi]) == seq![0x25u8] + unescaped(seq![hi]),
        unescaped(seq![0x25u8]) == seq![0x25u8],
{
    let one = seq![b] + rest;
    let three = seq![0x25, hi, lo] + rest;
    assert(one.skip(1) =~= rest);
    assert(three.skip(3) =~= rest);
    assert(three.skip(1) =~= seq![hi, lo] + rest);
    assert(seq![0x25, hi].skip(1) =~= seq![hi]);
    assert(seq![0x25u8].skip(1) =~= seq![]);
    assert(unescaped(Seq::<u8>::empty()) =~= seq![]);
    assert(unescaped(seq![0x25u8]) =~= seq![0x25u8]);
}

/// The text that a message is decoded to is that of its bytes with the escapes undone,
/// where these bytes are UTF-8. ASCII text without a percent sign is decoded to itself.
pub proof fn law_messages_are_unescaped(s: &str, r: String)
    requires
        call_ensures(percent_decode_grpc_message, (s,), r),
    ensures
        valid_utf8(unescaped(encode_utf8(s@))) ==> r@ == decode_utf8(unescaped(encode_utf8(s@))),
        is_ascii_chars(s@) && !s@.contains('%') ==> r@ == s@,
{
    if is_ascii_chars(s@) && !s@.contains('%') {
        let bytes = encode_utf8(s@);
        is_ascii_chars_encode_utf8(s@);
        assert forall|i: int| 0 <= i < bytes.len() implies #[trigger] bytes[i] != 0x25 by {
            assert(s@[i] as u8 == bytes[i]);
            assert(s@[i] != '%');
        }
        lemma_nothing_to_undo(bytes);
        encode_utf8_valid_utf8(s@);
        encode_utf8_decode_utf8(s@);
    }
}

/// Bytes without a percent sign stand for themselves.
proof fn lemma_nothing_to_undo(bytes: Seq<u8>)
    requires
        forall|i: int| 0 <= i < bytes.len() ==> #[trigger] bytes[i] != 0x25,
    ensures
        unescaped(bytes) == bytes,
    decreases bytes.len(),
{
    if bytes.len() > 0 {
        let rest = bytes.skip(1);
        assert forall|i: int| 0 <= i < rest.len() implies #[trigger] rest[i] != 0x25 by {
            assert(rest[i] == bytes[i + 1]);
        }
        lemma_nothing_to_undo(rest);
        assert(bytes[0] != 0x25);
    }
    assert(unescaped(bytes) =~= bytes);
}

/// Decoding a message that was encoded gives the message back, whatever it holds.
pub proof fn law_messages_survive_encoding(message: &str, sent: String, s: &str, read: String)
    requires
        call_ensures(percent_encode_grpc_message, (message,), sent),
        s@ == sent@,
        call_ensures(percent_decode_grpc_message, (s,), read),
    ensures
        read@ == message@,
{
    law_percent_round_trip(message@);
}

/// Trailers report the code whose number `grpc-status` gives in decimal, and the message
/// that `grpc-message` gives, decoded, or none. Trailers without a number of a code are an
/// internal error.
pub proof fn law_trailers_report_their_status(
    trailers: &HeaderMap,
    r: Result<Status, Status>,
    text: Seq<char>,
    message: &str,
    decoded: String,
)
    requires
        call_ensures(parse_grpc_status, (trailers,), r),
        call_ensures(percent_decode_grpc_message, (message,), decoded),
        forall|i: int| 0 <= i < text.len() ==> ' ' <= #[trigger] text[i] && text[i] <= '~',
        text.len() > 0 ==> text[0] != '+',
        forall|i: int|
            0 <= i < message@.len() ==> ' ' <= #[trigger] message@[i] && message@[i] <= '~',
    ensures
        ({
            let statuses = values_of(header_values(*trailers), "grpc-status"@);
            let messages = values_of(header_values(*trailers), "grpc-message"@);
            let is_number = text.len() > 0 && forall|i: int|
                0 <= i < text.len() ==> '0' <= #[trigger] text[i] && text[i] <= '9';
            &&& statuses.len() == 0 ==> (r matches Err(e) && e.code == Code::Internal && e.message@
                == "missing grpc-status header in trailers"@)
            &&& statuses.len() > 0 && (exists|i: int|
                0 <= i < statuses[0].len() && #[trigger] statuses[0][i] > 126) ==> (r matches Err(
                e,
            ) && e.code == Code::Internal)
            &&& statuses.len() > 0 && (statuses[0] == encode_utf8(text) || statuses[0]
                == encode_utf8(seq!['+'] + text)) ==> {
                &&& !is_number || digits_value(text) > 16 ==> (r matches Err(e) && e.code
                    == Code::Internal)
                &&& is_number && digits_value(text) <= 16 ==> {
                    &&& r matches Ok(s) && code_number(s.code) == digits_value(text)
                    &&& messages.len() == 0 ==> r->Ok_0.message@.len() == 0
                    &&& messages.len() > 0 && (exists|i: int|
                        0 <= i < messages[0].len() && #[trigger] messages[0][i] > 126)
                        ==> r->Ok_0.message@.len() == 0
                    &&& messages.len() > 0 && messages[0] == encode_utf8(message@)
                        ==> r->Ok_0.message@ == decoded@
                }
            }
        }),
{
    assert forall|i: int| 0 <= i < text.len() implies is_visible_char(#[trigger] text[i]) by {}
    assert forall|i: int| 0 <= i < message@.len() implies is_visible_char(
        #[trigger] message@[i],
    ) by {}
    lemma_visible_text(text);
    lemma_visible_text(message@);
    let signed = seq!['+'] + text;
    assert forall|i: int| 0 <= i < signed.len() implies is_visible_char(#[trigger] signed[i]) by {
        if i > 0 {
            assert(signed[i] == text[i - 1]);
        }
    }
    lemma_visible_text(signed);
    assert(signed.skip(1) =~= text);
    assert(unsigned(signed) == text);
    assert(unsigned(text) == text);
    let statuses = values_of(header_values(*trailers), "grpc-status"@);
    let messages = values_of(header_values(*trailers), "grpc-message"@);
    if messages.len() > 0 {
        if value_text(messages[0]) is Some {
            assert forall|i: int| 0 <= i < messages[0].len() implies #[trigger] messages[0][i]
                <= 126 by {
                assert(is_visible_byte(messages[0][i]));
            }
        }
    }
    if statuses.len() > 0 {
        if value_text(statuses[0]) is Some {
            assert forall|i: int| 0 <= i < statuses[0].len() implies #[trigger] statuses[0][i]
                <= 126 by {
                assert(is_visible_byte(statuses[0][i]));
            }
        }
    }
    assert((forall|i: int| 0 <= i < text.len() ==> '0' <= #[trigger] text[i] && text[i] <= '9')
        == (forall|i: int| 0 <= i < text.len() ==> is_digit(#[trigger] text[i]))) by {
        if forall|i: int| 0 <= i < text.len() ==> is_digit(#[trigger] text[i]) {
            assert forall|i: int| 0 <= i < text.len() implies '0' <= #[trigger] text[i] && text[i]
                <= '9' by {
                assert(is_digit(text[i]));
            }
        }
    }
    if digits_value(text) <= 16 {
        lemma_code_of_number(digits_value(text) as u32);
    }
}

/// A request has the content type of gRPC and asks for trailers; every extra header
/// follows, with all of its values. A target that is none is an internal error with the
/// reason. Nothing else is refused as long as there are few enough names.
pub proof fn law_requests_carry_their_headers(
    target: Result<(), String>,
    extra: &HeaderMap,
    r: Result<HeaderMap, Status>,
    name: Seq<char>,
)
    requires
        call_ensures(build_request, (target, extra), r),
    ensures
        ({
            let more = values_of(header_values(*extra), name);
            &&& target matches Err(t) ==> (r matches Err(e) && e.code == Code::Internal
                && e.message@ == "build request"@ + ": "@ + t@)
            &&& target is Ok && names_within(header_values(*extra), 6551) ==> r is Ok
            &&& r matches Ok(m) ==> values_of(header_values(m), name) == if name
                == "content-type"@ {
                seq![encode_utf8("application/grpc"@)] + more
            } else if name == "te"@ {
                seq![encode_utf8("trailers"@)] + more
            } else {
                more
            }
        }),
{
    lemma_grpc_headers();
    let base = inserted(
        inserted(no_headers(), "content-type"@, encode_utf8("application/grpc"@)),
        "te"@,
        encode_utf8("trailers"@),
    );
    if names_within(header_values(*extra), 6551) {
        lemma_merged_count(base, header_values(*extra));
    }
    if let Ok(m) = r {
        let more = values_of(header_values(*extra), name);
        assert(values_of(header_values(m), name) =~= if name == "content-type"@ {
            seq![encode_utf8("application/grpc"@)] + more
        } else if name == "te"@ {
            seq![encode_utf8("trailers"@)] + more
        } else {
            more
        });
    }
}

/// Whether a response head is that of a gRPC response: status 200, and no content type but
/// one that begins with that of gRPC.
pub open spec fn is_grpc_head(code: u16, h: Headers) -> bool {
    &&& code == 200
    &&& !h.dom().contains("content-type"@) || h["content-type"@].len() == 0 || exists|
        rest: Seq<char>,
    |
        value_text(h["content-type"@][0]) == Some(#[trigger] ("application/grpc"@ + rest))
}

/// The head of a gRPC response is accepted, and no other is.
pub proof fn lemma_grpc_head(code: u16, h: Headers)
    ensures
        head_fault(code, h) is None <==> is_grpc_head(code, h),
        head_fault(code, h) matches Some(e) ==> e.code == Code::Internal,
{
    let prefix = "application/grpc"@;
    if let Some(t) = text_of(h, "content-type"@) {
        if has_prefix(t, prefix) {
            assert(t =~= prefix + t.skip(prefix.len() as int));
        }
        assert forall|rest: Seq<char>| t == #[trigger] (prefix + rest) implies has_prefix(
            t,
            prefix,
        ) by {
            assert(t.take(prefix.len() as int) =~= prefix);
        }
    }
}

/// Receiving the response head gives its headers if it is that of a gRPC response, and an
/// internal error if not; a fault of the stream is reported as such. A head that was
/// received is given again, and a call that was cancelled reports so.
pub proof fn law_response_heads_are_received(
    response: Option<Result<ResponseHead, StreamFault>>,
    p: Progress<HeaderMap>,
)
    ensures
        forall|c: &mut ClientStream| #[trigger]
            call_ensures(ClientStream::recv_headers, (c, response), p) ==> {
                let before = (*c)@;
                let after = (*final(c))@;
                &&& after.reader == before.reader && after.cancelled == before.cancelled
                &&& before.cancelled ==> (p matches Progress::Ready(Err(e)) && e.code
                    == Code::Cancelled)
                &&& !before.cancelled && before.head is Pending ==> {
                    &&& response is None ==> (p matches Progress::Want(Input::Response))
                    &&& response matches Some(Err(f)) ==> (p matches Progress::Ready(Err(e))
                        && e.code == (if f.cancelled {
                        Code::Cancelled
                    } else {
                        Code::Internal
                    }) && e.message@ == "await response headers"@ + ": "@ + f.text@)
                    &&& response matches Some(Ok(r)) ==> if is_grpc_head(
                        r.status,
                        header_values(r.headers),
                    ) {
                        &&& p matches Progress::Ready(Ok(m)) && header_values(m) == header_values(
                            r.headers,
                        )
                        &&& after.head == HeadView::Received(header_values(r.headers))
                    } else {
                        p matches Progress::Ready(Err(e)) && e.code == Code::Internal
                    }
                }
                &&& !before.cancelled && before.head is Rejected ==> (p matches Progress::Ready(
                    Ok(m),
                ) && header_values(m) == Map::<Seq<char>, Seq<Seq<u8>>>::empty() && after == before)
                &&& !before.cancelled ==> (before.head matches HeadView::Received(h) ==> (p matches
                    Progress::Ready(Ok(m)) && header_values(m) == h && after == before))
            },
{
    if let Some(Ok(r)) = response {
        lemma_grpc_head(r.status, header_values(r.headers));
    }
}

/// Once the response head was received, data that arrives is held behind what is there; a
/// message that is then whole is returned, and just that. Of part of a message the rest is
/// awaited, and a message whose flag is not defined is an internal error. Faults are
/// reported with their text, `Cancelled` if the stream was cancelled.
pub proof fn law_client_reads_take_events(
    event: Option<DataEvent>,
    p: Progress<Option<Bytes>>,
    f: Seq<u8>,
    flag: u8,
    body: Seq<u8>,
    rest: Seq<u8>,
    n: int,
    now: Seq<u8>,
    ended: bool,
)
    requires
        is_on_the_wire(f, flag, body),
        flag <= 1,
        body.len() <= u32::MAX,
        0 <= n < f.len(),
    ensures
        forall|c: &mut ClientStream| #[trigger]
            call_ensures(ClientStream::recv_message, (c, event), p) ==> {
                let before = (*c)@;
                let after = (*final(c))@;
                &&& after.head == before.head && after.cancelled == before.cancelled
                &&& before.cancelled ==> (p matches Progress::Ready(Err(e)) && e.code
                    == Code::Cancelled)
                &&& !before.cancelled && !(before.head is Received) ==> (p matches Progress::Ready(
                    Err(e),
                ) && e.code == Code::Internal)
                &&& !before.cancelled && before.head is Received ==> {
                    &&& takes_in(before.reader.buf, before.reader.done, event, now, ended) ==> {
                        &&& after.reader.done == ended
                        &&& now == f + rest ==> {
                            &&& p matches Progress::Ready(Ok(Some(m))) && bytes_of(m) == f
                            &&& after.reader.buf == rest
                        }
                        &&& now == f.take(n) ==> awaits_the_rest(p, now, ended) && after.reader.buf
                            == now
                        &&& now.len() >= 5 && now[0] > 1 ==> {
                            &&& p matches Progress::Ready(Err(e)) && e.code == Code::Internal
                            &&& after.reader.buf == now
                        }
                    }
                    &&& event matches Some(DataEvent::Fault(fault)) ==> (p matches Progress::Ready(
                        Err(e),
                    ) && e.code == (if fault.cancelled {
                        Code::Cancelled
                    } else {
                        Code::Internal
                    }) && e.message@ == "recv data frame"@ + ": "@ + fault.text@)
                    &&& event matches Some(DataEvent::Data { bytes, released: Err(t) }) ==> (
                    p matches Progress::Ready(Err(e)) && e.code == Code::Internal && e.message@
                        == "release_capacity"@ + ": "@ + t@)
                }
            },
{
    let all = f + rest;
    assert(all[0] == f[0] && all[1] == f[1] && all[2] == f[2] && all[3] == f[3] && all[4] == f[4]);
    assert(all.take(f.len() as int) =~= f);
    assert(all.skip(f.len() as int) =~= rest);
    lemma_part_of_a_message(f, flag, body, n);
}

/// A frame is handed to the connection just as it is, with the flag that ends the request
/// or not; the end of the request is handed on without data. Where that fails, it is an
/// internal error with the fault's text. Nothing else changes.
pub proof fn law_frames_are_handed_on<F: FnOnce(Bytes, bool) -> Result<(), String>>(
    data: Bytes,
    last: bool,
    send: F,
    r: Result<(), Status>,
)
    ensures
        forall|c: &mut ClientStream| #[trigger]
            call_ensures(ClientStream::send_message::<F>, (c, data, last, send), r) ==> {
                &&& (*final(c))@ == (*c)@
                &&& exists|sent: Result<(), String>|
                    {
                        &&& #[trigger] call_ensures(send, (data, last), sent)
                        &&& sent is Ok ==> r is Ok
                        &&& sent matches Err(t) ==> (r matches Err(e) && e.code == Code::Internal
                            && e.message@ == "send_data"@ + ": "@ + t@)
                    }
            },
        forall|c: &mut ClientStream| #[trigger]
            call_ensures(ClientStream::finish_send::<F>, (c, send), r) ==> {
                &&& (*final(c))@ == (*c)@
                &&& exists|none: Bytes, sent: Result<(), String>|
                    {
                        &&& bytes_of(none).len() == 0
                        &&& #[trigger] call_ensures(send, (none, true), sent)
                        &&& sent is Ok ==> r is Ok
                        &&& sent matches Err(t) ==> (r matches Err(e) && e.code == Code::Internal
                            && e.message@ == "finish_send"@ + ": "@ + t@)
                    }
            },
{
}

/// A method that is a request target is requested with the headers of gRPC and all extra
/// ones; of any other the reason is reported.
pub proof fn law_methods_are_requested(
    method: &str,
    extra: &HeaderMap,
    r: Result<HeaderMap, Status>,
    name: Seq<char>,
)
    requires
        call_ensures(new_request, (method, extra), r),
    ensures
        ({
            let more = values_of(header_values(*extra), name);
            &&& uri_fault(method@) matches Some(t) ==> (r matches Err(e) && e.code
                == Code::Internal && e.message@ == "build request"@ + ": "@ + t)
            &&& uri_fault(method@) is None && names_within(header_values(*extra), 6551)
                ==> r is Ok
            &&& r matches Ok(m) ==> values_of(header_values(m), name) == if name
                == "content-type"@ {
                seq![encode_utf8("application/grpc"@)] + more
            } else if name == "te"@ {
                seq![encode_utf8("trailers"@)] + more
            } else {
                more
            }
        }),
{
    lemma_grpc_headers();
    let base = inserted(
        inserted(no_headers(), "content-type"@, encode_utf8("application/grpc"@)),
        "te"@,
        encode_utf8("trailers"@),
    );
    if names_within(header_values(*extra), 6551) {
        lemma_merged_count(base, header_values(*extra));
    }
    if let Ok(m) = r {
        let more = values_of(header_values(*extra), name);
        assert(values_of(header_values(m), name) =~= if name == "content-type"@ {
            seq![encode_utf8("application/grpc"@)] + more
        } else if name == "te"@ {
            seq![encode_utf8("trailers"@)] + more
        } else {
            more
        });
    }
}

/// A response that is not one of gRPC is refused with a reason: its HTTP status if that is
/// not 200, and its content type otherwise.
pub proof fn law_refused_heads_give_the_reason(code: u16, h: Headers, text: &str, s: Status)
    requires
        call_ensures(unexpected_http_status, (text,), s),
    ensures
        s.code == Code::Internal,
        s.message@ == "unexpected HTTP status: "@ + text@,
        code != 200 ==> head_fault(code, h) == Some(
            status(Code::Internal, "unexpected HTTP status: "@ + http_status_text(code)),
        ),
        code == 200 ==> (head_fault(code, h) matches Some(e) ==> (text_of(h, "content-type"@)
            matches Some(t) ==> e == status(Code::Internal, "unexpected content-type: "@ + t))),
{
}

/// Receiving the trailers drops the data that is left, and then gives the trailers and the
/// status that they report, or the error that they are without one. Faults are reported
/// with their text, `Cancelled` if the stream was cancelled.
pub proof fn law_trailers_are_received(
    event: Option<TrailersEvent>,
    p: Progress<(Status, HeaderMap)>,
    trailers: HeaderMap,
    reported: Result<Status, Status>,
)
    requires
        call_ensures(parse_grpc_status, (&trailers,), reported),
    ensures
        forall|c: &mut ClientStream| #[trigger]
            call_ensures(ClientStream::recv_trailers, (c, event), p) ==> {
                let before = (*c)@;
                let after = (*final(c))@;
                &&& after.head == before.head && after.cancelled == before.cancelled
                &&& before.cancelled ==> (p matches Progress::Ready(Err(e)) && e.code
                    == Code::Cancelled)
                &&& !before.cancelled && !(before.head is Received) ==> (p matches Progress::Ready(
                    Err(e),
                ) && e.code == Code::Internal)
                &&& !before.cancelled && before.head is Received && !before.reader.done ==> {
                    &&& event is None ==> (p matches Progress::Want(Input::Data))
                    &&& event matches Some(
                        TrailersEvent::Data(DataEvent::Data { released: Ok(_), .. }),
                    ) ==> (p matches Progress::Want(Input::Data)) && !after.reader.done
                    &&& event matches Some(TrailersEvent::Data(DataEvent::End)) ==> (p matches
                        Progress::Want(Input::Trailers)) && after.reader.done
                    &&& event matches Some(
                        TrailersEvent::Data(DataEvent::Data { bytes, released: Err(t) }),
                    ) ==> (p matches Progress::Ready(Err(e)) && e.code == Code::Internal
                        && e.message@ == "drain release_capacity"@ + ": "@ + t@)
                    &&& event matches Some(TrailersEvent::Data(DataEvent::Fault(f))) ==> (p matches
                        Progress::Ready(Err(e)) && e.code == (if f.cancelled {
                        Code::Cancelled
                    } else {
                        Code::Internal
                    }) && e.message@ == "drain data"@ + ": "@ + f.text@)
                }
                &&& !before.cancelled && before.head is Received && before.reader.done ==> {
                    &&& event is None ==> (p matches Progress::Want(Input::Trailers))
                    &&& event matches Some(TrailersEvent::Trailers(Ok(Some(m)))) ==> header_values(
                        m,
                    ) == header_values(trailers) ==> match reported {
                        Ok(s) => p matches Progress::Ready(Ok((t, h))) && t@ == s@
                            && header_values(h) == header_values(trailers),
                        Err(fault) => p matches Progress::Ready(Err(e)) && e@ == fault@,
                    }
                    &&& event matches Some(TrailersEvent::Trailers(Ok(None))) ==> (p matches
                        Progress::Ready(Err(e)) && e.code == Code::Internal)
                    &&& event matches Some(TrailersEvent::Trailers(Err(f))) ==> (p matches
                        Progress::Ready(Err(e)) && e.code == (if f.cancelled {
                        Code::Cancelled
                    } else {
                        Code::Internal
                    }) && e.message@ == "recv trailers"@ + ": "@ + f.text@)
                }
            },
{
}

/// Cancelling a call marks it as cancelled and changes nothing else; a new call is not
/// cancelled and has received nothing.
pub proof fn law_cancelling_marks_the_call(new: ClientStream)
    ensures
        call_ensures(ClientStream::new, (), new) ==> !new@.cancelled && new@.head is Pending
            && new@.reader.buf.len() == 0 && !new@.reader.done,
        forall|c: &mut ClientStream| #[trigger]
            call_ensures(ClientStream::cancel, (c,), ()) ==> (*final(c))@.cancelled
                && (*final(c))@.head == (*c)@.head && (*final(c))@.reader == (*c)@.reader,
{
}

} // verus!
