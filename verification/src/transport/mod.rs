//! What travels on an HTTP/2 stream: timeouts, and frames cut out of a flow of
//! data.
//!
//! DATA arrives in chunks of any size. Both sides of an RPC buffer what arrives
//! and cut complete frames out of the buffer by the five-byte header.

pub mod client;
pub mod server;
pub use client::ClientStream;
pub use server::ServerStream;

use crate::buffers::{buffer_of, buffer_slice, bytes_of, bytes_slice};
use crate::codec::{
    bad_flag, body_len, frame, is_on_the_wire, lemma_frame_parts, undefined_flag, COMPRESSION_MADE,
    HEADER_LEN,
};
use crate::headers::{is_header_value, value_text};
use crate::metadata::{is_visible_char, lemma_visible_text};
use crate::status::{status, Code, Status, StatusView};
use crate::text::{
    decimal, decimal_string, digits_value, is_digit, join3, law_decimal_round_trip,
    lemma_decimal_digits, numeral, parse_unsigned, unsigned,
};
use bytes::{Bytes, BytesMut};
use std::time::Duration;
use vstd::prelude::*;
use vstd::string::*;
use vstd::utf8::*;

verus! {

/// The length of a duration, in nanoseconds.
pub uninterp spec fn duration_nanos(d: std::time::Duration) -> nat;

/// `Duration::as_nanos` is the duration's length.
pub assume_specification[ std::time::Duration::as_nanos ](d: &std::time::Duration) -> (n: u128)
    ensures
        n == duration_nanos(*d),
;

/// `Duration::from_secs` is that many seconds long.
pub assume_specification[ std::time::Duration::from_secs ](n: u64) -> (d: std::time::Duration)
    ensures
        duration_nanos(d) == n * 1_000_000_000,
;

/// `Duration::from_millis` is that many milliseconds long.
pub assume_specification[ std::time::Duration::from_millis ](n: u64) -> (d: std::time::Duration)
    ensures
        duration_nanos(d) == n * 1_000_000,
;

/// `Duration::from_micros` is that many microseconds long.
pub assume_specification[ std::time::Duration::from_micros ](n: u64) -> (d: std::time::Duration)
    ensures
        duration_nanos(d) == n * 1_000,
;

/// `Duration::from_nanos` is that many nanoseconds long.
pub assume_specification[ std::time::Duration::from_nanos ](n: u64) -> (d: std::time::Duration)
    ensures
        duration_nanos(d) == n,
;

/// Nanoseconds in an hour.
pub const HOUR: u128 = 3_600_000_000_000;

/// Nanoseconds in a minute.
pub const MINUTE: u128 = 60_000_000_000;

/// Nanoseconds in a second.
pub const SECOND: u128 = 1_000_000_000;

/// Nanoseconds in a millisecond.
pub const MILLI: u128 = 1_000_000;

/// Nanoseconds in a microsecond.
pub const MICRO: u128 = 1_000;

/// Whether a time is a whole number of units, of at most eight digits.
pub open spec fn fits_unit(nanos: nat, unit: u128) -> bool {
    nanos % (unit as nat) == 0 && nanos / (unit as nat) < 100_000_000
}

/// The `grpc-timeout` text of a time: a number and a unit, the coarsest unit of
/// which the time is a whole number of at most eight digits. A time that fits no
/// unit is written in nanoseconds.
pub open spec fn timeout_text(nanos: nat) -> Seq<char> {
    if fits_unit(nanos, HOUR) {
        decimal(nanos / (HOUR as nat)).push('H')
    } else if fits_unit(nanos, MINUTE) {
        decimal(nanos / (MINUTE as nat)).push('M')
    } else if fits_unit(nanos, SECOND) {
        decimal(nanos / (SECOND as nat)).push('S')
    } else if fits_unit(nanos, MILLI) {
        decimal(nanos / (MILLI as nat)).push('m')
    } else if fits_unit(nanos, MICRO) {
        decimal(nanos / (MICRO as nat)).push('u')
    } else {
        decimal(nanos).push('n')
    }
}

/// The nanoseconds of `value` units of so many seconds each, as long as that is, in
/// seconds, a number of 64 bits.
pub open spec fn nanos_of_units(value: nat, seconds: nat) -> Option<nat> {
    if value * seconds <= u64::MAX {
        Some(value * seconds * 1_000_000_000)
    } else {
        None
    }
}

/// The time that a `grpc-timeout` text stands for, if it is well formed and its
/// number is not too large.
pub open spec fn timeout_nanos(s: Seq<char>) -> Option<nat> {
    if s.len() == 0 {
        None
    } else {
        match numeral(s.drop_last(), u64::MAX as nat) {
            None => None,
            Some(value) => {
                let unit = s.last();
                if unit == 'H' {
                    nanos_of_units(value, 3600)
                } else if unit == 'M' {
                    nanos_of_units(value, 60)
                } else if unit == 'S' {
                    Some(value * 1_000_000_000)
                } else if unit == 'm' {
                    Some(value * 1_000_000)
                } else if unit == 'u' {
                    Some(value * 1_000)
                } else if unit == 'n' {
                    Some(value)
                } else {
                    None
                }
            },
        }
    }
}

/// Writes `value` and a unit.
fn with_unit(value: u128, unit: char) -> (s: String)
    ensures
        s@ == decimal(value as nat).push(unit),
{
    let mut s = decimal_string(value);
    s.push(unit);
    s
}

/// Tests whether a time is a whole number of units, of at most eight digits.
fn fits(nanos: u128, unit: u128) -> (b: bool)
    requires
        unit > 0,
    ensures
        b == fits_unit(nanos as nat, unit),
{
    nanos % unit == 0 && nanos / unit < 100_000_000
}

/// The `grpc-timeout` header value of a duration.
pub fn encode_timeout(d: Duration) -> (s: String)
    ensures
        s@ == timeout_text(duration_nanos(d)),
{
    let nanos: u128 = d.as_nanos();
    if fits(nanos, HOUR) {
        with_unit(nanos / HOUR, 'H')
    } else if fits(nanos, MINUTE) {
        with_unit(nanos / MINUTE, 'M')
    } else if fits(nanos, SECOND) {
        with_unit(nanos / SECOND, 'S')
    } else if fits(nanos, MILLI) {
        with_unit(nanos / MILLI, 'm')
    } else if fits(nanos, MICRO) {
        with_unit(nanos / MICRO, 'u')
    } else {
        with_unit(nanos, 'n')
    }
}

/// Reads a `grpc-timeout` header value. There is none if the format is not
/// recognised or the number is too large.
pub fn decode_timeout(s: &str) -> (r: Option<Duration>)
    ensures
        match timeout_nanos(s@) {
            Some(n) => r is Some && duration_nanos(r->0) == n,
            None => r is None,
        },
{
    let n: usize = s.unicode_len();
    if n == 0 {
        return None;
    }
    let number = s.substring_char(0, n - 1);
    assert(number@ =~= s@.drop_last());
    let value: u64 = match parse_unsigned(number, u64::MAX) {
        Some(v) => v,
        None => return None,
    };
    let unit = s.get_char(n - 1);
    if unit == 'H' {
        match value.checked_mul(3600) {
            Some(secs) => Some(Duration::from_secs(secs)),
            None => None,
        }
    } else if unit == 'M' {
        match value.checked_mul(60) {
            Some(secs) => Some(Duration::from_secs(secs)),
            None => None,
        }
    } else if unit == 'S' {
        Some(Duration::from_secs(value))
    } else if unit == 'm' {
        Some(Duration::from_millis(value))
    } else if unit == 'u' {
        Some(Duration::from_micros(value))
    } else if unit == 'n' {
        Some(Duration::from_nanos(value))
    } else {
        None
    }
}

/// What is wrong with the frame header at the start of `buf`, if all of it is there
/// and it is malformed: its compression flag must be one of the two defined ones.
pub open spec fn header_fault(buf: Seq<u8>) -> Option<StatusView> {
    if buf.len() >= HEADER_LEN && buf[0] > COMPRESSION_MADE {
        Some(bad_flag(buf[0]))
    } else {
        None
    }
}

/// The length of the frame at the start of `buf`, if its header is well formed and
/// all of it is there.
pub open spec fn first_frame_len(buf: Seq<u8>) -> Option<nat> {
    if buf.len() >= HEADER_LEN && header_fault(buf) is None && buf.len() >= HEADER_LEN + body_len(
        buf,
    ) {
        Some((HEADER_LEN + body_len(buf)) as nat)
    } else {
        None
    }
}

/// Cuts one complete frame out of the buffer: the frame if all of it is there,
/// none if more bytes are needed, an error if its header is malformed.
pub fn try_extract_frame(buf: &mut BytesMut) -> (r: Result<Option<Bytes>, Status>)
    ensures
        match header_fault(buffer_of(*old(buf))) {
            Some(e) => r is Err && r->Err_0@ == e && buffer_of(*final(buf)) == buffer_of(*old(buf)),
            None => r is Ok && match first_frame_len(buffer_of(*old(buf))) {
                Some(n) => {
                    &&& r->Ok_0 is Some
                    &&& bytes_of(r->Ok_0->0) == buffer_of(*old(buf)).take(n as int)
                    &&& buffer_of(*final(buf)) == buffer_of(*old(buf)).skip(n as int)
                },
                None => r->Ok_0 is None && *final(buf) == *old(buf),
            },
        },
{
    let data = buffer_slice(buf);
    let len: usize = data.len();
    if len < HEADER_LEN {
        return Ok(None);
    }
    let flag: u8 = data[0];
    if flag > COMPRESSION_MADE {
        return Err(undefined_flag(flag));
    }
    let wire: u64 = data[1] as u64 * 0x100_0000 + data[2] as u64 * 0x1_0000 + data[3] as u64 * 0x100
        + data[4] as u64;
    assert(wire == body_len(buffer_of(*buf)));
    if ((len - HEADER_LEN) as u64) < wire {
        return Ok(None);
    }
    Ok(Some(buf.split_to(HEADER_LEN + wire as usize).freeze()))
}

/// The complete frames at the start of `buf`.
pub open spec fn frames(buf: Seq<u8>) -> Seq<Seq<u8>>
    decreases buf.len(),
{
    match first_frame_len(buf) {
        Some(n) => if n > 0 {
            seq![buf.take(n as int)] + frames(buf.skip(n as int))
        } else {
            seq![]
        },
        None => seq![],
    }
}

/// What follows the complete frames at the start of `buf`.
pub open spec fn remainder(buf: Seq<u8>) -> Seq<u8>
    decreases buf.len(),
{
    match first_frame_len(buf) {
        Some(n) => if n > 0 {
            remainder(buf.skip(n as int))
        } else {
            buf
        },
        None => buf,
    }
}

/// A body length is never negative, and so a frame is never empty.
proof fn lemma_frame_len(buf: Seq<u8>)
    ensures
        first_frame_len(buf) matches Some(n) ==> HEADER_LEN <= n <= buf.len(),
{
}

/// What stands at the start of `buf` stands there whatever more arrives: a frame
/// comes first of all frames, and after a malformed header there is none.
pub proof fn lemma_start_stays(buf: Seq<u8>, more: Seq<u8>)
    ensures
        first_frame_len(buf) matches Some(n) ==> {
            &&& frames(buf + more) == seq![buf.take(n as int)] + frames(buf.skip(n as int) + more)
            &&& remainder(buf + more) == remainder(buf.skip(n as int) + more)
        },
        header_fault(buf) is Some ==> {
            &&& header_fault(buf + more) == header_fault(buf)
            &&& frames(buf + more).len() == 0
            &&& remainder(buf + more) == buf + more
        },
{
    lemma_frame_len(buf);
    let all = buf + more;
    if buf.len() >= HEADER_LEN {
        assert(all[0] == buf[0] && all[1] == buf[1] && all[2] == buf[2] && all[3] == buf[3]
            && all[4] == buf[4]);
    }
    if let Some(n) = first_frame_len(buf) {
        assert(first_frame_len(all) == first_frame_len(buf));
        assert(all.take(n as int) =~= buf.take(n as int));
        assert(all.skip(n as int) =~= buf.skip(n as int) + more);
    }
}

/// How data is cut into chunks makes no difference: the frames of all the data
/// are the frames of the first chunk, followed by those of what it left over and
/// the rest.
pub proof fn law_frames_ignore_chunking(a: Seq<u8>, b: Seq<u8>)
    ensures
        frames(a + b) == frames(a) + frames(remainder(a) + b),
        remainder(a + b) == remainder(remainder(a) + b),
    decreases a.len(),
{
    lemma_frame_len(a);
    match first_frame_len(a) {
        Some(n) => {
            let n = n as int;
            lemma_start_stays(a, b);
            law_frames_ignore_chunking(a.skip(n), b);
            assert(frames(a + b) =~= frames(a) + frames(remainder(a) + b));
        },
        None => {
            assert(frames(a) + frames(a + b) =~= frames(a + b));
        },
    }
}

/// The bytes of several frames, one after another.
pub open spec fn concat(parts: Seq<Seq<u8>>) -> Seq<u8>
    decreases parts.len(),
{
    if parts.len() == 0 {
        seq![]
    } else {
        parts[0] + concat(parts.skip(1))
    }
}

/// Whether `f` is a frame as the codec writes them.
pub open spec fn is_frame(f: Seq<u8>) -> bool {
    exists|flag: u8, body: Seq<u8>|
        flag <= COMPRESSION_MADE && body.len() <= u32::MAX && f == #[trigger] frame(flag, body)
}

/// Frames that are sent one after another are received as the same frames. What
/// follows them is left over, as long as it does not begin with another frame.
pub proof fn law_frames_then_rest(parts: Seq<Seq<u8>>, rest: Seq<u8>)
    requires
        forall|i: int| 0 <= i < parts.len() ==> is_frame(#[trigger] parts[i]),
        first_frame_len(rest) is None,
    ensures
        frames(concat(parts) + rest) == parts,
        remainder(concat(parts) + rest) == rest,
{
    law_frames_of_encoded(parts);
    law_frames_ignore_chunking(concat(parts), rest);
    assert(seq![] + rest =~= rest);
    assert(parts + seq![] =~= parts);
}

/// Frames that are sent one after another are received as the same frames, and
/// nothing is left over.
pub proof fn law_frames_of_encoded(parts: Seq<Seq<u8>>)
    requires
        forall|i: int| 0 <= i < parts.len() ==> is_frame(#[trigger] parts[i]),
    ensures
        frames(concat(parts)) == parts,
        remainder(concat(parts)) == Seq::<u8>::empty(),
    decreases parts.len(),
{
    if parts.len() == 0 {
        assert(frames(concat(parts)) =~= parts);
    } else {
        let tail = parts.skip(1);
        assert forall|i: int| 0 <= i < tail.len() implies is_frame(#[trigger] tail[i]) by {
            assert(tail[i] == parts[i + 1]);
        }
        law_frames_of_encoded(tail);
        let f = parts[0];
        assert(is_frame(f));
        let (flag, body) = choose|flag: u8, body: Seq<u8>|
            flag <= COMPRESSION_MADE && body.len() <= u32::MAX && f == #[trigger] frame(flag, body);
        lemma_frame_parts(flag, body);
        let all = concat(parts);
        assert(all == f + concat(tail));
        assert(all[0] == f[0] && all[1] == f[1] && all[2] == f[2] && all[3] == f[3] && all[4]
            == f[4]);
        assert(all.take(f.len() as int) =~= f);
        assert(all.skip(f.len() as int) =~= concat(tail));
        assert(frames(all) =~= parts) by {
            assert(seq![f] + tail =~= parts);
        }
    }
}

/// A timeout that was written and read back is the same time, as long as it is a
/// whole number of at most eight digits of some unit or, in nanoseconds, a number
/// of 64 bits.
pub proof fn law_timeout_round_trip(nanos: nat)
    requires
        nanos <= u64::MAX || fits_unit(nanos, HOUR) || fits_unit(nanos, MINUTE) || fits_unit(
            nanos,
            SECOND,
        ) || fits_unit(nanos, MILLI) || fits_unit(nanos, MICRO),
    ensures
        timeout_nanos(timeout_text(nanos)) == Some(nanos),
{
    let text = timeout_text(nanos);
    assert forall|value: nat, unit: char|
        value <= u64::MAX && text == #[trigger] decimal(value).push(unit) implies numeral(
        text.drop_last(),
        u64::MAX as nat,
    ) == Some(value) by {
        assert(text.drop_last() =~= decimal(value));
        law_decimal_round_trip(value, u64::MAX as nat);
    }
}

/// The text of a timeout is a legal header value, and is read back from its bytes.
pub proof fn lemma_timeout_header(nanos: nat)
    ensures
        is_header_value(encode_utf8(timeout_text(nanos))),
        value_text(encode_utf8(timeout_text(nanos))) == Some(timeout_text(nanos)),
{
    let text = timeout_text(nanos);
    assert forall|value: nat, unit: char|
        'H' <= unit && unit <= 'u' && text == #[trigger] decimal(value).push(unit) implies (forall|
        i: int,
    | 0 <= i < text.len() ==> is_visible_char(#[trigger] text[i])) by {
        lemma_decimal_digits(value);
        assert forall|i: int| 0 <= i < text.len() implies is_visible_char(#[trigger] text[i]) by {
            if i < decimal(value).len() {
                assert(is_digit(decimal(value)[i]));
            }
        }
    }
    lemma_visible_text(text);
}

/// A timeout that fits a unit is written with at most eight digits and one unit
/// character.
pub proof fn law_timeout_is_short(nanos: nat)
    requires
        fits_unit(nanos, HOUR) || fits_unit(nanos, MINUTE) || fits_unit(nanos, SECOND) || fits_unit(
            nanos,
            MILLI,
        ) || fits_unit(nanos, MICRO) || nanos < 100_000_000,
    ensures
        timeout_text(nanos).len() <= 9,
{
    let text = timeout_text(nanos);
    assert forall|value: nat, unit: char|
        value < 100_000_000 && text == #[trigger] decimal(value).push(unit) implies text.len()
        <= 9 by {
        reveal_with_fuel(decimal, 9);
    }
}

/// What went wrong on a stream: its text, and whether the peer or this side
/// cancelled the stream.
#[derive(Debug, PartialEq, Eq)]
pub struct StreamFault {
    pub cancelled: bool,
    pub text: String,
}

/// The status of a fault in the given step: `Cancelled` for a stream that was
/// cancelled, `Internal` for any other fault.
pub open spec fn fault_at(step: Seq<char>, fault: StreamFault) -> StatusView {
    status(
        if fault.cancelled {
            Code::Cancelled
        } else {
            Code::Internal
        },
        step + ": "@ + fault.text@,
    )
}

/// Builds the status of a fault.
pub fn fault_status(step: &str, fault: &StreamFault) -> (s: Status)
    ensures
        s@ == fault_at(step@, *fault),
{
    let text = join3(step, ": ", fault.text.as_str());
    if fault.cancelled {
        Status::cancelled(text.as_str())
    } else {
        Status::internal(text.as_str())
    }
}

/// What arrived on the data side of a stream.
#[derive(Debug)]
pub enum DataEvent {
    /// A chunk of data, and whether its flow-control credit could be given back.
    Data { bytes: Bytes, released: Result<(), String> },
    /// The peer sends no more data.
    End,
    /// Reading failed.
    Fault(StreamFault),
}

/// What has to be awaited before an operation can go on.
#[derive(Debug, Clone, Copy, PartialEq, Eq, Structural)]
pub enum Input {
    /// The response headers.
    Response,
    /// The next data event.
    Data,
    /// The trailing headers.
    Trailers,
}

/// How far an operation on a stream has come.
#[derive(Debug)]
pub enum Progress<T> {
    /// It needs more input.
    Want(Input),
    /// It is done.
    Ready(Result<T, Status>),
}

/// How far reading a message has come, by view.
pub enum ReadView {
    Want(Input),
    Message(Seq<u8>),
    End,
    Failed(StatusView),
}

/// How far reading a message has come, by view.
pub open spec fn read_view(p: Progress<Option<Bytes>>) -> ReadView {
    match p {
        Progress::Want(input) => ReadView::Want(input),
        Progress::Ready(Ok(Some(b))) => ReadView::Message(bytes_of(b)),
        Progress::Ready(Ok(None)) => ReadView::End,
        Progress::Ready(Err(e)) => ReadView::Failed(e@),
    }
}

/// What a reader holds: bytes that no frame was cut out of yet, and whether all
/// data has arrived.
pub struct ReaderView {
    pub buf: Seq<u8>,
    pub done: bool,
}

/// Cuts messages out of the data of one stream.
#[derive(Debug)]
pub struct FrameReader {
    buf: BytesMut,
    done: bool,
}

impl View for FrameReader {
    type V = ReaderView;

    closed spec fn view(&self) -> ReaderView {
        ReaderView { buf: buffer_of(self.buf), done: self.done }
    }
}

/// Whether `n` more bytes fit into a buffer of `held` bytes.
pub open spec fn room_for(held: Seq<u8>, n: nat) -> bool {
    held.len() + n <= isize::MAX
}

/// The reader after asking for the next message.
pub open spec fn polled(r: ReaderView) -> ReaderView {
    match first_frame_len(r.buf) {
        Some(n) => ReaderView { buf: r.buf.skip(n as int), done: r.done },
        None => r,
    }
}

/// What asking a reader for the next message comes to: the message if all of it
/// is there, the end of the stream if there can be none, an error if the message's
/// header is malformed or the stream ended inside a message.
pub open spec fn poll_view(r: ReaderView) -> ReadView {
    match header_fault(r.buf) {
        Some(e) => ReadView::Failed(e),
        None => match first_frame_len(r.buf) {
            Some(n) => ReadView::Message(r.buf.take(n as int)),
            None => if !r.done {
                ReadView::Want(Input::Data)
            } else if r.buf.len() == 0 {
                ReadView::End
            } else {
                ReadView::Failed(unexpected_end())
            },
        },
    }
}

/// The status of a stream that ended inside a message.
pub open spec fn unexpected_end() -> StatusView {
    status(Code::Internal, "unexpected EOF: incomplete gRPC message"@)
}

impl FrameReader {
    /// A reader that nothing has arrived at.
    pub fn new() -> (r: Self)
        ensures
            r@ == (ReaderView { buf: seq![], done: false }),
    {
        FrameReader { buf: BytesMut::new(), done: false }
    }

    /// Whether `n` more bytes fit into the buffer.
    pub fn has_room(&self, n: usize) -> (b: bool)
        ensures
            b == room_for(self@.buf, n as nat),
    {
        let held: usize = buffer_slice(&self.buf).len();
        held <= isize::MAX as usize && n <= isize::MAX as usize - held
    }

    /// Adds a chunk of data.
    pub fn push(&mut self, data: &Bytes)
        requires
            room_for(old(self)@.buf, bytes_of(*data).len()),
        ensures
            final(self)@ == (ReaderView {
                buf: old(self)@.buf + bytes_of(*data),
                done: old(self)@.done,
            }),
    {
        self.buf.extend_from_slice(bytes_slice(data));
    }

    /// Notes that all data has arrived.
    pub fn finish(&mut self)
        ensures
            final(self)@ == (ReaderView { buf: old(self)@.buf, done: true }),
    {
        self.done = true;
    }

    /// Whether all data has arrived.
    pub fn is_done(&self) -> (b: bool)
        ensures
            b == self@.done,
    {
        self.done
    }

    /// Asks for the next message.
    pub fn poll(&mut self) -> (p: Progress<Option<Bytes>>)
        ensures
            final(self)@ == polled(old(self)@),
            read_view(p) == poll_view(old(self)@),
    {
        match try_extract_frame(&mut self.buf) {
            Err(e) => Progress::Ready(Err(e)),
            Ok(Some(frame)) => Progress::Ready(Ok(Some(frame))),
            Ok(None) => if !self.done {
                Progress::Want(Input::Data)
            } else if buffer_slice(&self.buf).len() == 0 {
                Progress::Ready(Ok(None))
            } else {
                Progress::Ready(
                    Err(Status::internal("unexpected EOF: incomplete gRPC message")),
                )
            },
        }
    }
}

/// The bytes of several chunks of data, one after another.
pub open spec fn joined(chunks: Seq<Bytes>) -> Seq<u8>
    decreases chunks.len(),
{
    if chunks.len() == 0 {
        seq![]
    } else {
        bytes_of(chunks[0]) + joined(chunks.skip(1))
    }
}

/// What arrives of a stream: the chunks of data, and then its end.
pub open spec fn data_events(chunks: Seq<Bytes>) -> Seq<DataEvent> {
    chunks.map_values(|c: Bytes| DataEvent::Data { bytes: c, released: Ok(()) }).push(
        DataEvent::End,
    )
}

/// What reading comes to once every message was delivered and `rest` is left over:
/// the end of the stream if nothing is, an error otherwise.
pub open spec fn ended_with(rest: Seq<u8>) -> ReadView {
    match header_fault(rest) {
        Some(e) => ReadView::Failed(e),
        None => if rest.len() == 0 {
            ReadView::End
        } else {
            ReadView::Failed(unexpected_end())
        },
    }
}

/// What the read with number `n`, the first being 0, is to give of a stream with
/// the data `all`.
pub open spec fn read_of(all: Seq<u8>, n: nat) -> ReadView {
    if n < frames(all).len() {
        ReadView::Message(frames(all)[n as int])
    } else {
        ended_with(remainder(all))
    }
}

/// The messages of a stream come in order, and after them, on every further read,
/// the end of the stream or an internal error.
pub proof fn lemma_read_of_parts(all: Seq<u8>, parts: Seq<Seq<u8>>, rest: Seq<u8>, n: nat)
    requires
        forall|i: int| 0 <= i < parts.len() ==> is_frame(#[trigger] parts[i]),
        first_frame_len(rest) is None,
        all == concat(parts) + rest,
    ensures
        n < parts.len() ==> read_of(all, n) == ReadView::Message(parts[n as int]),
        n >= parts.len() && rest.len() == 0 ==> read_of(all, n) == ReadView::End,
        n >= parts.len() && rest.len() > 0 ==> (read_of(all, n) matches ReadView::Failed(e)
            && e.code == Code::Internal),
{
    law_frames_then_rest(parts, rest);
}

/// Whether a reader that `all` data has arrived at, and that has delivered the
/// messages `delivered`, can hold `buf`: what was delivered and what can still be
/// cut out of the buffer are together the frames of the data.
pub open spec fn reads(all: Seq<u8>, delivered: Seq<Seq<u8>>, buf: Seq<u8>) -> bool {
    frames(all) == delivered + frames(buf) && remainder(all) == remainder(buf)
}

/// A reader delivers the frames of all the data that arrives, each once and in
/// order: this holds at the start, and chunks and deliveries keep it.
pub proof fn law_reader_delivers_frames(
    all: Seq<u8>,
    delivered: Seq<Seq<u8>>,
    r: ReaderView,
    chunk: Seq<u8>,
)
    ensures
        reads(seq![], seq![], seq![]),
        reads(all, delivered, r.buf) ==> reads(all + chunk, delivered, r.buf + chunk),
        reads(all, delivered, r.buf) ==> (poll_view(r) matches ReadView::Message(m) ==> reads(
            all,
            delivered.push(m),
            polled(r).buf,
        )),
        reads(all, delivered, r.buf) && poll_view(r) is End ==> delivered == frames(all)
            && remainder(all) == Seq::<u8>::empty(),
{
    assert(frames(seq![]) =~= seq![] + frames(seq![]));
    if reads(all, delivered, r.buf) {
        law_frames_ignore_chunking(all, chunk);
        law_frames_ignore_chunking(r.buf, chunk);
        assert(frames(all + chunk) =~= delivered + frames(r.buf + chunk));
        lemma_frame_len(r.buf);
        if let ReadView::Message(m) = poll_view(r) {
            assert(frames(all) =~= delivered.push(m) + frames(polled(r).buf));
        }
        if poll_view(r) is End {
            assert(delivered + frames(r.buf) =~= delivered);
        }
    }
}

/// The nanoseconds in one of the units in which timeouts are written; no other character
/// is a unit.
pub open spec fn unit_nanos(unit: char) -> nat {
    if unit == 'H' {
        3_600_000_000_000
    } else if unit == 'M' {
        60_000_000_000
    } else if unit == 'S' {
        1_000_000_000
    } else if unit == 'm' {
        1_000_000
    } else if unit == 'u' {
        1_000
    } else if unit == 'n' {
        1
    } else {
        0
    }
}

/// A time limit is written as a whole number of some unit that is exactly the limit. It
/// has eight digits at most if there is a unit of which that many digits are enough, and
/// then no coarser unit would do.
pub proof fn law_timeouts_are_written_exactly(d: Duration, s: String)
    requires
        call_ensures(encode_timeout, (d,), s),
    ensures
        s@.len() >= 2,
        forall|i: int| 0 <= i < s@.len() - 1 ==> '0' <= #[trigger] s@[i] && s@[i] <= '9',
        unit_nanos(s@.last()) > 0,
        digits_value(s@.drop_last()) * unit_nanos(s@.last()) == duration_nanos(d),
        s@.last() != 'n' ==> digits_value(s@.drop_last()) < 100_000_000,
        forall|unit: char|
            unit_nanos(s@.last()) < #[trigger] unit_nanos(unit) ==> !(duration_nanos(d)
                % unit_nanos(unit) == 0 && duration_nanos(d) / unit_nanos(unit) < 100_000_000),
{
    let nanos = duration_nanos(d);
    let (value, unit) = lemma_timeout_parts(nanos);
    lemma_decimal_digits(value);
    assert(s@.drop_last() =~= decimal(value));
    assert forall|i: int| 0 <= i < s@.len() - 1 implies '0' <= #[trigger] s@[i] && s@[i]
        <= '9' by {
        assert(is_digit(decimal(value)[i]));
    }
}

/// A whole number of units is that number times the unit.
proof fn lemma_whole_units(nanos: nat, unit: char)
    requires
        unit_nanos(unit) > 0,
        nanos % unit_nanos(unit) == 0,
    ensures
        nanos / unit_nanos(unit) * unit_nanos(unit) == nanos,
{
    let k = unit_nanos(unit);
    vstd::arithmetic::div_mod::lemma_fundamental_div_mod(nanos as int, k as int);
    assert(k * (nanos / k) == nanos / k * k) by (nonlinear_arith);
}

/// The number and the unit that a time is written with.
proof fn lemma_timeout_parts(nanos: nat) -> (r: (nat, char))
    ensures
        timeout_text(nanos) == decimal(r.0).push(r.1),
        unit_nanos(r.1) > 0,
        r.0 * unit_nanos(r.1) == nanos,
        r.1 != 'n' ==> r.0 < 100_000_000,
        forall|unit: char|
            unit_nanos(r.1) < #[trigger] unit_nanos(unit) ==> !(nanos % unit_nanos(unit) == 0
                && nanos / unit_nanos(unit) < 100_000_000),
{
    let unit = if fits_unit(nanos, HOUR) {
        'H'
    } else if fits_unit(nanos, MINUTE) {
        'M'
    } else if fits_unit(nanos, SECOND) {
        'S'
    } else if fits_unit(nanos, MILLI) {
        'm'
    } else if fits_unit(nanos, MICRO) {
        'u'
    } else {
        'n'
    };
    lemma_whole_units(nanos, unit);
    (nanos / unit_nanos(unit), unit)
}

/// A timeout that is read is the number in front times the unit at the end. There is none
/// if there is no such unit, if something else than digits (and one `+`) stands in front
/// of it, or if the number, or the seconds of the hours or minutes, exceed 64 bits.
pub proof fn law_timeouts_are_read_exactly(
    s: &str,
    r: Option<Duration>,
    digits: Seq<char>,
    unit: char,
)
    requires
        call_ensures(decode_timeout, (s,), r),
        s@ == digits.push(unit) || s@ == (seq!['+'] + digits).push(unit),
        digits.len() > 0 ==> digits[0] != '+',
    ensures
        ({
            let value = digits_value(digits);
            let well_formed = digits.len() > 0 && (forall|i: int|
                0 <= i < digits.len() ==> '0' <= #[trigger] digits[i] && digits[i] <= '9')
                && unit_nanos(unit) > 0;
            let small = value <= u64::MAX && (unit == 'H' ==> value * 3600 <= u64::MAX) && (unit
                == 'M' ==> value * 60 <= u64::MAX);
            &&& r is Some <==> well_formed && small
            &&& r matches Some(d) ==> duration_nanos(d) == value * unit_nanos(unit)
        }),
{
    let front = s@.drop_last();
    assert(s@.last() == unit);
    if s@ == digits.push(unit) {
        assert(front =~= digits);
    } else {
        assert(front =~= seq!['+'] + digits);
        assert(front.skip(1) =~= digits);
    }
    lemma_timeout_value(s@, digits, unit);
}

/// What a timeout comes to whose number has the given digits.
proof fn lemma_timeout_value(s: Seq<char>, digits: Seq<char>, unit: char)
    requires
        s.len() > 0,
        unsigned(s.drop_last()) == digits,
        s.last() == unit,
    ensures
        ({
            let value = digits_value(digits);
            let well_formed = digits.len() > 0 && (forall|i: int|
                0 <= i < digits.len() ==> '0' <= #[trigger] digits[i] && digits[i] <= '9')
                && unit_nanos(unit) > 0;
            let small = value <= u64::MAX && (unit == 'H' ==> value * 3600 <= u64::MAX) && (unit
                == 'M' ==> value * 60 <= u64::MAX);
            timeout_nanos(s) == if well_formed && small {
                Some(value * unit_nanos(unit))
            } else {
                None
            }
        }),
{
    let value = digits_value(digits);
    let k = unit_nanos(unit);
    assert((forall|i: int|
        0 <= i < digits.len() ==> '0' <= #[trigger] digits[i] && digits[i] <= '9') == (forall|
        i: int,
    | 0 <= i < digits.len() ==> is_digit(#[trigger] digits[i]))) by {
        if forall|i: int| 0 <= i < digits.len() ==> is_digit(#[trigger] digits[i]) {
            assert forall|i: int| 0 <= i < digits.len() implies '0' <= #[trigger] digits[i]
                && digits[i] <= '9' by {
                assert(is_digit(digits[i]));
            }
        }
    }
    assert(value * 3600 * 1_000_000_000 == value * 3_600_000_000_000);
    assert(value * 60 * 1_000_000_000 == value * 60_000_000_000);
    assert(k == 3_600_000_000_000 ==> value * k == value * 3_600_000_000_000) by (nonlinear_arith);
    assert(k == 60_000_000_000 ==> value * k == value * 60_000_000_000) by (nonlinear_arith);
    assert(k == 1_000_000_000 ==> value * k == value * 1_000_000_000) by (nonlinear_arith);
    assert(k == 1_000_000 ==> value * k == value * 1_000_000) by (nonlinear_arith);
    assert(k == 1_000 ==> value * k == value * 1_000) by (nonlinear_arith);
    assert(k == 1 ==> value * k == value) by (nonlinear_arith);
}

/// An empty text is no timeout.
pub proof fn law_empty_text_is_no_timeout(s: &str, r: Option<Duration>)
    requires
        call_ensures(decode_timeout, (s,), r),
        s@.len() == 0,
    ensures
        r is None,
{
}

/// Of a buffer that begins with a whole message, just that message is cut out, and what
/// follows it stays. While something of the message is missing, nothing is. A message
/// whose flag is not defined is an internal error, and the buffer stays as it is.
pub proof fn law_messages_are_cut_out_whole(
    r: Result<Option<Bytes>, Status>,
    f: Seq<u8>,
    flag: u8,
    body: Seq<u8>,
    rest: Seq<u8>,
)
    requires
        is_on_the_wire(f, flag, body),
        body.len() <= u32::MAX,
    ensures
        flag <= 1 ==> forall|buf: &mut BytesMut| #[trigger]
            call_ensures(try_extract_frame, (buf,), r) && buffer_of(*buf) == f + rest ==> {
                &&& r matches Ok(Some(m)) && bytes_of(m) == f
                &&& buffer_of(*final(buf)) == rest
            },
        flag > 1 ==> forall|buf: &mut BytesMut| #[trigger]
            call_ensures(try_extract_frame, (buf,), r) && buffer_of(*buf) == f + rest ==> {
                &&& r matches Err(e) && e.code == Code::Internal
                &&& buffer_of(*final(buf)) == f + rest
            },
        flag <= 1 ==> forall|buf: &mut BytesMut, n: int|
            #![trigger call_ensures(try_extract_frame, (buf,), r), f.take(n)]
            call_ensures(try_extract_frame, (buf,), r) && 0 <= n < f.len() && buffer_of(*buf)
                == f.take(n) ==> {
                &&& r matches Ok(None)
                &&& buffer_of(*final(buf)) == f.take(n)
            },
{
    let all = f + rest;
    assert(all[0] == f[0] && all[1] == f[1] && all[2] == f[2] && all[3] == f[3] && all[4] == f[4]);
    assert(all.take(f.len() as int) =~= f);
    assert(all.skip(f.len() as int) =~= rest);
    assert forall|n: int| 0 <= n < f.len() && flag <= 1 implies first_frame_len(
        #[trigger] f.take(n),
    ) is None && header_fault(f.take(n)) is None by {
        lemma_part_of_a_message(f, flag, body, n);
    }
}

/// A reader gives the message at the front of what it holds as soon as all of it is there.
/// While something is missing it asks for data; once no more will come, nothing left over
/// is the end of the stream, and part of a message an internal error.
pub proof fn law_readers_deliver_whole_messages(
    p: Progress<Option<Bytes>>,
    f: Seq<u8>,
    flag: u8,
    body: Seq<u8>,
    rest: Seq<u8>,
)
    requires
        is_on_the_wire(f, flag, body),
        flag <= 1,
        body.len() <= u32::MAX,
    ensures
        forall|r: &mut FrameReader| #[trigger]
            call_ensures(FrameReader::poll, (r,), p) ==> {
                &&& (*final(r))@.done == (*r)@.done
                &&& (*r)@.buf == f + rest ==> {
                    &&& p matches Progress::Ready(Ok(Some(m))) && bytes_of(m) == f
                    &&& (*final(r))@.buf == rest
                }
                &&& (*r)@.buf.len() == 0 && (*r)@.done ==> (p matches Progress::Ready(Ok(None)))
                &&& (*r)@.buf.len() == 0 && !(*r)@.done ==> (p matches Progress::Want(Input::Data))
            },
        forall|r: &mut FrameReader, n: int|
            #![trigger call_ensures(FrameReader::poll, (r,), p), f.take(n)]
            call_ensures(FrameReader::poll, (r,), p) && 0 < n < f.len() && (*r)@.buf == f.take(n)
                ==> {
                &&& (*final(r))@.buf == (*r)@.buf
                &&& !(*r)@.done ==> (p matches Progress::Want(Input::Data))
                &&& (*r)@.done ==> (p matches Progress::Ready(Err(e)) && e.code == Code::Internal)
            },
{
    let all = f + rest;
    assert(all[0] == f[0] && all[1] == f[1] && all[2] == f[2] && all[3] == f[3] && all[4] == f[4]);
    assert(all.take(f.len() as int) =~= f);
    assert(all.skip(f.len() as int) =~= rest);
    assert forall|n: int| 0 <= n < f.len() implies first_frame_len(#[trigger] f.take(n)) is None
        && header_fault(f.take(n)) is None by {
        lemma_part_of_a_message(f, flag, body, n);
    }
}

/// What is handed to a reader is held behind what it holds, and it knows when no more will
/// come.
pub proof fn law_readers_hold_what_arrives(data: &Bytes, new: FrameReader)
    ensures
        call_ensures(FrameReader::new, (), new) ==> new@.buf.len() == 0 && !new@.done,
        forall|r: &mut FrameReader| #[trigger]
            call_ensures(FrameReader::push, (r, data), ()) ==> (*final(r))@.buf == (*r)@.buf
                + bytes_of(*data) && (*final(r))@.done == (*r)@.done,
        forall|r: &mut FrameReader| #[trigger]
            call_ensures(FrameReader::finish, (r,), ()) ==> (*final(r))@.buf == (*r)@.buf
                && (*final(r))@.done,
{
}

/// A fault of a stream keeps its text, behind the step that it arose in, and is
/// `Cancelled` if the stream was cancelled and `Internal` if not.
pub proof fn law_faults_keep_their_text(step: &str, fault: &StreamFault, s: Status)
    requires
        call_ensures(fault_status, (step, fault), s),
    ensures
        s.code == (if fault.cancelled {
            Code::Cancelled
        } else {
            Code::Internal
        }),
        s.message@ == step@ + ": "@ + fault.text@,
        s@ == fault_at(step@, *fault),
{
}

/// Part of a message is no message yet, and nothing is wrong with it.
pub proof fn lemma_part_of_a_message(f: Seq<u8>, flag: u8, body: Seq<u8>, n: int)
    requires
        is_on_the_wire(f, flag, body),
        flag <= 1,
        body.len() <= u32::MAX,
        0 <= n < f.len(),
    ensures
        first_frame_len(f.take(n)) is None,
        header_fault(f.take(n)) is None,
{
    let part = f.take(n);
    if n >= 5 {
        assert(part[0] == f[0] && part[1] == f[1] && part[2] == f[2] && part[3] == f[3] && part[4]
            == f[4]);
    }
}

/// A message whose flag is not defined is an internal error as soon as its header is there,
/// whatever follows.
pub proof fn law_undefined_flags_end_the_stream(
    p: Progress<Option<Bytes>>,
    flagged: Status,
    held: Seq<u8>,
)
    requires
        held.len() >= 5,
        held[0] > 1,
        call_ensures(undefined_flag, (held[0],), flagged),
    ensures
        forall|r: &mut FrameReader| #[trigger]
            call_ensures(FrameReader::poll, (r,), p) && (*r)@.buf == held ==> {
                &&& p matches Progress::Ready(Err(e)) && e@ == flagged@
                &&& (*final(r))@.buf == held
            },
{
}

/// A reader has room for so many bytes more exactly if no more than `isize::MAX` are then
/// held, and says whether all data has arrived.
pub proof fn law_readers_know_their_room(r: &FrameReader, n: usize, room: bool, done: bool)
    requires
        call_ensures(FrameReader::has_room, (r, n), room),
        call_ensures(FrameReader::is_done, (r,), done),
    ensures
        room <==> r@.buf.len() + n <= isize::MAX,
        done <==> r@.done,
{
}

/// Whether a reader that held `held`, and had all data if `done`, holds `now`, and has all
/// data if `ended`, once it has taken in what arrived, which is no fault: data is held
/// behind what was there, and the end of the data is noted.
pub open spec fn takes_in(
    held: Seq<u8>,
    done: bool,
    event: Option<DataEvent>,
    now: Seq<u8>,
    ended: bool,
) -> bool {
    match event {
        None => now == held && ended == done,
        Some(DataEvent::Data { bytes, released: Ok(_) }) => now == held + bytes_of(bytes) && ended
            == done,
        Some(DataEvent::End) => now == held && ended,
        _ => false,
    }
}

/// Whether a read comes to what part of a message, and nothing more, asks for: more data as
/// long as there may be some; after that, the end if there is nothing at all, and an
/// internal error if there is something.
pub open spec fn awaits_the_rest<T>(p: Progress<Option<T>>, part: Seq<u8>, ended: bool) -> bool {
    if !ended {
        p matches Progress::Want(Input::Data)
    } else if part.len() == 0 {
        p matches Progress::Ready(Ok(None))
    } else {
        p matches Progress::Ready(Err(e)) && e.code == Code::Internal && e.message@
            == "unexpected EOF: incomplete gRPC message"@
    }
}

} // verus!
