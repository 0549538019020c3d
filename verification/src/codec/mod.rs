//! Wire framing and compression.
//!
//! Every gRPC message on the wire is wrapped in a frame with a five-byte header:
//!
//! ```text
//! Byte 0:    compression flag  (0x00 = none, 0x01 = compressed)
//! Bytes 1-4: payload length    (big-endian u32)
//! Bytes 5+:  payload
//! ```

pub mod gzip;

use crate::buffers::{
    be_bytes, be_value, buffer_of, bytes_of, lemma_be_bytes, put_slice, put_u32, put_u8,
};
use crate::status::{internal_at, internal_error, status, Code, Status, StatusView};
use crate::text::{decimal, decimal_string, has_prefix, hex_byte, hex_lower, join3};
use bytes::{Bytes, BytesMut};
use vstd::prelude::*;
use vstd::slice::*;
use vstd::string::*;

verus! {

/// Number of bytes in the frame header.
pub const HEADER_LEN: usize = 5;

/// Default maximum size of a received message: 4 MiB.
pub const DEFAULT_MAX_RECV_SIZE: usize = 4_194_304;

/// The flag of a frame whose body is the payload itself.
pub const COMPRESSION_NONE: u8 = 0x00;

/// The flag of a frame whose body is the compressed payload.
pub const COMPRESSION_MADE: u8 = 0x01;

/// The outcome of an operation on bytes, by view.
pub open spec fn bytes_result(r: Result<Vec<u8>, Status>) -> Result<Seq<u8>, StatusView> {
    match r {
        Ok(v) => Ok(v@),
        Err(e) => Err(e@),
    }
}

/// The outcome of building a frame, by view.
pub open spec fn frame_result(r: Result<Bytes, Status>) -> Result<Seq<u8>, StatusView> {
    match r {
        Ok(b) => Ok(bytes_of(b)),
        Err(e) => Err(e@),
    }
}

/// A compression algorithm.
///
/// What an algorithm does is given as relations between input and outcome, so
/// that one that fails now and then, or that is free in what it writes, can be
/// described too. An algorithm that says nothing of itself may do anything.
pub trait Compressor: Send + Sync + 'static {
    /// Whether the algorithm may give its name as `name`.
    open spec fn is_named(&self, name: Seq<char>) -> bool {
        true
    }

    /// Whether compressing `input` may have the outcome `out`.
    open spec fn compresses(&self, input: Seq<u8>, out: Result<Seq<u8>, StatusView>) -> bool {
        true
    }

    /// Whether decompressing `input` may have the outcome `out`.
    open spec fn decompresses(&self, input: Seq<u8>, out: Result<Seq<u8>, StatusView>) -> bool {
        true
    }

    /// Algorithm name used in the `grpc-encoding` header (e.g. `"gzip"`).
    fn name(&self) -> (s: &'static str)
        ensures
            self.is_named(s@),
    ;

    /// Compresses `input`.
    fn compress(&self, input: &[u8]) -> (r: Result<Vec<u8>, Status>)
        ensures
            self.compresses(input@, bytes_result(r)),
    ;

    /// Decompresses `input`.
    fn decompress(&self, input: &[u8]) -> (r: Result<Vec<u8>, Status>)
        ensures
            self.decompresses(input@, bytes_result(r)),
    ;
}

/// The longest body that a frame can carry: its length must fit the header's
/// four bytes, and the frame must fit in memory.
pub open spec fn max_body() -> nat {
    if u32::MAX <= isize::MAX - HEADER_LEN {
        u32::MAX as nat
    } else {
        (isize::MAX - HEADER_LEN) as nat
    }
}

/// The frame with the given flag and body.
pub open spec fn frame(flag: u8, body: Seq<u8>) -> Seq<u8> {
    seq![flag] + be_bytes(body.len() as u32) + body
}

/// The outcome of framing `body`: a body that is too long is refused.
pub open spec fn framed(flag: u8, body: Seq<u8>) -> Result<Seq<u8>, StatusView> {
    if body.len() <= max_body() {
        Ok(frame(flag, body))
    } else {
        Err(
            status(
                Code::ResourceExhausted,
                "message too large: "@ + decimal(body.len()) + " bytes (max "@ + decimal(max_body())
                    + ")"@,
            ),
        )
    }
}

/// The outcome of framing what a compressor returned.
pub open spec fn framed_packed(packed: Result<Seq<u8>, StatusView>) -> Result<Seq<u8>, StatusView> {
    match packed {
        Ok(body) => framed(COMPRESSION_MADE, body),
        Err(e) => Err(e),
    }
}

/// Whether encoding `payload` may have the outcome `out`. An empty payload is
/// never compressed.
pub open spec fn encodes(
    payload: Seq<u8>,
    compressor: Option<&dyn Compressor>,
    out: Result<Seq<u8>, StatusView>,
) -> bool {
    if compressor is Some && payload.len() > 0 {
        exists|packed: Result<Seq<u8>, StatusView>| #[trigger]
            compressor->0.compresses(payload, packed) && out == framed_packed(packed)
    } else {
        out == framed(COMPRESSION_NONE, payload)
    }
}

/// What a frame holds: the payload, the compressed payload, or nothing that can
/// be read.
pub enum Opened {
    Plain(Seq<u8>),
    Packed(Seq<u8>),
    Bad(StatusView),
}

/// The body length that a frame's header gives.
pub open spec fn body_len(frame: Seq<u8>) -> int {
    be_value(frame[1], frame[2], frame[3], frame[4])
}

/// The status of a frame whose compression flag is neither of the two defined
/// ones.
pub open spec fn bad_flag(flag: u8) -> StatusView {
    status(
        Code::Internal,
        "unexpected compression flag: 0x"@ + seq![
            hex_lower(flag as int / 16),
            hex_lower(flag as int % 16),
        ] + " (must be 0x00 or 0x01)"@,
    )
}

/// Builds the status of a frame whose compression flag is neither of the two
/// defined ones.
pub fn undefined_flag(flag: u8) -> (s: Status)
    ensures
        s@ == bad_flag(flag),
{
    let text = join3(
        "unexpected compression flag: 0x",
        hex_byte(flag).as_str(),
        " (must be 0x00 or 0x01)",
    );
    Status::internal(text.as_str())
}

/// Reads a frame of which at most `max` payload bytes are accepted.
pub open spec fn open_frame(frame: Seq<u8>, max: nat) -> Opened {
    if frame.len() < HEADER_LEN {
        Opened::Bad(
            status(
                Code::Internal,
                "frame too short: "@ + decimal(frame.len()) + " bytes (need 5)"@,
            ),
        )
    } else if body_len(frame) > max {
        Opened::Bad(
            status(
                Code::ResourceExhausted,
                "wire payload "@ + decimal(body_len(frame) as nat) + " bytes exceeds max recv size "@
                    + decimal(max),
            ),
        )
    } else if frame.len() < HEADER_LEN + body_len(frame) {
        Opened::Bad(
            status(
                Code::Internal,
                "frame truncated: header says "@ + decimal(body_len(frame) as nat)
                    + " bytes but only "@ + decimal((frame.len() - HEADER_LEN) as nat)
                    + " available"@,
            ),
        )
    } else {
        let body = frame.subrange(HEADER_LEN as int, HEADER_LEN + body_len(frame));
        if frame[0] == COMPRESSION_NONE {
            Opened::Plain(body)
        } else if frame[0] == COMPRESSION_MADE {
            Opened::Packed(body)
        } else {
            Opened::Bad(bad_flag(frame[0]))
        }
    }
}

/// The outcome of decoding, given what the decompressor returned: the size limit
/// holds for the decompressed payload too.
pub open spec fn bounded(
    unpacked: Result<Seq<u8>, StatusView>,
    max: nat,
) -> Result<Seq<u8>, StatusView> {
    match unpacked {
        Ok(payload) => if payload.len() > max {
            Err(
                status(
                    Code::ResourceExhausted,
                    "decompressed payload "@ + decimal(payload.len())
                        + " bytes exceeds max recv size "@ + decimal(max),
                ),
            )
        } else {
            Ok(payload)
        },
        Err(e) => Err(e),
    }
}

/// Whether decompressing `body` may have the outcome `out`.
pub open spec fn unpacks(
    body: Seq<u8>,
    decompressor: Option<&dyn Compressor>,
    max: nat,
    out: Result<Seq<u8>, StatusView>,
) -> bool {
    if decompressor is Some {
        exists|unpacked: Result<Seq<u8>, StatusView>| #[trigger]
            decompressor->0.decompresses(body, unpacked) && out == bounded(unpacked, max)
    } else {
        out == Err::<Seq<u8>, StatusView>(
            status(Code::Internal, "compressed flag set but no decompressor available"@),
        )
    }
}

/// Whether decoding `frame` may have the outcome `out`.
pub open spec fn decodes(
    frame: Seq<u8>,
    decompressor: Option<&dyn Compressor>,
    max: nat,
    out: Result<Seq<u8>, StatusView>,
) -> bool {
    match open_frame(frame, max) {
        Opened::Bad(e) => out == Err::<Seq<u8>, StatusView>(e),
        Opened::Plain(payload) => out == Ok::<Seq<u8>, StatusView>(payload),
        Opened::Packed(body) => unpacks(body, decompressor, max, out),
    }
}

/// The outcome of decoding without a decompressor.
pub open spec fn decoded_plain(frame: Seq<u8>, max: nat) -> Result<Seq<u8>, StatusView> {
    match open_frame(frame, max) {
        Opened::Bad(e) => Err(e),
        Opened::Plain(payload) => Ok(payload),
        Opened::Packed(_) => Err(
            status(Code::Internal, "compressed flag set but no decompressor available"@),
        ),
    }
}

/// Wraps `body` in a frame with the given flag.
pub fn frame_body(flag: u8, body: &[u8]) -> (r: Result<Bytes, Status>)
    ensures
        frame_result(r) == framed(flag, body@),
{
    let len: usize = body.len();
    let room: usize = isize::MAX as usize - HEADER_LEN;
    let max: usize = if u32::MAX as usize <= room {
        u32::MAX as usize
    } else {
        room
    };
    if len > max {
        let text = join3(
            "message too large: ",
            decimal_string(len as u128).as_str(),
            " bytes (max ",
        ).concat(decimal_string(max as u128).as_str()).concat(")");
        return Err(Status::resource_exhausted(text.as_str()));
    }
    let mut out = BytesMut::with_capacity(HEADER_LEN + len);
    put_u8(&mut out, flag);
    put_u32(&mut out, len as u32);
    put_slice(&mut out, body);
    assert(buffer_of(out) =~= frame(flag, body@));
    Ok(out.freeze())
}

/// Wraps what a compressor returned in a frame.
pub fn frame_packed(packed: Result<Vec<u8>, Status>) -> (r: Result<Bytes, Status>)
    ensures
        frame_result(r) == framed_packed(bytes_result(packed)),
{
    match packed {
        Ok(body) => frame_body(COMPRESSION_MADE, body.as_slice()),
        Err(e) => Err(e),
    }
}

/// Wraps already-serialized bytes in a frame.
///
/// The payload is compressed if there is a compressor and the payload is not
/// empty.
pub fn encode_raw(payload: &[u8], compressor: Option<&dyn Compressor>) -> (r: Result<Bytes, Status>)
    ensures
        encodes(payload@, compressor, frame_result(r)),
{
    match compressor {
        Some(c) => if payload.len() > 0 {
            let packed = c.compress(payload);
            let ghost outcome = bytes_result(packed);
            assert(compressor->0.compresses(payload@, outcome));
            frame_packed(packed)
        } else {
            frame_body(COMPRESSION_NONE, payload)
        },
        None => frame_body(COMPRESSION_NONE, payload),
    }
}

/// Serializes a message and wraps it in a frame.
///
/// `serialize` gives the message's bytes, or says why it could not.
pub fn encode_message<M, F: Fn(&M) -> Result<Vec<u8>, String>>(
    msg: &M,
    serialize: F,
    compressor: Option<&dyn Compressor>,
) -> (r: Result<Bytes, Status>)
    requires
        call_requires(serialize, (msg,)),
    ensures
        exists|s: Result<Vec<u8>, String>| #[trigger]
            call_ensures(serialize, (msg,), s) && match s {
                Ok(payload) => encodes(payload@, compressor, frame_result(r)),
                Err(fault) => frame_result(r) == Err::<Seq<u8>, StatusView>(
                    internal_at("proto encode"@, fault@),
                ),
            },
{
    match serialize(msg) {
        Ok(payload) => encode_raw(payload.as_slice(), compressor),
        Err(fault) => Err(internal_error("proto encode", fault.as_str())),
    }
}

/// Holds what a decompressor returned to the size limit.
pub fn bound_payload(unpacked: Result<Vec<u8>, Status>, max_recv_size: usize) -> (r: Result<
    Vec<u8>,
    Status,
>)
    ensures
        bytes_result(r) == bounded(bytes_result(unpacked), max_recv_size as nat),
{
    match unpacked {
        Ok(payload) => if payload.len() > max_recv_size {
            let text = join3(
                "decompressed payload ",
                decimal_string(payload.len() as u128).as_str(),
                " bytes exceeds max recv size ",
            ).concat(decimal_string(max_recv_size as u128).as_str());
            Err(Status::resource_exhausted(text.as_str()))
        } else {
            Ok(payload)
        },
        Err(e) => Err(e),
    }
}

/// Reads a frame and returns the payload.
///
/// `max_recv_size` bounds the body on the wire and, for a compressed frame, the
/// decompressed payload.
pub fn decode_raw(
    frame: &[u8],
    decompressor: Option<&dyn Compressor>,
    max_recv_size: usize,
) -> (r: Result<Vec<u8>, Status>)
    ensures
        decodes(frame@, decompressor, max_recv_size as nat, bytes_result(r)),
{
    if frame.len() < HEADER_LEN {
        let text = join3(
            "frame too short: ",
            decimal_string(frame.len() as u128).as_str(),
            " bytes (need 5)",
        );
        return Err(Status::internal(text.as_str()));
    }
    let flag: u8 = frame[0];
    let wire: u64 = frame[1] as u64 * 0x100_0000 + frame[2] as u64 * 0x1_0000 + frame[3] as u64
        * 0x100 + frame[4] as u64;
    assert(wire == body_len(frame@));
    if wire > max_recv_size as u64 {
        let text = join3(
            "wire payload ",
            decimal_string(wire as u128).as_str(),
            " bytes exceeds max recv size ",
        ).concat(decimal_string(max_recv_size as u128).as_str());
        return Err(Status::resource_exhausted(text.as_str()));
    }
    let length: usize = wire as usize;
    let available: usize = frame.len() - HEADER_LEN;
    if available < length {
        let text = join3(
            "frame truncated: header says ",
            decimal_string(wire as u128).as_str(),
            " bytes but only ",
        ).concat(decimal_string(available as u128).as_str()).concat(" available");
        return Err(Status::internal(text.as_str()));
    }
    let body = slice_subrange(frame, HEADER_LEN, HEADER_LEN + length);
    if flag == COMPRESSION_NONE {
        Ok(slice_to_vec(body))
    } else if flag == COMPRESSION_MADE {
        match decompressor {
            None => Err(Status::internal("compressed flag set but no decompressor available")),
            Some(d) => {
                let unpacked = d.decompress(body);
                let ghost outcome = bytes_result(unpacked);
                let r = bound_payload(unpacked, max_recv_size);
                assert(decompressor->0.decompresses(body@, outcome));
                assert(unpacks(body@, decompressor, max_recv_size as nat, bytes_result(r)));
                r
            },
        }
    } else {
        Err(undefined_flag(flag))
    }
}

/// Reads a frame and parses the message in it.
///
/// `parse` gives the message that the payload holds, or says why there is none.
pub fn decode_message<M, F: Fn(&[u8]) -> Result<M, String>>(
    frame: &[u8],
    decompressor: Option<&dyn Compressor>,
    max_recv_size: usize,
    parse: F,
) -> (r: Result<M, Status>)
    requires
        forall|payload: &[u8]| call_requires(parse, (payload,)),
    ensures
        exists|out: Result<Seq<u8>, StatusView>| #[trigger]
            decodes(frame@, decompressor, max_recv_size as nat, out) && match out {
                Ok(payload) => parsed(parse, payload, r),
                Err(e) => r is Err && r->Err_0@ == e,
            },
{
    let decoded = decode_raw(frame, decompressor, max_recv_size);
    let ghost out = bytes_result(decoded);
    assert(decodes(frame@, decompressor, max_recv_size as nat, out));
    match decoded {
        Ok(payload) => parse_payload(payload.as_slice(), parse),
        Err(e) => Err(e),
    }
}

/// Whether parsing `payload` with `parse` may have the outcome `r`.
pub open spec fn parsed<M, F: Fn(&[u8]) -> Result<M, String>>(
    parse: F,
    payload: Seq<u8>,
    r: Result<M, Status>,
) -> bool {
    exists|slice: &[u8], m: Result<M, String>| #[trigger]
        call_ensures(parse, (slice,), m) && slice@ == payload && match m {
            Ok(msg) => r == Ok::<M, Status>(msg),
            Err(fault) => r is Err && r->Err_0@ == internal_at("proto decode"@, fault@),
        }
}

/// Parses a payload; a payload that holds no message is an internal error.
pub fn parse_payload<M, F: Fn(&[u8]) -> Result<M, String>>(payload: &[u8], parse: F) -> (r: Result<
    M,
    Status,
>)
    requires
        call_requires(parse, (payload,)),
    ensures
        parsed(parse, payload@, r),
{
    match parse(payload) {
        Ok(msg) => Ok(msg),
        Err(fault) => Err(internal_error("proto decode", fault.as_str())),
    }
}

/// The header of a frame gives the body's length, and the rest of the frame is
/// the body.
pub proof fn lemma_frame_parts(flag: u8, body: Seq<u8>)
    requires
        body.len() <= u32::MAX,
    ensures
        frame(flag, body).len() == HEADER_LEN + body.len(),
        frame(flag, body)[0] == flag,
        body_len(frame(flag, body)) == body.len(),
        frame(flag, body).skip(HEADER_LEN as int) == body,
{
    let n = body.len() as u32;
    lemma_be_bytes(n);
    let f = frame(flag, body);
    assert(f[1] == be_bytes(n)[0] && f[2] == be_bytes(n)[1] && f[3] == be_bytes(n)[2] && f[4]
        == be_bytes(n)[3]);
    assert(f.skip(HEADER_LEN as int) =~= body);
}

/// Reading a frame gives back what was framed, whatever bytes follow the frame:
/// the payload of an uncompressed frame, the compressed payload of a compressed
/// one.
pub proof fn law_frame_round_trip(body: Seq<u8>, rest: Seq<u8>, max: nat)
    requires
        body.len() <= u32::MAX,
        body.len() <= max,
    ensures
        open_frame(frame(COMPRESSION_NONE, body) + rest, max) == Opened::Plain(body),
        open_frame(frame(COMPRESSION_MADE, body) + rest, max) == Opened::Packed(body),
{
    assert forall|flag: u8| #[trigger]
        frame(flag, body).len() == HEADER_LEN + body.len() && body_len(frame(flag, body) + rest)
            == body.len() && (frame(flag, body) + rest)[0] == flag && (frame(flag, body)
            + rest).subrange(HEADER_LEN as int, HEADER_LEN + body.len()) == body by {
        lemma_frame_parts(flag, body);
        let f = frame(flag, body) + rest;
        assert(f.subrange(HEADER_LEN as int, HEADER_LEN + body.len()) =~= frame(flag, body).skip(
            HEADER_LEN as int,
        ));
    }
    assert(frame(COMPRESSION_NONE, body).len() == HEADER_LEN + body.len());
    assert(frame(COMPRESSION_MADE, body).len() == HEADER_LEN + body.len());
}

/// Without compression, decoding what was encoded gives the payload back.
pub proof fn law_plain_round_trip(
    payload: Seq<u8>,
    decompressor: Option<&dyn Compressor>,
    max: nat,
    encoded: Result<Seq<u8>, StatusView>,
    decoded: Result<Seq<u8>, StatusView>,
)
    requires
        payload.len() <= max_body(),
        payload.len() <= max,
        encodes(payload, None, encoded),
        encoded is Ok ==> decodes(encoded->Ok_0, decompressor, max, decoded),
    ensures
        encoded is Ok,
        decoded == Ok::<Seq<u8>, StatusView>(payload),
{
    law_frame_round_trip(payload, seq![], max);
    assert(frame(COMPRESSION_NONE, payload) + seq![] =~= frame(COMPRESSION_NONE, payload));
}

/// Whether decompressing undoes compressing: of everything that the compressor
/// may write for `payload`, the decompressor gives `payload` back and nothing
/// else.
pub open spec fn lossless_on(c: Option<&dyn Compressor>, payload: Seq<u8>) -> bool {
    forall|packed: Seq<u8>, unpacked: Result<Seq<u8>, StatusView>|
        c->0.compresses(payload, Ok(packed)) && #[trigger] c->0.decompresses(packed, unpacked)
            ==> unpacked == Ok::<Seq<u8>, StatusView>(payload)
}

/// With a compressor that loses nothing, decoding any frame that encoding
/// produced gives the payload back, as long as the frame's body and the payload
/// are within the limit.
pub proof fn law_compressed_round_trip(
    payload: Seq<u8>,
    c: Option<&dyn Compressor>,
    max: nat,
    encoded: Seq<u8>,
    decoded: Result<Seq<u8>, StatusView>,
)
    requires
        c is Some ==> lossless_on(c, payload),
        encodes(payload, c, Ok(encoded)),
        decodes(encoded, c, max, decoded),
        payload.len() <= max,
        encoded.len() <= HEADER_LEN + max,
    ensures
        decoded == Ok::<Seq<u8>, StatusView>(payload),
{
    let out = Ok::<Seq<u8>, StatusView>(encoded);
    if c is Some && payload.len() > 0 {
        let packed = choose|packed: Result<Seq<u8>, StatusView>| #[trigger]
            c->0.compresses(payload, packed) && out == framed_packed(packed);
        let body = packed->Ok_0;
        assert(out == framed(COMPRESSION_MADE, body));
        lemma_frame_parts(COMPRESSION_MADE, body);
        law_frame_round_trip(body, seq![], max);
        assert(encoded + seq![] =~= encoded);
    } else {
        law_frame_round_trip(payload, seq![], max);
        assert(encoded + seq![] =~= encoded);
    }
}

/// A frame of an accepted size whose compression flag is neither of the two
/// defined ones is an internal error, whatever its body holds.
pub proof fn law_undefined_flag_is_internal(
    frame: Seq<u8>,
    decompressor: Option<&dyn Compressor>,
    max: nat,
    decoded: Result<Seq<u8>, StatusView>,
)
    requires
        frame.len() >= HEADER_LEN,
        frame[0] > COMPRESSION_MADE,
        body_len(frame) <= max,
        decodes(frame, decompressor, max, decoded),
    ensures
        decoded is Err,
        decoded->Err_0.code == Code::Internal,
{
}

/// An empty payload is never compressed: it is framed as it is, whatever
/// compressor there is.
pub proof fn law_empty_payload_is_never_compressed(
    compressor: Option<&dyn Compressor>,
    out: Result<Seq<u8>, StatusView>,
)
    requires
        encodes(seq![], compressor, out),
    ensures
        out == Ok::<Seq<u8>, StatusView>(seq![COMPRESSION_NONE, 0, 0, 0, 0]),
{
    assert(frame(COMPRESSION_NONE, seq![]) =~= seq![COMPRESSION_NONE, 0, 0, 0, 0]);
}

/// A compressed frame that cannot be decompressed is an internal error.
pub proof fn law_compressed_frame_needs_a_decompressor(
    body: Seq<u8>,
    rest: Seq<u8>,
    max: nat,
    decoded: Result<Seq<u8>, StatusView>,
)
    requires
        body.len() <= u32::MAX,
        body.len() <= max,
        decodes(frame(COMPRESSION_MADE, body) + rest, None, max, decoded),
    ensures
        decoded is Err,
        decoded->Err_0.code == Code::Internal,
{
    law_frame_round_trip(body, rest, max);
}

/// No payload larger than the limit ever comes out of decoding.
pub proof fn law_decoded_within_limit(
    frame: Seq<u8>,
    decompressor: Option<&dyn Compressor>,
    max: nat,
    payload: Seq<u8>,
)
    requires
        decodes(frame, decompressor, max, Ok(payload)),
    ensures
        payload.len() <= max,
{
}

/// Whether `f` is, byte by byte, a message on the wire with the given flag and body: the
/// flag, the body's length in four bytes with the most significant first, the body.
pub open spec fn is_on_the_wire(f: Seq<u8>, flag: u8, body: Seq<u8>) -> bool {
    &&& f.len() == 5 + body.len()
    &&& f[0] == flag
    &&& f[1] * 16_777_216 + f[2] * 65_536 + f[3] * 256 + f[4] == body.len()
    &&& f.skip(5) == body
}

/// Whether a body of `n` bytes can be sent: four bytes hold its length, and memory the
/// frame.
pub open spec fn is_sendable_length(n: nat) -> bool {
    n <= 4_294_967_295 && n + 5 <= isize::MAX
}

/// Every body that can be sent is framed, with the flag that was asked for and all of its
/// bytes; a longer one is refused with `ResourceExhausted`.
pub proof fn law_bodies_are_framed(flag: u8, body: &[u8], r: Result<Bytes, Status>)
    requires
        call_ensures(frame_body, (flag, body), r),
    ensures
        is_sendable_length(body@.len()) ==> (r matches Ok(f) && is_on_the_wire(
            bytes_of(f),
            flag,
            body@,
        )),
        !is_sendable_length(body@.len()) ==> (r matches Err(e) && e.code == Code::ResourceExhausted
            && has_prefix(e.message@, "message too large: "@ + decimal(body@.len()))),
{
    if !is_sendable_length(body@.len()) {
        let front = "message too large: "@ + decimal(body@.len());
        assert(r->Err_0.message@.take(front.len() as int) =~= front);
    }
    if is_sendable_length(body@.len()) {
        lemma_frame_parts(flag, body@);
        lemma_on_the_wire(flag, body@);
    }
}

/// What a frame is, is what stands on the wire.
pub proof fn lemma_on_the_wire(flag: u8, body: Seq<u8>)
    requires
        body.len() <= u32::MAX,
    ensures
        is_on_the_wire(frame(flag, body), flag, body),
{
    lemma_frame_parts(flag, body);
}

/// Two frames with one flag and one body are the same bytes.
pub proof fn lemma_wire_is_unique(f: Seq<u8>, flag: u8, body: Seq<u8>)
    requires
        body.len() <= u32::MAX,
        is_on_the_wire(f, flag, body),
    ensures
        f == frame(flag, body),
{
    let head = f.subrange(1, 5);
    lemma_four_bytes(body.len() as u32, f[1], f[2], f[3], f[4]);
    assert(head =~= be_bytes(body.len() as u32));
    assert(f =~= seq![f[0]] + head + f.skip(5));
}

/// A number has one way to be written in four bytes.
proof fn lemma_four_bytes(n: u32, a: u8, b: u8, c: u8, d: u8)
    requires
        n == a * 16_777_216 + b * 65_536 + c * 256 + d,
    ensures
        be_bytes(n) == seq![a, b, c, d],
{
    assert(n / 0x100_0000 == a);
    assert(n / 0x1_0000 == a * 256 + b);
    assert(n / 0x100 == a * 65_536 + b * 256 + c);
    assert(n % 0x100 == d);
    assert(be_bytes(n) =~= seq![a, b, c, d]);
}

/// Whatever a compressor wrote is sent as it is, with the flag of a compressed message, as
/// long as its length can be sent; what it failed with is reported as it is. Nothing else
/// makes the encoding of a compressed message fail.
pub proof fn law_compressed_bodies_are_framed(
    packed: Result<Vec<u8>, Status>,
    r: Result<Bytes, Status>,
)
    requires
        call_ensures(frame_packed, (packed,), r),
    ensures
        packed matches Ok(body) ==> is_sendable_length(body@.len()) ==> (r matches Ok(f)
            && is_on_the_wire(bytes_of(f), 1, body@)),
        packed matches Ok(body) ==> !is_sendable_length(body@.len()) ==> (r matches Err(e)
            && e.code == Code::ResourceExhausted),
        packed matches Err(fault) ==> (r matches Err(e) && e.code == fault.code && e.message@
            == fault.message@),
{
    if let Ok(body) = packed {
        if is_sendable_length(body@.len()) {
            lemma_on_the_wire(1, body@);
        }
    }
}

/// A payload that is not compressed, for want of a compressor or of bytes, is sent as it
/// is if its length can be sent. One that is compressed is sent as something that the
/// compressor may write for it, and fails only as the compressor may, or for its length.
pub proof fn law_payloads_are_encoded(
    payload: &[u8],
    compressor: Option<&dyn Compressor>,
    r: Result<Bytes, Status>,
)
    requires
        call_ensures(encode_raw, (payload, compressor), r),
    ensures
        (compressor is None || payload@.len() == 0) && is_sendable_length(payload@.len()) ==> (
        r matches Ok(f) && is_on_the_wire(bytes_of(f), 0, payload@)),
        (compressor is None || payload@.len() == 0) && !is_sendable_length(payload@.len()) ==> (
        r matches Err(e) && e.code == Code::ResourceExhausted),
        compressor is Some && payload@.len() > 0 ==> exists|packed: Result<Seq<u8>, StatusView>|
            {
                &&& #[trigger] compressor->0.compresses(payload@, packed)
                &&& packed matches Ok(body) ==> if is_sendable_length(body.len()) {
                    r matches Ok(f) && is_on_the_wire(bytes_of(f), 1, body)
                } else {
                    r matches Err(e) && e.code == Code::ResourceExhausted
                }
                &&& packed matches Err(fault) ==> (r matches Err(e) && e@ == fault)
            },
{
    if compressor is None || payload@.len() == 0 {
        if is_sendable_length(payload@.len()) {
            lemma_on_the_wire(0, payload@);
        }
    } else {
        let packed = choose|packed: Result<Seq<u8>, StatusView>| #[trigger]
            compressor->0.compresses(payload@, packed) && frame_result(r) == framed_packed(packed);
        if let Ok(body) = packed {
            if is_sendable_length(body.len()) {
                lemma_on_the_wire(1, body);
            }
        }
    }
}

/// A compressor that succeeds on a payload, whatever it writes, has the payload sent, and
/// its compressed form with it; only a compressor that may fail makes encoding fail, or a
/// body whose length cannot be sent.
pub proof fn law_compression_fails_only_with_the_compressor(
    payload: &[u8],
    compressor: Option<&dyn Compressor>,
    r: Result<Bytes, Status>,
)
    requires
        call_ensures(encode_raw, (payload, compressor), r),
        compressor is Some,
        payload@.len() > 0,
        forall|packed: Result<Seq<u8>, StatusView>| #[trigger]
            compressor->0.compresses(payload@, packed) ==> (packed matches Ok(body)
                && is_sendable_length(body.len())),
    ensures
        r matches Ok(f) && exists|body: Seq<u8>|
            is_on_the_wire(bytes_of(f), 1, body) && #[trigger] compressor->0.compresses(
                payload@,
                Ok(body),
            ),
{
    law_payloads_are_encoded(payload, compressor, r);
    let packed = choose|packed: Result<Seq<u8>, StatusView>|
        {
            &&& #[trigger] compressor->0.compresses(payload@, packed)
            &&& packed matches Ok(body) ==> if is_sendable_length(body.len()) {
                r matches Ok(f) && is_on_the_wire(bytes_of(f), 1, body)
            } else {
                r matches Err(e) && e.code == Code::ResourceExhausted
            }
            &&& packed matches Err(fault) ==> (r matches Err(e) && e@ == fault)
        };
    let body = packed->Ok_0;
    assert(compressor->0.compresses(payload@, Ok(body)));
}

/// A message that is on the wire, with anything behind it, is decoded to its body, if it
/// is not compressed and the body is within the limit, the limit itself included.
pub proof fn law_plain_messages_are_decoded(
    given: &[u8],
    decompressor: Option<&dyn Compressor>,
    max: usize,
    r: Result<Vec<u8>, Status>,
    f: Seq<u8>,
    body: Seq<u8>,
    rest: Seq<u8>,
)
    requires
        call_ensures(decode_raw, (given, decompressor, max), r),
        given@ == f + rest,
        is_on_the_wire(f, 0, body),
        body.len() <= max,
        body.len() <= u32::MAX,
    ensures
        r matches Ok(payload) && payload@ == body,
{
    lemma_wire_is_unique(f, 0, body);
    law_frame_round_trip(body, rest, max as nat);
}

/// A compressed message within the limit is decoded to what the decompressor may make of
/// its body: within the limit, too, the limit itself included, and refused with
/// `ResourceExhausted` otherwise. What the decompressor failed with is reported as it is.
pub proof fn law_compressed_messages_are_decoded(
    given: &[u8],
    decompressor: Option<&dyn Compressor>,
    max: usize,
    r: Result<Vec<u8>, Status>,
    f: Seq<u8>,
    body: Seq<u8>,
    rest: Seq<u8>,
)
    requires
        call_ensures(decode_raw, (given, decompressor, max), r),
        decompressor is Some,
        given@ == f + rest,
        is_on_the_wire(f, 1, body),
        body.len() <= max,
        body.len() <= u32::MAX,
    ensures
        exists|unpacked: Result<Seq<u8>, StatusView>|
            {
                &&& #[trigger] decompressor->0.decompresses(body, unpacked)
                &&& unpacked matches Ok(payload) ==> if payload.len() <= max {
                    r matches Ok(p) && p@ == payload
                } else {
                    r matches Err(e) && e.code == Code::ResourceExhausted
                }
                &&& unpacked matches Err(fault) ==> (r matches Err(e) && e@ == fault)
            },
{
    lemma_wire_is_unique(f, 1, body);
    law_frame_round_trip(body, rest, max as nat);
    let unpacked = choose|unpacked: Result<Seq<u8>, StatusView>| #[trigger]
        decompressor->0.decompresses(body, unpacked) && bytes_result(r) == bounded(
            unpacked,
            max as nat,
        );
    assert(decompressor->0.decompresses(body, unpacked));
}

/// Whether an operation on bytes failed with the given code and message.
pub open spec fn refused(r: Result<Vec<u8>, Status>, code: Code, message: Seq<char>) -> bool {
    r matches Err(e) && e.code == code && e.message@ == message
}

/// The status of a flag that is not defined is an internal error that gives the flag as two
/// hexadecimal digits.
pub proof fn law_undefined_flags_are_named(flag: u8, s: Status)
    requires
        call_ensures(undefined_flag, (flag,), s),
    ensures
        s.code == Code::Internal,
        exists|hi: char, lo: char|
            {
                &&& s.message@ == "unexpected compression flag: 0x"@ + #[trigger] seq![hi, lo]
                    + " (must be 0x00 or 0x01)"@
                &&& flag / 16 < 10 ==> hi as int == '0' as int + flag / 16
                &&& flag / 16 >= 10 ==> hi as int == 'a' as int + flag / 16 - 10
                &&& flag % 16 < 10 ==> lo as int == '0' as int + flag % 16
                &&& flag % 16 >= 10 ==> lo as int == 'a' as int + flag % 16 - 10
            },
{
    let hi = hex_lower(flag as int / 16);
    let lo = hex_lower(flag as int % 16);
    assert(s.message@ == "unexpected compression flag: 0x"@ + seq![hi, lo]
        + " (must be 0x00 or 0x01)"@);
}

/// What is no message is refused, and for what reason: `ResourceExhausted` for a body over
/// the limit, `Internal` for a header or a body of which something is missing, a flag that
/// is not defined, and a compressed message without a decompressor.
pub proof fn law_malformed_messages_are_refused(
    given: &[u8],
    decompressor: Option<&dyn Compressor>,
    max: usize,
    r: Result<Vec<u8>, Status>,
    flagged: Status,
)
    requires
        call_ensures(decode_raw, (given, decompressor, max), r),
        given@.len() > 0 ==> call_ensures(undefined_flag, (given@[0],), flagged),
    ensures
        ({
            let f = given@;
            let n = f[1] * 16_777_216 + f[2] * 65_536 + f[3] * 256 + f[4];
            let short = f.len() < 5;
            let large = !short && n > max;
            let cut = !short && !large && f.len() < 5 + n;
            &&& short ==> refused(
                r,
                Code::Internal,
                "frame too short: "@ + decimal(f.len()) + " bytes (need 5)"@,
            )
            &&& large ==> refused(
                r,
                Code::ResourceExhausted,
                "wire payload "@ + decimal(n as nat) + " bytes exceeds max recv size "@ + decimal(
                    max as nat,
                ),
            )
            &&& cut ==> refused(
                r,
                Code::Internal,
                "frame truncated: header says "@ + decimal(n as nat) + " bytes but only "@
                    + decimal((f.len() - 5) as nat) + " available"@,
            )
            &&& !short && !large && !cut && f[0] > 1 ==> refused(
                r,
                flagged.code,
                flagged.message@,
            )
            &&& !short && !large && !cut && f[0] == 1 && decompressor is None ==> refused(
                r,
                Code::Internal,
                "compressed flag set but no decompressor available"@,
            )
        }),
{
}

/// What a decompressor made is handed on if it is within the limit, the limit itself
/// included, and refused with `ResourceExhausted` otherwise; its failure is handed on.
pub proof fn law_decompressed_payloads_are_bounded(
    unpacked: Result<Vec<u8>, Status>,
    max: usize,
    r: Result<Vec<u8>, Status>,
)
    requires
        call_ensures(bound_payload, (unpacked, max), r),
    ensures
        unpacked matches Ok(payload) ==> payload@.len() <= max ==> (r matches Ok(p) && p@
            == payload@),
        unpacked matches Ok(payload) ==> payload@.len() > max ==> refused(
            r,
            Code::ResourceExhausted,
            "decompressed payload "@ + decimal(payload@.len()) + " bytes exceeds max recv size "@
                + decimal(max as nat),
        ),
        unpacked matches Err(fault) ==> (r matches Err(e) && e.code == fault.code && e.message@
            == fault.message@),
{
}

/// Of a message that was serialized, the bytes are what is encoded; one that could not be
/// is an internal error with the fault's text.
pub proof fn law_messages_are_serialized_and_framed<M, F: Fn(&M) -> Result<Vec<u8>, String>>(
    msg: &M,
    serialize: F,
    r: Result<Bytes, Status>,
)
    requires
        call_ensures(encode_message::<M, F>, (msg, serialize, None), r),
    ensures
        exists|s: Result<Vec<u8>, String>|
            {
                &&& #[trigger] call_ensures(serialize, (msg,), s)
                &&& s matches Ok(payload) ==> is_sendable_length(payload@.len()) ==> (r matches Ok(
                    f,
                ) && is_on_the_wire(bytes_of(f), 0, payload@))
                &&& s matches Err(fault) ==> (r matches Err(e) && e.code == Code::Internal
                    && e.message@ == "proto encode: "@ + fault@)
            },
{
    let s = choose|s: Result<Vec<u8>, String>| #[trigger]
        call_ensures(serialize, (msg,), s) && match s {
            Ok(payload) => encodes(payload@, None, frame_result(r)),
            Err(fault) => frame_result(r) == Err::<Seq<u8>, StatusView>(
                internal_at("proto encode"@, fault@),
            ),
        };
    lemma_step_text();
    if let Ok(payload) = s {
        if is_sendable_length(payload@.len()) {
            lemma_on_the_wire(0, payload@);
        }
    }
    assert(call_ensures(serialize, (msg,), s));
}

/// The texts of the two steps that serialize and parse.
proof fn lemma_step_text()
    ensures
        "proto encode"@ + ": "@ == "proto encode: "@,
        "proto decode"@ + ": "@ == "proto decode: "@,
{
    reveal_strlit("proto encode");
    reveal_strlit("proto decode");
    reveal_strlit(": ");
    reveal_strlit("proto encode: ");
    reveal_strlit("proto decode: ");
    assert("proto encode"@ + ": "@ =~= "proto encode: "@);
    assert("proto decode"@ + ": "@ =~= "proto decode: "@);
}

/// A payload is parsed just as it is. The message that it holds is returned; a payload
/// that holds none is an internal error with the fault's text.
pub proof fn law_payloads_are_parsed<M, F: Fn(&[u8]) -> Result<M, String>>(
    payload: &[u8],
    parse: F,
    r: Result<M, Status>,
)
    requires
        call_ensures(parse_payload::<M, F>, (payload, parse), r),
    ensures
        exists|given: &[u8], m: Result<M, String>|
            {
                &&& #[trigger] call_ensures(parse, (given,), m)
                &&& given@ == payload@
                &&& m matches Ok(msg) ==> r == Ok::<M, Status>(msg)
                &&& m matches Err(fault) ==> (r matches Err(e) && e.code == Code::Internal
                    && e.message@ == "proto decode: "@ + fault@)
            },
{
    lemma_step_text();
    let (given, m) = choose|given: &[u8], m: Result<M, String>| #[trigger]
        call_ensures(parse, (given,), m) && given@ == payload@ && match m {
            Ok(msg) => r == Ok::<M, Status>(msg),
            Err(fault) => r is Err && r->Err_0@ == internal_at("proto decode"@, fault@),
        };
    assert(call_ensures(parse, (given,), m));
}

/// A message that is on the wire uncompressed and within the limit is parsed from just its
/// body, whatever follows it.
pub proof fn law_messages_are_unwrapped_and_parsed<M, F: Fn(&[u8]) -> Result<M, String>>(
    given: &[u8],
    max: usize,
    parse: F,
    r: Result<M, Status>,
    f: Seq<u8>,
    body: Seq<u8>,
    rest: Seq<u8>,
)
    requires
        call_ensures(decode_message::<M, F>, (given, None, max, parse), r),
        given@ == f + rest,
        is_on_the_wire(f, 0, body),
        body.len() <= max,
        body.len() <= u32::MAX,
    ensures
        exists|payload: &[u8], m: Result<M, String>|
            {
                &&& #[trigger] call_ensures(parse, (payload,), m)
                &&& payload@ == body
                &&& m matches Ok(msg) ==> r == Ok::<M, Status>(msg)
                &&& m matches Err(fault) ==> (r matches Err(e) && e.code == Code::Internal
                    && e.message@ == "proto decode: "@ + fault@)
            },
{
    lemma_step_text();
    lemma_wire_is_unique(f, 0, body);
    law_frame_round_trip(body, rest, max as nat);
    let (payload, m) = choose|payload: &[u8], m: Result<M, String>| #[trigger]
        call_ensures(parse, (payload,), m) && payload@ == body && match m {
            Ok(msg) => r == Ok::<M, Status>(msg),
            Err(fault) => r is Err && r->Err_0@ == internal_at("proto decode"@, fault@),
        };
    assert(call_ensures(parse, (payload,), m));
}

/// A message is encoded and decoded as its bytes are, with whatever compressor: what
/// encoding and decoding its bytes may come to is what comes of the message.
pub proof fn law_messages_are_coded_as_their_bytes<
    M,
    F: Fn(&M) -> Result<Vec<u8>, String>,
    G: Fn(&[u8]) -> Result<M, String>,
>(
    msg: &M,
    serialize: F,
    compressor: Option<&dyn Compressor>,
    sent: Result<Bytes, Status>,
    given: &[u8],
    max: usize,
    parse: G,
    read: Result<M, Status>,
)
    requires
        call_ensures(encode_message::<M, F>, (msg, serialize, compressor), sent),
        call_ensures(decode_message::<M, G>, (given, compressor, max, parse), read),
    ensures
        exists|s: Result<Vec<u8>, String>|
            {
                &&& #[trigger] call_ensures(serialize, (msg,), s)
                &&& s matches Ok(payload) ==> encodes(payload@, compressor, frame_result(sent))
                &&& s matches Err(fault) ==> (sent matches Err(e) && e.code == Code::Internal
                    && e.message@ == "proto encode"@ + ": "@ + fault@)
            },
        exists|out: Result<Seq<u8>, StatusView>|
            {
                &&& #[trigger] decodes(given@, compressor, max as nat, out)
                &&& out matches Err(fault) ==> (read matches Err(e) && e@ == fault)
                &&& out matches Ok(payload) ==> exists|slice: &[u8], m: Result<M, String>|
                    {
                        &&& #[trigger] call_ensures(parse, (slice,), m)
                        &&& slice@ == payload
                        &&& m matches Ok(v) ==> read == Ok::<M, Status>(v)
                        &&& m matches Err(fault) ==> (read matches Err(e) && e.code
                            == Code::Internal && e.message@ == "proto decode"@ + ": "@ + fault@)
                    }
            },
{
}

} // verus!
