//! The gzip compressor, backed by the `flate2` crate.

use crate::buffers::bytes_of;
use crate::codec::{
    bytes_result, decodes, encode_raw, encodes, is_on_the_wire, is_sendable_length,
    law_compressed_round_trip, law_payloads_are_encoded, lossless_on, Compressor, HEADER_LEN,
};
use crate::status::{internal_at, internal_error, Code, Status, StatusView};
use bytes::Bytes;
use flate2::{read::GzDecoder, write::GzEncoder, Compression};
use std::io::{Read, Write};
use vstd::prelude::*;

verus! {

/// The step of compression that failed.
#[derive(Debug, Clone, Copy, PartialEq, Eq, Structural)]
pub enum GzipStep {
    Write,
    Finish,
}

/// Why compression failed: the step, and the fault's text.
#[derive(Debug, PartialEq, Eq)]
pub struct GzipFault {
    pub step: GzipStep,
    pub text: String,
}

/// The outcome of compression, by view.
pub open spec fn gzip_view(r: Result<Vec<u8>, GzipFault>) -> Result<Seq<u8>, (GzipStep, Seq<char>)> {
    match r {
        Ok(v) => Ok(v@),
        Err(f) => Err((f.step, f.text@)),
    }
}

/// The outcome of decompression, by view.
pub open spec fn gunzip_view(r: Result<Vec<u8>, String>) -> Result<Seq<u8>, Seq<char>> {
    match r {
        Ok(v) => Ok(v@),
        Err(t) => Err(t@),
    }
}

/// What compressing `input` at `level` comes to.
pub uninterp spec fn gzip_outcome(level: u32, input: Seq<u8>) -> Result<
    Seq<u8>,
    (GzipStep, Seq<char>),
>;

/// What decompressing `input` comes to.
pub uninterp spec fn gunzip_outcome(input: Seq<u8>) -> Result<Seq<u8>, Seq<char>>;

/// Whether decompressing `packed` gives `payload`.
pub open spec fn unpacks_to(packed: Seq<u8>, payload: Seq<u8>) -> bool {
    gunzip_outcome(packed) == Ok::<Seq<u8>, Seq<char>>(payload)
}

/// `Compression::default` is level 6.
#[verifier::external_body]
fn default_level() -> (level: u32)
    ensures
        level == 6,
{
    Compression::default().level()
}

/// `flate2::write::GzEncoder` over a vector, from `new` through `write_all` to
/// `finish`. The outcome depends on the level and the input alone, and what was
/// written decompresses to the input. Levels above 10 are not defined.
#[verifier::external_body]
fn gzip(level: u32, input: &[u8]) -> (r: Result<Vec<u8>, GzipFault>)
    requires
        level <= 10,
    ensures
        gzip_view(r) == gzip_outcome(level, input@),
        r matches Ok(packed) ==> unpacks_to(packed@, input@),
{
    let mut encoder = GzEncoder::new(Vec::new(), Compression::new(level));
    encoder.write_all(input).map_err(|e| GzipFault { step: GzipStep::Write, text: e.to_string() })?;
    encoder.finish().map_err(|e| GzipFault { step: GzipStep::Finish, text: e.to_string() })
}

/// `flate2::read::GzDecoder` over a slice, read to its end. The outcome depends
/// on the input alone.
#[verifier::external_body]
fn gunzip(input: &[u8]) -> (r: Result<Vec<u8>, String>)
    ensures
        gunzip_view(r) == gunzip_outcome(input@),
{
    let mut out = Vec::new();
    match GzDecoder::new(input).read_to_end(&mut out) {
        Ok(_) => Ok(out),
        Err(e) => Err(e.to_string()),
    }
}

/// gzip at a fixed compression level.
pub struct GzipCompressor {
    level: u32,
}

impl GzipCompressor {
    #[verifier::type_invariant]
    spec fn level_is_defined(&self) -> bool {
        self.level <= 10
    }

    /// The compression level.
    pub closed spec fn level(&self) -> u32 {
        self.level
    }

    /// A compressor at the default level.
    pub fn new() -> (c: Self)
        ensures
            c.level() == 6,
    {
        GzipCompressor { level: default_level() }
    }

    /// A compressor at the given level: 0 stores, 10 compresses hardest.
    pub fn with_level(level: u32) -> (c: Self)
        requires
            level <= 10,
        ensures
            c.level() == level,
    {
        GzipCompressor { level }
    }
}

impl Default for GzipCompressor {
    fn default() -> (c: Self)
        ensures
            c.level() == 6,
    {
        GzipCompressor::new()
    }
}

/// The outcome of compression as the library reports it.
pub open spec fn gzip_status(r: Result<Seq<u8>, (GzipStep, Seq<char>)>) -> Result<
    Seq<u8>,
    StatusView,
> {
    match r {
        Ok(b) => Ok(b),
        Err((step, text)) => Err(
            match step {
                GzipStep::Write => internal_at("gzip compress write"@, text),
                GzipStep::Finish => internal_at("gzip compress finish"@, text),
            },
        ),
    }
}

/// The outcome of decompression as the library reports it.
pub open spec fn gunzip_status(r: Result<Seq<u8>, Seq<char>>) -> Result<Seq<u8>, StatusView> {
    match r {
        Ok(b) => Ok(b),
        Err(text) => Err(internal_at("gzip decompress"@, text)),
    }
}

/// Turns a compression fault into a status.
pub fn compressed(r: Result<Vec<u8>, GzipFault>) -> (s: Result<Vec<u8>, Status>)
    ensures
        bytes_result(s) == gzip_status(gzip_view(r)),
{
    match r {
        Ok(v) => Ok(v),
        Err(f) => Err(
            match f.step {
                GzipStep::Write => internal_error("gzip compress write", f.text.as_str()),
                GzipStep::Finish => internal_error("gzip compress finish", f.text.as_str()),
            },
        ),
    }
}

/// Turns a decompression fault into a status.
pub fn decompressed(r: Result<Vec<u8>, String>) -> (s: Result<Vec<u8>, Status>)
    ensures
        bytes_result(s) == gunzip_status(gunzip_view(r)),
{
    match r {
        Ok(v) => Ok(v),
        Err(text) => Err(internal_error("gzip decompress", text.as_str())),
    }
}

impl Compressor for GzipCompressor {
    open spec fn is_named(&self, name: Seq<char>) -> bool {
        name == "gzip"@
    }

    open spec fn compresses(&self, input: Seq<u8>, out: Result<Seq<u8>, StatusView>) -> bool {
        &&& out == gzip_status(gzip_outcome(self.level(), input))
        &&& out matches Ok(packed) ==> unpacks_to(packed, input)
    }

    open spec fn decompresses(&self, input: Seq<u8>, out: Result<Seq<u8>, StatusView>) -> bool {
        out == gunzip_status(gunzip_outcome(input))
    }

    fn name(&self) -> (s: &'static str) {
        "gzip"
    }

    fn compress(&self, input: &[u8]) -> (r: Result<Vec<u8>, Status>) {
        proof {
            use_type_invariant(self);
        }
        compressed(gzip(self.level, input))
    }

    fn decompress(&self, input: &[u8]) -> (r: Result<Vec<u8>, Status>) {
        decompressed(gunzip(input))
    }
}

/// gzip loses nothing: whatever compressing wrote for a payload, decompressing
/// gives the payload back.
pub proof fn law_gzip_lossless(
    c: GzipCompressor,
    d: GzipCompressor,
    payload: Seq<u8>,
    packed: Seq<u8>,
    unpacked: Result<Seq<u8>, StatusView>,
)
    requires
        c.compresses(payload, Ok(packed)),
        d.decompresses(packed, unpacked),
    ensures
        unpacked == Ok::<Seq<u8>, StatusView>(payload),
{
}

/// A gzip compressor where any compressor may stand.
pub open spec fn as_compressor(c: &GzipCompressor) -> Option<&dyn Compressor> {
    Some(c)
}

/// With gzip on both sides, decoding any frame that encoding produced gives the
/// payload back, as long as the frame's body and the payload are within the
/// limit.
pub proof fn law_gzip_round_trip(
    c: &GzipCompressor,
    payload: Seq<u8>,
    max: nat,
    encoded: Seq<u8>,
    decoded: Result<Seq<u8>, StatusView>,
)
    requires
        encodes(payload, as_compressor(c), Ok(encoded)),
        decodes(encoded, as_compressor(c), max, decoded),
        payload.len() <= max,
        encoded.len() <= HEADER_LEN + max,
    ensures
        decoded == Ok::<Seq<u8>, StatusView>(payload),
{
    assert(lossless_on(as_compressor(c), payload));
    law_compressed_round_trip(payload, as_compressor(c), max, encoded, decoded);
}

/// What a step of compression is called in messages.
pub open spec fn step_name(step: GzipStep) -> Seq<char> {
    if step == GzipStep::Write {
        "gzip compress write"@
    } else {
        "gzip compress finish"@
    }
}

/// What gzip writes, whatever its length, is what compressing returns; where gzip fails,
/// compressing is an internal error with the fault's text.
pub proof fn law_gzip_output_is_returned(
    c: &GzipCompressor,
    input: &[u8],
    r: Result<Vec<u8>, Status>,
)
    requires
        call_ensures(<GzipCompressor as Compressor>::compress, (c, input), r),
    ensures
        gzip_outcome(c.level(), input@) matches Ok(packed) ==> (r matches Ok(v) && v@ == packed),
        gzip_outcome(c.level(), input@) matches Err((step, text)) ==> (r matches Err(e) && e.code
            == Code::Internal && e.message@ == step_name(step) + ": "@ + text),
{
}

/// What decompressing comes to is what `gunzip` gives: the bytes, or an internal error
/// with the fault's text.
pub proof fn law_gunzip_output_is_returned(
    c: &GzipCompressor,
    input: &[u8],
    r: Result<Vec<u8>, Status>,
)
    requires
        call_ensures(<GzipCompressor as Compressor>::decompress, (c, input), r),
    ensures
        gunzip_outcome(input@) matches Ok(payload) ==> (r matches Ok(v) && v@ == payload),
        gunzip_outcome(input@) matches Err(text) ==> (r matches Err(e) && e.code == Code::Internal
            && e.message@ == "gzip decompress"@ + ": "@ + text),
{
}

/// A compressor has the level that was asked for, and level 6 if none was.
pub proof fn law_levels_are_kept(level: u32, c: GzipCompressor, d: GzipCompressor)
    requires
        call_ensures(GzipCompressor::with_level, (level,), c),
        call_ensures(GzipCompressor::new, (), d),
    ensures
        c.level() == level,
        d.level() == 6,
{
}

/// The bytes that compressing or decompressing gave are passed on as they are, and every
/// fault becomes an internal error with its text.
pub proof fn law_gzip_faults_are_internal(
    packed: Result<Vec<u8>, GzipFault>,
    a: Result<Vec<u8>, Status>,
    unpacked: Result<Vec<u8>, String>,
    b: Result<Vec<u8>, Status>,
)
    requires
        call_ensures(compressed, (packed,), a),
        call_ensures(decompressed, (unpacked,), b),
    ensures
        packed matches Ok(v) ==> (a matches Ok(w) && w@ == v@),
        packed matches Err(f) ==> (a matches Err(e) && e.code == Code::Internal && e.message@
            == step_name(f.step) + ": "@ + f.text@),
        unpacked matches Ok(v) ==> (b matches Ok(w) && w@ == v@),
        unpacked matches Err(t) ==> (b matches Err(e) && e.code == Code::Internal && e.message@
            == "gzip decompress"@ + ": "@ + t@),
{
}

/// With gzip, a payload that is not empty is sent as what gzip writes for it, with the flag
/// of a compressed message, however long that is, as long as its length can be sent.
pub proof fn law_gzip_payloads_are_sent(
    c: &GzipCompressor,
    payload: &[u8],
    packed: Seq<u8>,
    r: Result<Bytes, Status>,
)
    requires
        call_ensures(encode_raw, (payload, as_compressor(c)), r),
        payload@.len() > 0,
        gzip_outcome(c.level(), payload@) == Ok::<Seq<u8>, (GzipStep, Seq<char>)>(packed),
        is_sendable_length(packed.len()),
    ensures
        r matches Ok(f) && is_on_the_wire(bytes_of(f), 1, packed),
{
    law_payloads_are_encoded(payload, as_compressor(c), r);
}

} // verus!
