//! Padded base64 of the `base64` crate, and what it means.
//!
//! The crate encodes and decodes; that it does so as described here is not proved.

use base64::{engine::general_purpose::STANDARD, Engine};
use vstd::prelude::*;
use vstd::string::*;

verus! {

/// The base64 digit with value `v`.
pub open spec fn base64_digit(v: int) -> char {
    if v < 26 {
        (65 + v) as u8 as char
    } else if v < 52 {
        (71 + v) as u8 as char
    } else if v < 62 {
        (v - 4) as u8 as char
    } else if v == 62 {
        '+'
    } else {
        '/'
    }
}

/// The padded base64 text of bytes: four digits for every three bytes, and `=` for
/// the digits that the last bytes do not fill.
pub open spec fn base64_text(b: Seq<u8>) -> Seq<char>
    decreases b.len(),
{
    if b.len() == 0 {
        seq![]
    } else if b.len() == 1 {
        seq![base64_digit(b[0] as int / 4), base64_digit(b[0] as int % 4 * 16), '=', '=']
    } else if b.len() == 2 {
        seq![
            base64_digit(b[0] as int / 4),
            base64_digit(b[0] as int % 4 * 16 + b[1] as int / 16),
            base64_digit(b[1] as int % 16 * 4),
            '=',
        ]
    } else {
        seq![
            base64_digit(b[0] as int / 4),
            base64_digit(b[0] as int % 4 * 16 + b[1] as int / 16),
            base64_digit(b[1] as int % 16 * 4 + b[2] as int / 64),
            base64_digit(b[2] as int % 64),
        ] + base64_text(b.skip(3))
    }
}

/// The bytes whose base64 text `text` is, if there are any.
pub open spec fn base64_bytes(text: Seq<char>) -> Option<Seq<u8>> {
    if exists|b: Seq<u8>| #[trigger] base64_text(b) == text {
        Some(choose|b: Seq<u8>| #[trigger] base64_text(b) == text)
    } else {
        None
    }
}

/// The characters of padded base64.
pub open spec fn is_base64_char(c: char) -> bool {
    ||| 'A' <= c && c <= 'Z'
    ||| 'a' <= c && c <= 'z'
    ||| '0' <= c && c <= '9'
    ||| c == '+' || c == '/' || c == '='
}

/// `Engine::encode` of the standard engine gives the padded base64 text. The text
/// must fit in memory.
#[verifier::external_body]
pub(crate) fn encode_base64(input: &[u8]) -> (r: String)
    requires
        4 * ((input@.len() + 2) / 3) <= isize::MAX,
    ensures
        r@ == base64_text(input@),
{
    STANDARD.encode(input)
}

/// `Engine::decode` of the standard engine gives bytes whose padded base64 text it
/// is given, and refuses any text that is not that of some bytes.
#[verifier::external_body]
fn decode_text(text: &str) -> (r: Option<Vec<u8>>)
    ensures
        r matches Some(v) ==> base64_text(v@) == text@,
        r is None ==> forall|b: Seq<u8>| #[trigger] base64_text(b) != text@,
{
    STANDARD.decode(text).ok()
}

/// The bytes that a base64 text stands for, if it is well formed.
pub(crate) fn decode_base64(text: &str) -> (r: Option<Vec<u8>>)
    ensures
        match base64_bytes(text@) {
            Some(b) => r is Some && r->0@ == b,
            None => r is None,
        },
{
    let r = decode_text(text);
    proof {
        if let Some(v) = &r {
            law_base64_round_trip(v@);
        }
    }
    r
}

/// Different values have different digits, and no digit is the padding.
proof fn lemma_digits(v: int, w: int)
    requires
        0 <= v < 64,
        0 <= w < 64,
    ensures
        base64_digit(v) == base64_digit(w) ==> v == w,
        base64_digit(v) != '=',
        is_base64_char(base64_digit(v)),
{
}

/// Different bytes have different base64 texts.
proof fn lemma_base64_is_injective(a: Seq<u8>, b: Seq<u8>)
    requires
        base64_text(a) == base64_text(b),
    ensures
        a == b,
    decreases a.len(),
{
    let s = base64_text(a);
    let t = base64_text(b);
    if a.len() == 0 || b.len() == 0 {
        assert(s.len() == t.len());
        assert(a =~= b);
    } else {
        let a1 = if a.len() > 1 { a[1] as int } else { 0 };
        let b1 = if b.len() > 1 { b[1] as int } else { 0 };
        let a2 = if a.len() > 2 { a[2] as int } else { 0 };
        let b2 = if b.len() > 2 { b[2] as int } else { 0 };
        assert(s[0] == t[0] && s[1] == t[1] && s[2] == t[2] && s[3] == t[3]);
        lemma_digits(a[0] as int / 4, b[0] as int / 4);
        lemma_digits(a[0] as int % 4 * 16 + a1 / 16, b[0] as int % 4 * 16 + b1 / 16);
        lemma_digits(a1 % 16 * 4 + a2 / 64, b1 % 16 * 4 + b2 / 64);
        lemma_digits(b1 % 16 * 4 + b2 / 64, a1 % 16 * 4 + a2 / 64);
        lemma_digits(a2 % 64, b2 % 64);
        lemma_digits(b2 % 64, a2 % 64);
        if a.len() <= 2 || b.len() <= 2 {
            assert(a.len() == b.len());
            assert(a =~= b);
        } else {
            assert(base64_text(a.skip(3)) =~= s.skip(4));
            assert(base64_text(b.skip(3)) =~= t.skip(4));
            lemma_base64_is_injective(a.skip(3), b.skip(3));
            assert(a =~= a.take(3) + a.skip(3));
            assert(b =~= b.take(3) + b.skip(3));
            assert(a.take(3) =~= b.take(3));
        }
    }
}

/// Bytes are read back from their base64 text.
pub proof fn law_base64_round_trip(b: Seq<u8>)
    ensures
        base64_bytes(base64_text(b)) == Some(b),
{
    let text = base64_text(b);
    let c = choose|c: Seq<u8>| #[trigger] base64_text(c) == text;
    lemma_base64_is_injective(b, c);
}

/// Base64 text is made of base64 characters.
pub proof fn lemma_base64_chars(b: Seq<u8>, i: int)
    requires
        0 <= i < base64_text(b).len(),
    ensures
        is_base64_char(base64_text(b)[i]),
    decreases b.len(),
{
    let b1 = if b.len() > 1 { b[1] as int } else { 0 };
    let b2 = if b.len() > 2 { b[2] as int } else { 0 };
    lemma_digits(b[0] as int / 4, 0);
    lemma_digits(b[0] as int % 4 * 16 + b1 / 16, 0);
    lemma_digits(b1 % 16 * 4 + b2 / 64, 0);
    lemma_digits(b2 % 64, 0);
    if b.len() >= 3 && i >= 4 {
        lemma_base64_chars(b.skip(3), i - 4);
        assert(base64_text(b)[i] == base64_text(b.skip(3))[i - 4]);
    }
}

} // verus!
