//! Text helpers: decimal and hexadecimal numerals, prefixes and suffixes.

use vstd::prelude::*;
use vstd::string::*;
use vstd::utf8::*;

verus! {

/// `String::push` appends one character.
pub assume_specification[ String::push ](s: &mut String, c: char)
    ensures
        final(s)@ == old(s)@.push(c),
;

/// The decimal digit with value `d`.
pub open spec fn digit(d: nat) -> char {
    (48 + d) as u8 as char
}

/// The decimal numeral of `n`, without leading zeros.
pub open spec fn decimal(n: nat) -> Seq<char>
    decreases n,
{
    if n < 10 {
        seq![digit(n)]
    } else {
        decimal(n / 10).push(digit(n % 10))
    }
}

pub open spec fn is_digit(c: char) -> bool {
    '0' <= c && c <= '9'
}

/// The number that a run of decimal digits denotes.
pub open spec fn digits_value(s: Seq<char>) -> nat
    decreases s.len(),
{
    if s.len() == 0 {
        0
    } else {
        (10 * digits_value(s.drop_last()) + (s.last() as int - 48)) as nat
    }
}

/// The digits of a numeral, with the one leading `+` that is allowed removed.
pub open spec fn unsigned(s: Seq<char>) -> Seq<char> {
    if s.len() > 0 && s[0] == '+' {
        s.skip(1)
    } else {
        s
    }
}

/// The number that `s` denotes, if it is a numeral (an optional `+`, then at
/// least one decimal digit) and the number does not exceed `max`.
pub open spec fn numeral(s: Seq<char>, max: nat) -> Option<nat> {
    let digits = unsigned(s);
    if digits.len() > 0 && (forall|i: int| 0 <= i < digits.len() ==> is_digit(#[trigger] digits[i]))
        && digits_value(digits) <= max {
        Some(digits_value(digits))
    } else {
        None
    }
}

/// ASCII lower case of one character.
pub open spec fn lower_char(c: char) -> char {
    if 'A' <= c && c <= 'Z' {
        (c as u8 + 32) as u8 as char
    } else {
        c
    }
}

/// ASCII lower case.
pub open spec fn ascii_lower(s: Seq<char>) -> Seq<char> {
    s.map_values(|c: char| lower_char(c))
}

/// The lower case of text that is not ASCII.
pub uninterp spec fn unicode_lower(s: Seq<char>) -> Seq<char>;

/// The lower case of `s`.
pub open spec fn lower(s: Seq<char>) -> Seq<char> {
    if is_ascii_chars(s) {
        ascii_lower(s)
    } else {
        unicode_lower(s)
    }
}

/// Whether `s` holds none of the letters `A` to `Z`.
pub open spec fn has_no_capital(s: Seq<char>) -> bool {
    forall|i: int| 0 <= i < s.len() ==> !('A' <= #[trigger] s[i] && s[i] <= 'Z')
}

/// `str::to_lowercase`. On ASCII text only the letters `A` to `Z` change, and what
/// comes out never holds one of them.
#[verifier::external_body]
pub(crate) fn lowercase(s: &str) -> (r: String)
    ensures
        r@ == (if is_ascii_chars(s@) {
            ascii_lower(s@)
        } else {
            unicode_lower(s@)
        }),
        has_no_capital(r@),
{
    s.to_lowercase()
}

/// The text that stands for bytes which are not UTF-8.
pub uninterp spec fn replaced_text(bytes: Seq<u8>) -> Seq<char>;

/// The text of bytes, with something in the place of what is not UTF-8.
pub open spec fn lossy_text(bytes: Seq<u8>) -> Seq<char> {
    if valid_utf8(bytes) {
        decode_utf8(bytes)
    } else {
        replaced_text(bytes)
    }
}

/// `String::from_utf8_lossy`. Bytes that are UTF-8 are decoded as they are.
#[verifier::external_body]
pub(crate) fn text_from_utf8_lossy(bytes: &[u8]) -> (r: String)
    ensures
        r@ == (if valid_utf8(bytes@) {
            decode_utf8(bytes@)
        } else {
            replaced_text(bytes@)
        }),
{
    String::from_utf8_lossy(bytes).into_owned()
}

/// The quoted form of a string, its special characters escaped.
pub uninterp spec fn quoted(s: Seq<char>) -> Seq<char>;

/// The `Debug` form of a string.
#[verifier::external_body]
pub(crate) fn quote(s: &str) -> (r: String)
    ensures
        r@ == quoted(s@),
{
    format!("{s:?}")
}

/// Writes `n` in decimal.
pub fn decimal_string(n: u128) -> (s: String)
    ensures
        s@ == decimal(n as nat),
    decreases n,
{
    let last: u8 = (n % 10) as u8;
    let mut s = if n < 10 {
        String::new()
    } else {
        decimal_string(n / 10)
    };
    s.push((48 + last) as char);
    proof {
        if n < 10 {
            assert(s@ =~= seq![digit(n as nat)]);
        }
    }
    s
}

/// The characters of `s`, in order.
pub fn chars_of(s: &str) -> (v: Vec<char>)
    ensures
        v@ == s@,
{
    let mut v: Vec<char> = Vec::new();
    for c in it: s.chars()
        invariant
            v@ == it.seq().take(it.index()),
            it.seq() == s@,
    {
        v.push(c);
        assert(it.seq().take(it.index() + 1) =~= it.seq().take(it.index()).push(c));
    }
    assert(s@.take(s@.len() as int) =~= s@);
    v
}

/// Parses an unsigned numeral that does not exceed `max`: an optional `+`, then
/// decimal digits.
pub fn parse_unsigned(s: &str, max: u64) -> (r: Option<u64>)
    ensures
        r matches Some(n) ==> numeral(s@, max as nat) == Some(n as nat),
        r is None ==> numeral(s@, max as nat) is None,
{
    let v = chars_of(s);
    let start: usize = if v.len() > 0 && v[0] == '+' {
        1
    } else {
        0
    };
    let ghost digits = unsigned(s@);
    assert(digits =~= v@.skip(start as int));
    if start == v.len() {
        return None;
    }
    let mut value: u64 = 0;
    let mut i: usize = start;
    while i < v.len()
        invariant
            start <= i <= v.len(),
            v@ == s@,
            digits == unsigned(s@),
            digits == v@.skip(start as int),
            digits.len() == v.len() - start,
            value == digits_value(digits.take(i - start)),
            value <= max,
            forall|k: int| 0 <= k < i - start ==> is_digit(#[trigger] digits[k]),
        decreases v.len() - i,
    {
        let c = v[i];
        assert(digits[i - start] == c);
        if c < '0' || c > '9' {
            return None;
        }
        let d: u64 = (c as u32 - 48) as u64;
        proof {
            assert(digits.take(i + 1 - start).drop_last() =~= digits.take(i - start));
            assert(digits_value(digits.take(i + 1 - start)) == 10 * value + d);
        }
        if d > max || value > (max - d) / 10 {
            proof {
                assert(10 * value + d > max);
                if forall|k: int| 0 <= k < digits.len() ==> is_digit(#[trigger] digits[k]) {
                    lemma_digits_value_grows(digits, i + 1 - start);
                }
            }
            return None;
        }
        value = value * 10 + d;
        i += 1;
    }
    assert(digits.take(digits.len() as int) =~= digits);
    Some(value)
}

/// Reading more digits never makes a numeral smaller.
proof fn lemma_digits_value_grows(s: Seq<char>, n: int)
    requires
        0 <= n <= s.len(),
        forall|i: int| 0 <= i < s.len() ==> is_digit(#[trigger] s[i]),
    ensures
        digits_value(s.take(n)) <= digits_value(s),
    decreases s.len() - n,
{
    if n == s.len() {
        assert(s.take(n) =~= s);
    } else {
        assert(s.take(n + 1).drop_last() =~= s.take(n));
        assert(is_digit(s[n]));
        lemma_digits_value_grows(s, n + 1);
    }
}

/// The hexadecimal digit with value `d`, its letters in lower case.
pub open spec fn hex_lower(d: int) -> char {
    if d < 10 {
        (48 + d) as u8 as char
    } else {
        (87 + d) as u8 as char
    }
}

/// The two hexadecimal digits of `b`, in lower case.
pub fn hex_byte(b: u8) -> (s: String)
    ensures
        s@ == seq![hex_lower(b as int / 16), hex_lower(b as int % 16)],
{
    let mut s = String::new();
    let hi: u8 = b / 16;
    let lo: u8 = b % 16;
    s.push((if hi < 10 { 48 + hi } else { 87 + hi }) as char);
    s.push((if lo < 10 { 48 + lo } else { 87 + lo }) as char);
    assert(s@ =~= seq![hex_lower(b as int / 16), hex_lower(b as int % 16)]);
    s
}

/// Whether two strings hold the same characters.
pub fn same_text(a: &str, b: &str) -> (r: bool)
    ensures
        r == (a@ == b@),
{
    a.to_owned() == b.to_owned()
}

/// Whether `s` begins with `prefix`.
pub open spec fn has_prefix(s: Seq<char>, prefix: Seq<char>) -> bool {
    prefix.len() <= s.len() && s.take(prefix.len() as int) == prefix
}

/// Whether `s` ends with `suffix`.
pub open spec fn has_suffix(s: Seq<char>, suffix: Seq<char>) -> bool {
    suffix.len() <= s.len() && s.skip(s.len() - suffix.len()) == suffix
}

/// Tests for a prefix.
pub fn starts_with(s: &str, prefix: &str) -> (r: bool)
    ensures
        r == has_prefix(s@, prefix@),
{
    let n: usize = prefix.unicode_len();
    if n > s.unicode_len() {
        return false;
    }
    assert(s@.subrange(0, n as int) =~= s@.take(n as int));
    same_text(s.substring_char(0, n), prefix)
}

/// Tests for a suffix.
pub fn ends_with(s: &str, suffix: &str) -> (r: bool)
    ensures
        r == has_suffix(s@, suffix@),
{
    let n: usize = suffix.unicode_len();
    let len: usize = s.unicode_len();
    if n > len {
        return false;
    }
    assert(s@.subrange(len - n, len as int) =~= s@.skip(len - n));
    same_text(s.substring_char(len - n, len), suffix)
}

/// The text of `a` followed by that of `b`.
pub fn join(a: &str, b: &str) -> (s: String)
    ensures
        s@ == a@ + b@,
{
    a.to_owned().concat(b)
}

/// The text of `a`, `b` and `c`, in that order.
pub fn join3(a: &str, b: &str, c: &str) -> (s: String)
    ensures
        s@ == a@ + b@ + c@,
{
    a.to_owned().concat(b).concat(c)
}

/// The text of `a`, `b`, `c` and `d`, in that order.
pub fn join4(a: &str, b: &str, c: &str, d: &str) -> (s: String)
    ensures
        s@ == a@ + b@ + c@ + d@,
{
    a.to_owned().concat(b).concat(c).concat(d)
}

/// Every character of a decimal numeral is a digit, and the digits denote the
/// number that was written.
pub proof fn lemma_decimal_digits(n: nat)
    ensures
        decimal(n).len() > 0,
        forall|i: int| 0 <= i < decimal(n).len() ==> is_digit(#[trigger] decimal(n)[i]),
        digits_value(decimal(n)) == n,
    decreases n,
{
    if n < 10 {
        assert(decimal(n).drop_last() =~= Seq::<char>::empty());
        assert(digits_value(Seq::<char>::empty()) == 0);
        assert(digit(n) as int == 48 + n);
    } else {
        lemma_decimal_digits(n / 10);
        assert(decimal(n).drop_last() =~= decimal(n / 10));
        assert(digit(n % 10) as int == 48 + n % 10);
    }
}

/// Writing a number and reading it back gives the number.
pub proof fn law_decimal_round_trip(n: nat, max: nat)
    requires
        n <= max,
    ensures
        numeral(decimal(n), max) == Some(n),
{
    lemma_decimal_digits(n);
    assert(is_digit(decimal(n)[0]));
    assert(unsigned(decimal(n)) == decimal(n));
}

/// A run of digits is read from left to right, each digit counting ten times the next.
pub proof fn law_digits_count_tenfold(s: Seq<char>, c: char)
    requires
        is_digit(c),
    ensures
        digits_value(seq![]) == 0,
        digits_value(s.push(c)) == 10 * digits_value(s) + (c as int - '0' as int),
{
    assert(s.push(c).drop_last() =~= s);
}

/// What a number is written as are decimal digits that denote the number, without a
/// zero in front.
pub proof fn law_numbers_are_written_in_decimal(n: u128, s: String)
    requires
        call_ensures(decimal_string, (n,), s),
    ensures
        forall|i: int| 0 <= i < s@.len() ==> '0' <= #[trigger] s@[i] && s@[i] <= '9',
        digits_value(s@) == n,
        s@.len() >= 1,
        s@[0] == '0' ==> n == 0 && s@.len() == 1,
{
    lemma_decimal_digits(n as nat);
    assert forall|i: int| 0 <= i < s@.len() implies '0' <= #[trigger] s@[i] && s@[i] <= '9' by {
        assert(is_digit(s@[i]));
    }
    lemma_no_leading_zero(n as nat);
}

/// A decimal numeral of more than one digit does not begin with a zero.
proof fn lemma_no_leading_zero(n: nat)
    ensures
        decimal(n).len() > 0,
        decimal(n)[0] == '0' ==> n == 0,
        n < 10 ==> decimal(n).len() == 1,
    decreases n,
{
    if n >= 10 {
        lemma_no_leading_zero(n / 10);
        assert(decimal(n)[0] == decimal(n / 10)[0]);
    } else {
        assert(digit(n) as int == 48 + n);
    }
}

/// Reading a numeral gives the number that its digits denote, as long as that does not
/// exceed the limit. One `+` may stand in front. A text that holds anything but digits
/// behind that, or no digit at all, is no numeral.
pub proof fn law_numerals_are_read(s: &str, max: u64, r: Option<u64>, digits: Seq<char>)
    requires
        call_ensures(parse_unsigned, (s, max), r),
        s@ == digits || s@ == seq!['+'] + digits,
        digits.len() > 0 ==> digits[0] != '+',
    ensures
        r is Some <==> digits.len() > 0 && (forall|i: int|
            0 <= i < digits.len() ==> '0' <= #[trigger] digits[i] && digits[i] <= '9')
            && digits_value(digits) <= max,
        r matches Some(n) ==> n == digits_value(digits),
{
    if s@.len() > 0 && s@[0] == '+' {
        assert(s@.skip(1) =~= digits);
    }
    assert(unsigned(s@) == digits);
    if forall|i: int| 0 <= i < digits.len() ==> '0' <= #[trigger] digits[i] && digits[i] <= '9' {
        assert forall|i: int| 0 <= i < digits.len() implies is_digit(#[trigger] digits[i]) by {}
    }
    if forall|i: int| 0 <= i < digits.len() ==> is_digit(#[trigger] digits[i]) {
        assert forall|i: int| 0 <= i < digits.len() implies '0' <= #[trigger] digits[i]
            && digits[i] <= '9' by {
            assert(is_digit(digits[i]));
        }
    }
}

/// Zeros in front change nothing of what a numeral denotes.
pub proof fn law_leading_zeros_count_nothing(digits: Seq<char>)
    ensures
        digits_value(seq!['0'] + digits) == digits_value(digits),
    decreases digits.len(),
{
    let all = seq!['0'] + digits;
    if digits.len() == 0 {
        assert(all.drop_last() =~= seq![]);
        assert(digits_value(Seq::<char>::empty()) == 0);
        assert(digits =~= Seq::<char>::empty());
    } else {
        law_leading_zeros_count_nothing(digits.drop_last());
        assert(all.drop_last() =~= seq!['0'] + digits.drop_last());
    }
}

/// A text begins with a prefix exactly if it is the prefix and something behind it, ends
/// with a suffix exactly if it is something and the suffix behind it, and is the same as
/// another exactly if they agree in every character.
pub proof fn law_prefix_and_suffix(s: &str, part: &str, starts: bool, ends: bool, same: bool)
    requires
        call_ensures(starts_with, (s, part), starts),
        call_ensures(ends_with, (s, part), ends),
        call_ensures(same_text, (s, part), same),
    ensures
        starts <==> exists|rest: Seq<char>| s@ == #[trigger] (part@ + rest),
        ends <==> exists|rest: Seq<char>| s@ == #[trigger] (rest + part@),
        same <==> s@.len() == part@.len() && forall|i: int|
            0 <= i < s@.len() ==> #[trigger] s@[i] == part@[i],
{
    let n = part@.len() as int;
    if starts {
        assert(s@ =~= part@ + s@.skip(n));
    }
    if ends {
        assert(s@ =~= s@.take(s@.len() - n) + part@);
    }
    assert forall|rest: Seq<char>| s@ == #[trigger] (part@ + rest) implies starts by {
        assert((part@ + rest).take(n) =~= part@);
    }
    assert forall|rest: Seq<char>| s@ == #[trigger] (rest + part@) implies ends by {
        assert((rest + part@).skip(rest.len() as int) =~= part@);
    }
    if s@.len() == part@.len() && forall|i: int|
        0 <= i < s@.len() ==> #[trigger] s@[i] == part@[i] {
        assert(s@ =~= part@);
    }
}

/// In lower case, ASCII text has the small letter for each capital one, and every other
/// character as it is.
pub proof fn law_lower_case_of_ascii(s: Seq<char>, i: int)
    requires
        is_ascii_chars(s),
        0 <= i < s.len(),
    ensures
        lower(s).len() == s.len(),
        'A' <= s[i] && s[i] <= 'Z' ==> lower(s)[i] as int == s[i] as int + 32,
        !('A' <= s[i] && s[i] <= 'Z') ==> lower(s)[i] == s[i],
{
}

/// Texts that are joined stand one behind the other, and nothing is lost or added; the
/// characters of a text are its characters, in order.
pub proof fn law_texts_are_joined(
    a: &str,
    b: &str,
    c: &str,
    d: &str,
    two: String,
    three: String,
    four: String,
    chars: Vec<char>,
)
    requires
        call_ensures(join, (a, b), two),
        call_ensures(join3, (a, b, c), three),
        call_ensures(join4, (a, b, c, d), four),
        call_ensures(chars_of, (a,), chars),
    ensures
        two@ == a@ + b@,
        three@ == a@ + b@ + c@,
        four@ == a@ + b@ + c@ + d@,
        chars@ == a@,
{
}

/// A byte is written as its two hexadecimal digits, in lower case, the higher one first.
pub proof fn law_bytes_are_written_in_hexadecimal(b: u8, s: String)
    requires
        call_ensures(hex_byte, (b,), s),
    ensures
        s@.len() == 2,
        b / 16 < 10 ==> s@[0] as int == '0' as int + b / 16,
        b / 16 >= 10 ==> s@[0] as int == 'a' as int + b / 16 - 10,
        b % 16 < 10 ==> s@[1] as int == '0' as int + b % 16,
        b % 16 >= 10 ==> s@[1] as int == 'a' as int + b % 16 - 10,
{
}

} // verus!
