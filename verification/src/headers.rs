//! HTTP header maps of the `http` crate, and what is relied on of them.
//!
//! A header map is a multi-map from lower-case names to lists of values. Its
//! contents are named by [`header_values`]; the order in which a map hands out
//! different names is left open. Names and values are named by [`name_text`]
//! and [`value_bytes`]. What is said of the crate's functions here is not
//! proved: it is what the crate documents.

use crate::text::ascii_lower;
use http::header::{HeaderName, HeaderValue};
use http::HeaderMap;
use vstd::prelude::*;
use vstd::string::*;
use vstd::utf8::*;

verus! {

#[verifier::external_type_specification]
#[verifier::external_body]
#[verifier::reject_recursive_types(T)]
pub struct ExHeaderMap<T>(http::HeaderMap<T>);

#[verifier::external_type_specification]
#[verifier::external_body]
pub struct ExHeaderName(http::header::HeaderName);

#[verifier::external_type_specification]
#[verifier::external_body]
pub struct ExHeaderValue(http::header::HeaderValue);

/// What a header map holds: for each name, its values in order.
pub type Headers = Map<Seq<char>, Seq<Seq<u8>>>;

/// The contents of a header map.
pub uninterp spec fn header_values(m: http::HeaderMap<http::header::HeaderValue>) -> Map<
    Seq<char>,
    Seq<Seq<u8>>,
>;

/// The characters of a header name.
pub uninterp spec fn name_text(n: http::header::HeaderName) -> Seq<char>;

/// The bytes of a header value.
pub uninterp spec fn value_bytes(v: http::header::HeaderValue) -> Seq<u8>;

/// The number of distinct names up to which a header map always has room for
/// another entry.
pub const MAX_NAMES: usize = 6553;

/// The map without any header.
pub open spec fn no_headers() -> Headers {
    Map::empty()
}

/// The values of `name`, none if the name is absent.
pub open spec fn values_of(h: Headers, name: Seq<char>) -> Seq<Seq<u8>> {
    if h.dom().contains(name) {
        h[name]
    } else {
        seq![]
    }
}

/// `h` with one more value for `name`, after those that it has.
pub open spec fn appended(h: Headers, name: Seq<char>, value: Seq<u8>) -> Headers {
    h.insert(name, values_of(h, name).push(value))
}

/// `h` with `value` as the only value of `name`.
pub open spec fn inserted(h: Headers, name: Seq<char>, value: Seq<u8>) -> Headers {
    h.insert(name, seq![value])
}

/// `h` with the entries appended, one after another.
pub open spec fn append_all(h: Headers, entries: Seq<(Seq<char>, Seq<u8>)>) -> Headers
    decreases entries.len(),
{
    if entries.len() == 0 {
        h
    } else {
        appended(append_all(h, entries.drop_last()), entries.last().0, entries.last().1)
    }
}

/// The headers of `a` followed, name by name, by those of `b`.
pub open spec fn merged(a: Headers, b: Headers) -> Headers {
    Map::new(
        |n: Seq<char>| a.dom().contains(n) || b.dom().contains(n),
        |n: Seq<char>| values_of(a, n) + values_of(b, n),
    )
}

/// Whether `h` has at most `n` distinct names.
pub open spec fn names_within(h: Headers, n: nat) -> bool {
    h.dom().finite() && h.dom().len() <= n
}

/// A name and a value, as characters and bytes.
pub open spec fn entry_view(e: (HeaderName, HeaderValue)) -> (Seq<char>, Seq<u8>) {
    (name_text(e.0), value_bytes(e.1))
}

/// The entries as characters and bytes.
pub open spec fn entry_views(v: Seq<(HeaderName, HeaderValue)>) -> Seq<(Seq<char>, Seq<u8>)> {
    v.map_values(|e: (HeaderName, HeaderValue)| entry_view(e))
}

/// The characters that a header name may hold.
pub open spec fn is_token_char(c: char) -> bool {
    ||| '0' <= c && c <= '9'
    ||| 'a' <= c && c <= 'z'
    ||| 'A' <= c && c <= 'Z'
    ||| c == '!' || c == '#' || c == '$' || c == '%' || c == '&' || c == '\'' || c == '*'
    ||| c == '+' || c == '-' || c == '.' || c == '^' || c == '_' || c == '`' || c == '|' || c == '~'
}

/// Whether `s` is a header name.
pub open spec fn is_header_name(s: Seq<char>) -> bool {
    1 <= s.len() <= 65535 && forall|i: int| 0 <= i < s.len() ==> is_token_char(#[trigger] s[i])
}

/// Whether `s` is a header name in lower case.
pub open spec fn is_field_name(s: Seq<char>) -> bool {
    is_header_name(s) && ascii_lower(s) == s
}

/// Whether `s` can be the name of an entry: ASCII text in lower case. A name that
/// arrived over HTTP/2 may hold characters that [`is_header_name`] does not admit.
pub open spec fn is_entry_name(s: Seq<char>) -> bool {
    is_ascii_chars(s) && ascii_lower(s) == s
}

/// Whether `b` may stand in a header value.
pub open spec fn is_value_byte(b: u8) -> bool {
    b == 9 || (b >= 32 && b != 127)
}

/// Whether `b` is a header value byte that is also ASCII text.
pub open spec fn is_visible_byte(b: u8) -> bool {
    b == 9 || (32 <= b && b < 127)
}

/// Whether the bytes of `s` form a header value.
pub open spec fn is_header_value(s: Seq<u8>) -> bool {
    forall|i: int| 0 <= i < s.len() ==> is_value_byte(#[trigger] s[i])
}

/// Whether a header value is ASCII text.
pub open spec fn is_visible(s: Seq<u8>) -> bool {
    forall|i: int| 0 <= i < s.len() ==> is_visible_byte(#[trigger] s[i])
}

/// The text of ASCII bytes.
pub open spec fn ascii_text(b: Seq<u8>) -> Seq<char> {
    b.map_values(|x: u8| x as char)
}

/// The text of a header value, if it is ASCII text.
pub open spec fn value_text(v: Seq<u8>) -> Option<Seq<char>> {
    if is_visible(v) {
        Some(ascii_text(v))
    } else {
        None
    }
}

/// The text of the first value of `name`, if there is one and it is ASCII text.
pub open spec fn text_of(h: Headers, name: Seq<char>) -> Option<Seq<char>> {
    if values_of(h, name).len() > 0 {
        value_text(values_of(h, name)[0])
    } else {
        None
    }
}

/// `HeaderMap::new` is empty.
#[verifier::external_body]
pub(crate) fn new_map() -> (m: HeaderMap)
    ensures
        header_values(m) == no_headers(),
{
    HeaderMap::new()
}

/// `HeaderMap::clone` keeps the contents.
#[verifier::external_body]
pub(crate) fn clone_map(m: &HeaderMap) -> (r: HeaderMap)
    ensures
        header_values(r) == header_values(*m),
{
    m.clone()
}

/// `HeaderMap::get` with a string key finds the first value of a header name,
/// whatever the case of its ASCII letters. What it finds for a text that is no
/// header name is left open.
#[verifier::external_body]
pub(crate) fn find<'a>(m: &'a HeaderMap, name: &str) -> (r: Option<&'a HeaderValue>)
    ensures
        is_header_name(name@) ==> (r is Some <==> values_of(
            header_values(*m),
            ascii_lower(name@),
        ).len() > 0),
        is_header_name(name@) && r is Some ==> value_bytes(*r->0) == values_of(
            header_values(*m),
            ascii_lower(name@),
        )[0],
{
    m.get(name)
}

/// `HeaderMap::iter` hands out every entry, each name's values in order. Names
/// come in an order that is left open; each is ASCII text in lower case.
#[verifier::external_body]
pub(crate) fn entries(m: &HeaderMap) -> (r: Vec<(HeaderName, HeaderValue)>)
    ensures
        header_values(*m) == append_all(no_headers(), entry_views(r@)),
        forall|i: int| 0 <= i < r@.len() ==> is_entry_name(#[trigger] entry_view(r@[i]).0),
{
    m.iter().map(|(n, v)| (n.clone(), v.clone())).collect()
}

/// `HeaderName::from_str` accepts header names and puts them in lower case.
#[verifier::external_body]
pub(crate) fn parse_name(s: &str) -> (r: Option<HeaderName>)
    ensures
        r is Some <==> is_header_name(s@),
        r matches Some(n) ==> name_text(n) == ascii_lower(s@),
{
    s.parse::<HeaderName>().ok()
}

/// `HeaderValue::from_str` accepts text whose bytes form a header value, and
/// keeps the bytes.
#[verifier::external_body]
pub(crate) fn parse_value(s: &str) -> (r: Option<HeaderValue>)
    ensures
        r is Some <==> is_header_value(encode_utf8(s@)),
        r matches Some(v) ==> value_bytes(v) == encode_utf8(s@),
{
    s.parse::<HeaderValue>().ok()
}

/// `HeaderName::as_str` gives the name's characters.
#[verifier::external_body]
pub(crate) fn name_str(n: &HeaderName) -> (s: &str)
    ensures
        s@ == name_text(*n),
{
    n.as_str()
}

/// `HeaderValue::to_str` gives the text of a value that is ASCII text.
#[verifier::external_body]
pub(crate) fn value_str(v: &HeaderValue) -> (r: Option<&str>)
    ensures
        r is Some <==> is_visible(value_bytes(*v)),
        r matches Some(s) ==> s@ == ascii_text(value_bytes(*v)),
{
    v.to_str().ok()
}

/// The text of the error of a full header map.
pub open spec fn full_map() -> Seq<char> {
    "max size reached"@
}

/// `HeaderMap::try_append` adds a value after those that the name has. It may
/// find the map full, and then leaves it as it was and says so; with few enough
/// distinct names it does not.
#[verifier::external_body]
pub(crate) fn try_append(m: &mut HeaderMap, name: HeaderName, value: HeaderValue) -> (r: Result<
    (),
    String,
>)
    ensures
        r is Ok ==> header_values(*final(m)) == appended(
            header_values(*old(m)),
            name_text(name),
            value_bytes(value),
        ),
        r is Err ==> header_values(*final(m)) == header_values(*old(m)),
        r matches Err(t) ==> t@ == full_map(),
        names_within(header_values(*old(m)), MAX_NAMES as nat) ==> r is Ok,
{
    m.try_append(name, value).map(|_| ()).map_err(|e| e.to_string())
}

/// `HeaderMap::try_insert` makes the value the only one of the name. It may find
/// the map full, and then leaves it as it was and says so; with few enough distinct
/// names it does not.
#[verifier::external_body]
pub(crate) fn try_insert(m: &mut HeaderMap, name: HeaderName, value: HeaderValue) -> (r: Result<
    (),
    String,
>)
    ensures
        r is Ok ==> header_values(*final(m)) == inserted(
            header_values(*old(m)),
            name_text(name),
            value_bytes(value),
        ),
        r is Err ==> header_values(*final(m)) == header_values(*old(m)),
        r matches Err(t) ==> t@ == full_map(),
        names_within(header_values(*old(m)), MAX_NAMES as nat) ==> r is Ok,
{
    m.try_insert(name, value).map(|_| ()).map_err(|e| e.to_string())
}

/// Makes the text `value` the only value of `name`, which is given in lower case,
/// unless the map is full.
pub(crate) fn insert_text(m: &mut HeaderMap, name: &str, value: &str) -> (ok: bool)
    requires
        is_field_name(name@),
        is_header_value(encode_utf8(value@)),
    ensures
        ok ==> header_values(*final(m)) == inserted(
            header_values(*old(m)),
            name@,
            encode_utf8(value@),
        ),
        !ok ==> header_values(*final(m)) == header_values(*old(m)),
        names_within(header_values(*old(m)), MAX_NAMES as nat) ==> ok,
{
    match parse_name(name) {
        Some(n) => match parse_value(value) {
            Some(v) => try_insert(m, n, v).is_ok(),
            None => false,
        },
        None => false,
    }
}

/// The text of the first value of `name`, a header name in lower case.
pub fn header_text(m: &HeaderMap, name: &str) -> (r: Option<String>)
    requires
        is_field_name(name@),
    ensures
        match text_of(header_values(*m), name@) {
            Some(t) => r is Some && r->0@ == t,
            None => r is None,
        },
{
    match find(m, name) {
        Some(v) => match value_str(v) {
            Some(s) => Some(s.to_owned()),
            None => None,
        },
        None => None,
    }
}

/// Appends every entry of `src` to `dst`, as long as there is room.
pub fn append_headers(dst: &mut HeaderMap, src: &HeaderMap) -> (r: Result<(), String>)
    ensures
        r is Ok ==> header_values(*final(dst)) == merged(
            header_values(*old(dst)),
            header_values(*src),
        ),
        r matches Err(t) ==> t@ == full_map(),
        names_within(
            merged(header_values(*old(dst)), header_values(*src)),
            MAX_NAMES as nat,
        ) ==> r is Ok,
{
    let list = entries(src);
    let ghost base = header_values(*dst);
    let ghost all = entry_views(list@);
    let ghost listed = list@;
    proof {
        assert(all.take(0) =~= seq![]);
        lemma_append_all_merged(base, all);
    }
    for entry in it: list
        invariant
            it.seq() == listed,
            all == entry_views(listed),
            base == header_values(*old(dst)),
            append_all(base, all) == merged(base, header_values(*src)),
            header_values(*dst) == append_all(base, all.take(it.index())),
    {
        proof {
            let i = it.index();
            assert(all[i] == entry_view(entry));
            assert(all.take(i + 1).drop_last() =~= all.take(i));
            if names_within(merged(base, header_values(*src)), MAX_NAMES as nat) {
                lemma_append_all_names(base, all, i);
                vstd::set_lib::lemma_len_subset(
                    append_all(base, all.take(i)).dom(),
                    append_all(base, all).dom(),
                );
            }
        }
        let (name, value) = entry;
        if let Err(t) = try_append(dst, name, value) {
            return Err(t);
        }
    }
    assert(all.take(all.len() as int) =~= all);
    Ok(())
}

/// The headers that gRPC sets have legal names, all different, and those of fixed
/// content have legal values.
pub proof fn lemma_grpc_headers()
    ensures
        is_field_name("content-type"@),
        is_field_name("te"@),
        is_field_name("grpc-timeout"@),
        is_field_name("grpc-status"@),
        is_field_name("grpc-message"@),
        "content-type"@ != "te"@,
        "content-type"@ != "grpc-timeout"@,
        "te"@ != "grpc-timeout"@,
        "grpc-status"@ != "grpc-message"@,
        is_header_value(encode_utf8("application/grpc"@)),
        is_header_value(encode_utf8("trailers"@)),
{
    reveal_strlit("content-type");
    reveal_strlit("te");
    reveal_strlit("grpc-timeout");
    reveal_strlit("grpc-status");
    reveal_strlit("grpc-message");
    reveal_strlit("application/grpc");
    reveal_strlit("trailers");
    assert(ascii_lower("content-type"@) =~= "content-type"@);
    assert(ascii_lower("te"@) =~= "te"@);
    assert(ascii_lower("grpc-timeout"@) =~= "grpc-timeout"@);
    assert(ascii_lower("grpc-status"@) =~= "grpc-status"@);
    assert(ascii_lower("grpc-message"@) =~= "grpc-message"@);
    assert("content-type"@[0] != "grpc-timeout"@[0]);
    assert("te"@.len() == 2);
    assert("grpc-status"@.len() != "grpc-message"@.len());
    is_ascii_chars_encode_utf8("application/grpc"@);
    is_ascii_chars_encode_utf8("trailers"@);
}

/// Appending entries one by one comes to the same as merging what they hold.
pub proof fn lemma_append_all_merged(h: Headers, entries: Seq<(Seq<char>, Seq<u8>)>)
    ensures
        append_all(h, entries) == merged(h, append_all(no_headers(), entries)),
    decreases entries.len(),
{
    if entries.len() == 0 {
        assert(merged(h, no_headers()) =~= h) by {
            assert forall|n: Seq<char>| h.dom().contains(n) implies merged(h, no_headers())[n]
                == h[n] by {
                assert(h[n] + Seq::<Seq<u8>>::empty() =~= h[n]);
            }
        }
    } else {
        let rest = entries.drop_last();
        let (name, value) = entries.last();
        lemma_append_all_merged(h, rest);
        let b = append_all(no_headers(), rest);
        assert(appended(merged(h, b), name, value) =~= merged(h, appended(b, name, value))) by {
            assert(values_of(h, name) + values_of(b, name).push(value) =~= (values_of(h, name)
                + values_of(b, name)).push(value));
            assert(Seq::<Seq<u8>>::empty() + Seq::<Seq<u8>>::empty() =~= Seq::<Seq<u8>>::empty());
        }
    }
}

/// Appending more entries loses no name.
proof fn lemma_append_all_names(h: Headers, entries: Seq<(Seq<char>, Seq<u8>)>, i: int)
    requires
        0 <= i <= entries.len(),
    ensures
        append_all(h, entries.take(i)).dom().subset_of(append_all(h, entries).dom()),
    decreases entries.len() - i,
{
    if i == entries.len() {
        assert(entries.take(i) =~= entries);
    } else {
        assert(entries.take(i + 1).drop_last() =~= entries.take(i));
        lemma_append_all_names(h, entries, i + 1);
    }
}

/// A map that `n` entries were appended to has at most `n` more names.
pub proof fn lemma_append_all_count(h: Headers, entries: Seq<(Seq<char>, Seq<u8>)>)
    requires
        h.dom().finite(),
    ensures
        append_all(h, entries).dom().finite(),
        append_all(h, entries).dom().len() <= h.dom().len() + entries.len(),
    decreases entries.len(),
{
    if entries.len() > 0 {
        lemma_append_all_count(h, entries.drop_last());
    }
}

/// A merged map has no more names than its two parts together.
pub proof fn lemma_merged_count(a: Headers, b: Headers)
    requires
        a.dom().finite(),
        b.dom().finite(),
    ensures
        merged(a, b).dom().finite(),
        merged(a, b).dom().len() <= a.dom().len() + b.dom().len(),
{
    assert(merged(a, b).dom() =~= a.dom().union(b.dom()));
    vstd::set_lib::lemma_len_union(a.dom(), b.dom());
}

/// The text of a header is that of its first value, if it has one and that is ASCII text:
/// printable characters and tabs.
pub proof fn law_header_texts(m: &HeaderMap, name: &str, r: Option<String>)
    requires
        call_ensures(header_text, (m, name), r),
    ensures
        ({
            let h = header_values(*m);
            let readable = h.dom().contains(name@) && h[name@].len() > 0 && forall|i: int|
                0 <= i < h[name@][0].len() ==> (#[trigger] h[name@][0][i] == 9 || 32
                    <= h[name@][0][i] <= 126);
            &&& r is Some <==> readable
            &&& r matches Some(t) ==> t@.len() == h[name@][0].len() && forall|i: int|
                0 <= i < t@.len() ==> #[trigger] t@[i] == h[name@][0][i] as char
        }),
{
    let h = header_values(*m);
    if h.dom().contains(name@) && h[name@].len() > 0 {
        let v = h[name@][0];
        if forall|i: int| 0 <= i < v.len() ==> (#[trigger] v[i] == 9 || 32 <= v[i] <= 126) {
            assert forall|i: int| 0 <= i < v.len() implies is_visible_byte(#[trigger] v[i]) by {}
        }
        if is_visible(v) {
            assert forall|i: int| 0 <= i < v.len() implies (#[trigger] v[i] == 9 || 32 <= v[i]
                <= 126) by {
                assert(is_visible_byte(v[i]));
            }
        }
    }
}

/// Headers that are appended to others follow them, name by name, and none is lost; with
/// few enough names there is always room.
pub proof fn law_headers_are_appended(src: &HeaderMap, r: Result<(), String>, name: Seq<char>)
    ensures
        forall|dst: &mut HeaderMap| #[trigger]
            call_ensures(append_headers, (dst, src), r) ==> {
                let a = header_values(*dst);
                let b = header_values(*src);
                &&& r is Ok ==> values_of(header_values(*final(dst)), name) == values_of(a, name)
                    + values_of(b, name)
                &&& names_within(a, 1000) && names_within(b, 5000) ==> r is Ok
            },
{
    assert forall|dst: &mut HeaderMap| #[trigger] call_ensures(append_headers, (dst, src), r)
        && names_within(header_values(*dst), 1000) && names_within(
        header_values(*src),
        5000,
    ) implies r is Ok by {
        lemma_merged_count(header_values(*dst), header_values(*src));
    }
    assert forall|dst: &mut HeaderMap| #[trigger] call_ensures(append_headers, (dst, src), r)
        && r is Ok implies values_of(header_values(*final(dst)), name) == values_of(
        header_values(*dst),
        name,
    ) + values_of(header_values(*src), name) by {
        let a = header_values(*dst);
        let b = header_values(*src);
        assert(values_of(merged(a, b), name) =~= values_of(a, name) + values_of(b, name));
    }
}

} // verus!
