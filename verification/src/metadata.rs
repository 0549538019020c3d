//! Request and response metadata: a multi-map from lower-case keys to values.
//!
//! - All keys are in lower case.
//! - Keys that end in `-bin` carry binary values. `insert_bin` keeps bytes as
//!   padded base64, which is how they are sent; `get_bin` gives the bytes back.
//! - Metadata read from headers holds user-defined entries alone: transport
//!   headers and all `grpc-` headers are left out.

use crate::binary::{
    base64_bytes, base64_text, decode_base64, encode_base64, is_base64_char, law_base64_round_trip,
    lemma_base64_chars,
};
use crate::headers::{
    append_all, appended, ascii_text, entries, entry_view, entry_views, header_values,
    is_entry_name, is_field_name, is_header_name, is_header_value, is_value_byte, is_visible_byte,
    lemma_append_all_count, name_str, names_within, new_map, no_headers, parse_name, parse_value,
    try_append, value_bytes, value_str, value_text, values_of, Headers, MAX_NAMES,
};
use crate::status::{status, Code, Status};
use crate::text::{
    ascii_lower, ends_with, has_no_capital, has_prefix, has_suffix, lower, lower_char, lowercase,
    same_text, starts_with,
};
use http::HeaderMap;
use vstd::prelude::*;
use vstd::string::*;
use vstd::utf8::*;

verus! {

/// gRPC metadata: (key, value) pairs in insertion order.
#[derive(Debug)]
pub struct Metadata {
    entries: Vec<(String, String)>,
}

/// A pair by view.
pub open spec fn pair_view(e: (String, String)) -> (Seq<char>, Seq<char>) {
    (e.0@, e.1@)
}

/// What metadata holds: its pairs, in order.
pub type Pairs = Seq<(Seq<char>, Seq<char>)>;

impl View for Metadata {
    type V = Pairs;

    closed spec fn view(&self) -> Pairs {
        pair_views(self.entries@)
    }
}

/// Several pairs by view.
pub open spec fn pair_views(entries: Seq<(String, String)>) -> Pairs {
    entries.map_values(|e: (String, String)| pair_view(e))
}

/// The values of `key`, in order.
pub open spec fn values(md: Pairs, key: Seq<char>) -> Seq<Seq<char>>
    decreases md.len(),
{
    if md.len() == 0 {
        seq![]
    } else {
        let rest = values(md.drop_last(), key);
        if md.last().0 == key {
            rest.push(md.last().1)
        } else {
            rest
        }
    }
}

/// The first value of `key`, if there is one.
pub open spec fn first_value(md: Pairs, key: Seq<char>) -> Option<Seq<char>> {
    if values(md, key).len() > 0 {
        Some(values(md, key)[0])
    } else {
        None
    }
}

/// The bytes that the first value of `key` stands for.
pub open spec fn binary_value(md: Pairs, key: Seq<char>) -> Option<Seq<u8>> {
    match first_value(md, key) {
        Some(text) => base64_bytes(text),
        None => None,
    }
}

/// The pairs whose key is not `key`, in order.
pub open spec fn without(md: Pairs, key: Seq<char>) -> Pairs
    decreases md.len(),
{
    if md.len() == 0 {
        seq![]
    } else {
        let rest = without(md.drop_last(), key);
        if md.last().0 == key {
            rest
        } else {
            rest.push(md.last())
        }
    }
}

/// Whether every key is in lower case.
pub open spec fn keys_lower(md: Pairs) -> bool {
    forall|i: int| 0 <= i < md.len() ==> is_lower(#[trigger] md[i].0)
}

/// Whether `key` is in lower case: it is the lower case of some text, and holds no
/// capital ASCII letter.
pub open spec fn is_lower(key: Seq<char>) -> bool {
    has_no_capital(key) && exists|k: Seq<char>| key == #[trigger] lower(k)
}

/// `md` with `value` as the only value of `key`, at the end.
pub open spec fn with_only(md: Pairs, key: Seq<char>, value: Seq<char>) -> Pairs {
    without(md, lower(key)).push((lower(key), value))
}

/// `md` with one more value for `key`, at the end.
pub open spec fn with_added(md: Pairs, key: Seq<char>, value: Seq<char>) -> Pairs {
    md.push((lower(key), value))
}

/// `md` with the bytes `value`, as base64, as the only value of `key`, at the end.
pub open spec fn with_binary(md: Pairs, key: Seq<char>, value: Seq<u8>) -> Pairs {
    with_only(md, key, base64_text(value))
}

/// Whether `key` is user-defined metadata rather than a transport header.
pub open spec fn is_user_key(key: Seq<char>) -> bool {
    &&& !has_prefix(key, ":"@)
    &&& !has_prefix(key, "grpc-"@)
    &&& key != "content-type"@
    &&& key != "host"@
    &&& key != "te"@
    &&& key != "user-agent"@
    &&& key != "connection"@
    &&& key != "transfer-encoding"@
    &&& key != "upgrade"@
}

/// The texts of those values that are ASCII text, in order.
pub open spec fn visible_texts(vs: Seq<Seq<u8>>) -> Seq<Seq<char>>
    decreases vs.len(),
{
    if vs.len() == 0 {
        seq![]
    } else {
        let rest = visible_texts(vs.drop_last());
        match value_text(vs.last()) {
            Some(t) => rest.push(t),
            None => rest,
        }
    }
}

/// The values of `key` that metadata read from the headers `h` has.
pub open spec fn user_values(h: Headers, key: Seq<char>) -> Seq<Seq<char>> {
    if is_user_key(key) {
        visible_texts(values_of(h, key))
    } else {
        seq![]
    }
}

/// Whether a pair can be sent as a header.
pub open spec fn is_sendable(e: (Seq<char>, Seq<char>)) -> bool {
    is_header_name(e.0) && is_header_value(encode_utf8(e.1))
}

/// The headers that metadata is sent as, in order: pairs that are no legal header
/// are left out.
pub open spec fn sendable(md: Pairs) -> Seq<(Seq<char>, Seq<u8>)>
    decreases md.len(),
{
    if md.len() == 0 {
        seq![]
    } else {
        let rest = sendable(md.drop_last());
        if is_sendable(md.last()) {
            rest.push((ascii_lower(md.last().0), encode_utf8(md.last().1)))
        } else {
            rest
        }
    }
}

/// The header map that metadata is sent as.
pub open spec fn sent_headers(md: Pairs) -> Headers {
    append_all(no_headers(), sendable(md))
}

/// Whether `key` is user-defined metadata rather than a transport header.
pub fn is_user_metadata_key(key: &str) -> (r: bool)
    ensures
        r == is_user_key(key@),
{
    !starts_with(key, ":") && !starts_with(key, "grpc-") && !same_text(key, "content-type")
        && !same_text(key, "host") && !same_text(key, "te") && !same_text(key, "user-agent")
        && !same_text(key, "connection") && !same_text(key, "transfer-encoding") && !same_text(
        key,
        "upgrade",
    )
}

impl Metadata {
    #[verifier::type_invariant]
    spec fn keys_are_lower(&self) -> bool {
        keys_lower(pair_views(self.entries@))
    }

    /// Empty metadata.
    pub fn new() -> (md: Self)
        ensures
            md@ == Seq::<(Seq<char>, Seq<char>)>::empty(),
            keys_lower(md@),
    {
        let md = Metadata { entries: Vec::new() };
        assert(md@ =~= Seq::<(Seq<char>, Seq<char>)>::empty());
        md
    }

    /// Metadata with the given pairs, in order. Keys are put in lower case.
    pub fn from_pairs(pairs: &[(&str, &str)]) -> (md: Self)
        ensures
            md@.len() == pairs@.len(),
            forall|i: int|
                0 <= i < pairs@.len() ==> #[trigger] md@[i] == (lower(pairs@[i].0@), pairs@[i].1@),
            keys_lower(md@),
    {
        let mut md = Metadata::new();
        for i in 0..pairs.len()
            invariant
                md@.len() == i,
                forall|k: int|
                    0 <= k < i ==> #[trigger] md@[k] == (lower(pairs@[k].0@), pairs@[k].1@),
                keys_lower(md@),
        {
            md.append(pairs[i].0, pairs[i].1);
        }
        md
    }

    /// Makes `value` the only value of `key`.
    pub fn insert(&mut self, key: &str, value: &str)
        ensures
            final(self)@ == with_only(old(self)@, key@, value@),
            keys_lower(final(self)@),
    {
        let ghost given = key@;
        let key = lowercase(key);
        assert(key@ == lower(given));
        self.remove(key.as_str());
        self.push(key, value.to_owned());
    }

    /// Adds a value for `key`, after those that it has.
    pub fn append(&mut self, key: &str, value: &str)
        ensures
            final(self)@ == with_added(old(self)@, key@, value@),
            keys_lower(final(self)@),
    {
        let ghost given = key@;
        let key = lowercase(key);
        assert(key@ == lower(given));
        self.push(key, value.to_owned());
    }

    /// Makes the bytes `value` the only value of `key`, which must end in
    /// `-bin`. They are kept as base64.
    pub fn insert_bin(&mut self, key: &str, value: &[u8]) -> (r: Result<(), Status>)
        requires
            4 * ((value@.len() + 2) / 3) <= isize::MAX,
        ensures
            r is Ok <==> has_suffix(lower(key@), "-bin"@),
            r is Ok ==> final(self)@ == with_binary(old(self)@, key@, value@),
            r matches Err(e) ==> final(self)@ == old(self)@ && e@ == status(
                Code::InvalidArgument,
                "binary metadata key must end with \"-bin\""@,
            ),
            keys_lower(final(self)@),
    {
        proof {
            use_type_invariant(&*self);
        }
        let ghost given = key@;
        let key = lowercase(key);
        assert(key@ == lower(given));
        if !ends_with(key.as_str(), "-bin") {
            return Err(Status::invalid_argument("binary metadata key must end with \"-bin\""));
        }
        let text = encode_base64(value);
        self.remove(key.as_str());
        self.push(key, text);
        Ok(())
    }

    /// The first value of `key`, if there is one.
    pub fn get(&self, key: &str) -> (r: Option<&str>)
        ensures
            match first_value(self@, lower(key@)) {
                Some(t) => r is Some && r->0@ == t,
                None => r is None,
            },
    {
        let all = self.get_all(key);
        if all.len() > 0 {
            assert(values(self@, lower(key@))[0] == all@[0]@);
            Some(all[0])
        } else {
            None
        }
    }

    /// All values of `key`, in order.
    pub fn get_all(&self, key: &str) -> (r: Vec<&str>)
        ensures
            r@.len() == values(self@, lower(key@)).len(),
            forall|i: int| 0 <= i < r@.len() ==> #[trigger] r@[i]@ == values(self@, lower(key@))[i],
    {
        let key = lowercase(key);
        let mut r: Vec<&str> = Vec::new();
        assert(self@.take(0) =~= seq![]);
        for i in 0..self.entries.len()
            invariant
                r@.len() == values(self@.take(i as int), key@).len(),
                forall|k: int|
                    0 <= k < r@.len() ==> #[trigger] r@[k]@ == values(
                        self@.take(i as int),
                        key@,
                    )[k],
        {
            let e = &self.entries[i];
            proof {
                assert(self@[i as int] == pair_view(*e));
                assert(self@.take(i + 1).drop_last() =~= self@.take(i as int));
            }
            if e.0 == key {
                r.push(e.1.as_str());
            }
        }
        assert(self@.take(self@.len() as int) =~= self@);
        r
    }

    /// The bytes of `key`, if it is present and its value is well-formed base64.
    pub fn get_bin(&self, key: &str) -> (r: Option<Vec<u8>>)
        ensures
            match binary_value(self@, lower(key@)) {
                Some(b) => r is Some && r->0@ == b,
                None => r is None,
            },
    {
        match self.get(key) {
            Some(text) => decode_base64(text),
            None => None,
        }
    }

    /// All pairs, in order.
    pub fn iter(&self) -> (r: Vec<(&str, &str)>)
        ensures
            r@.len() == self@.len(),
            forall|i: int|
                0 <= i < r@.len() ==> (#[trigger] r@[i].0@, r@[i].1@) == self@[i],
            keys_lower(self@),
    {
        proof {
            use_type_invariant(self);
        }
        let mut r: Vec<(&str, &str)> = Vec::new();
        for i in 0..self.entries.len()
            invariant
                r@.len() == i,
                forall|k: int| 0 <= k < i ==> (#[trigger] r@[k].0@, r@[k].1@) == self@[k],
        {
            let e = &self.entries[i];
            assert(self@[i as int] == pair_view(*e));
            r.push((e.0.as_str(), e.1.as_str()));
        }
        r
    }

    /// Whether there is no pair at all.
    pub fn is_empty(&self) -> (b: bool)
        ensures
            b == (self@.len() == 0),
    {
        self.entries.len() == 0
    }

    /// The user-defined metadata among the headers of a request.
    ///
    /// Transport headers and `grpc-` headers are left out, and so are values
    /// that are not ASCII text. Binary values stay base64.
    pub fn from_request_headers(headers: &HeaderMap) -> (md: Self)
        ensures
            forall|k: Seq<char>| #[trigger]
                values(md@, k) == user_values(header_values(*headers), k),
            keys_lower(md@),
    {
        let mut md = Metadata::new();
        let list = entries(headers);
        let ghost all = entry_views(list@);
        proof {
            assert(all.take(0) =~= seq![]);
            assert forall|k: Seq<char>| #[trigger] values(md@, k) == user_values(
                no_headers(),
                k,
            ) by {}
        }
        for i in 0..list.len()
            invariant
                all == entry_views(list@),
                forall|j: int|
                    0 <= j < list@.len() ==> is_entry_name(#[trigger] entry_view(list@[j]).0),
                forall|k: Seq<char>| #[trigger]
                    values(md@, k) == user_values(append_all(no_headers(), all.take(i as int)), k),
                keys_lower(md@),
        {
            let key = name_str(&list[i].0);
            let ghost before = append_all(no_headers(), all.take(i as int));
            let ghost held = md@;
            proof {
                assert(all[i as int] == entry_view(list@[i as int]));
                assert(all.take(i + 1).drop_last() =~= all.take(i as int));
                assert(is_entry_name(entry_view(list@[i as int]).0));
                lemma_entry_name_is_lower(key@);
            }
            if is_user_metadata_key(key) {
                if let Some(text) = value_str(&list[i].1) {
                    md.push(key.to_owned(), text.to_owned());
                    assert(md@.drop_last() =~= held);
                }
            }
            proof {
                let after = append_all(no_headers(), all.take(i + 1));
                let value = value_bytes(list@[i as int].1);
                assert(after == appended(before, key@, value));
                assert(values_of(before, key@).push(value).drop_last() =~= values_of(
                    before,
                    key@,
                ));
                assert forall|k: Seq<char>| #[trigger] values(md@, k) == user_values(after, k) by {
                    assert(values(held, k) == user_values(before, k));
                }
            }
        }
        assert(all.take(all.len() as int) =~= all);
        md
    }

    /// The user-defined metadata among trailing headers. What becomes the status
    /// of the RPC is left out with the other `grpc-` headers.
    pub fn from_trailer_headers(headers: &HeaderMap) -> (md: Self)
        ensures
            forall|k: Seq<char>| #[trigger]
                values(md@, k) == user_values(header_values(*headers), k),
            keys_lower(md@),
    {
        Metadata::from_request_headers(headers)
    }

    /// The headers that this metadata is sent as, unless there are too many for
    /// a header map. Pairs that are no legal header are left out.
    pub fn try_to_header_map(&self) -> (r: Option<HeaderMap>)
        ensures
            r matches Some(m) ==> header_values(m) == sent_headers(self@),
            names_within(sent_headers(self@), MAX_NAMES as nat) ==> r is Some,
    {
        let mut map = new_map();
        assert(self@.take(0) =~= seq![]);
        for i in 0..self.entries.len()
            invariant
                header_values(map) == sent_headers(self@.take(i as int)),
        {
            let e = &self.entries[i];
            proof {
                assert(self@[i as int] == pair_view(*e));
                assert(self@.take(i + 1).drop_last() =~= self@.take(i as int));
                if names_within(sent_headers(self@), MAX_NAMES as nat) {
                    lemma_sent_names(self@, i as int);
                    vstd::set_lib::lemma_len_subset(
                        sent_headers(self@.take(i as int)).dom(),
                        sent_headers(self@).dom(),
                    );
                }
                let rest = sendable(self@.take(i as int));
                assert(rest.push((ascii_lower(e.0@), encode_utf8(e.1@))).drop_last() =~= rest);
            }
            if let Some(name) = parse_name(e.0.as_str()) {
                if let Some(value) = parse_value(e.1.as_str()) {
                    if try_append(&mut map, name, value).is_err() {
                        return None;
                    }
                }
            }
        }
        assert(self@.take(self@.len() as int) =~= self@);
        Some(map)
    }

    /// The headers that this metadata is sent as. Pairs that are no legal header
    /// are left out.
    pub fn to_header_map(&self) -> (m: HeaderMap)
        requires
            names_within(sent_headers(self@), MAX_NAMES as nat),
        ensures
            header_values(m) == sent_headers(self@),
    {
        match self.try_to_header_map() {
            Some(m) => m,
            None => new_map(),
        }
    }

    /// Appends a pair.
    fn push(&mut self, key: String, value: String)
        requires
            is_lower(key@),
        ensures
            final(self)@ == old(self)@.push((key@, value@)),
            keys_lower(final(self)@),
    {
        proof {
            use_type_invariant(&*self);
        }
        let mut list: Vec<(String, String)> = Vec::new();
        std::mem::swap(&mut list, &mut self.entries);
        list.push((key, value));
        assert(pair_views(list@) =~= old(self)@.push((key@, value@)));
        self.entries = list;
    }

    /// Removes every pair of `key`.
    fn remove(&mut self, key: &str)
        ensures
            final(self)@ == without(old(self)@, key@),
            keys_lower(final(self)@),
    {
        proof {
            use_type_invariant(&*self);
        }
        let mut list: Vec<(String, String)> = Vec::new();
        std::mem::swap(&mut list, &mut self.entries);
        let ghost listed = list@;
        let ghost pairs = old(self)@;
        let key = key.to_owned();
        let mut kept: Vec<(String, String)> = Vec::new();
        assert(pair_views(kept@) =~= seq![]);
        assert(pairs.take(0) =~= seq![]);
        for e in it: list
            invariant
                it.seq() == listed,
                pairs == pair_views(listed),
                pair_views(kept@) == without(pairs.take(it.index()), key@),
        {
            proof {
                let i = it.index();
                assert(pairs[i] == pair_view(e));
                assert(pairs.take(i + 1).drop_last() =~= pairs.take(i));
            }
            if !(e.0 == key) {
                let ghost before = pair_views(kept@);
                kept.push(e);
                assert(pair_views(kept@) =~= before.push(pair_view(e)));
            }
        }
        proof {
            assert(pairs.take(pairs.len() as int) =~= pairs);
            lemma_without_has_none(pairs, key@);
        }
        self.entries = kept;
    }
}

impl Clone for Metadata {
    fn clone(&self) -> (r: Self)
        ensures
            r@ == self@,
    {
        proof {
            use_type_invariant(self);
        }
        let mut r = Metadata::new();
        for i in 0..self.entries.len()
            invariant
                keys_lower(self@),
                r@ == self@.take(i as int),
        {
            let e = &self.entries[i];
            proof {
                assert(self@[i as int] == pair_view(*e));
                assert(is_lower(self@[i as int].0));
            }
            r.push(e.0.clone(), e.1.clone());
            proof {
                assert(self@.take(i + 1) =~= self@.take(i as int).push(self@[i as int]));
            }
        }
        assert(self@.take(self@.len() as int) =~= self@);
        r
    }
}

impl Default for Metadata {
    fn default() -> (md: Self)
        ensures
            md@ == Seq::<(Seq<char>, Seq<char>)>::empty(),
    {
        Metadata::new()
    }
}

/// The name of an entry is in lower case.
proof fn lemma_entry_name_is_lower(name: Seq<char>)
    requires
        is_entry_name(name),
    ensures
        is_lower(name),
{
    assert(name == lower(name));
    assert forall|i: int| 0 <= i < name.len() implies !('A' <= #[trigger] name[i] && name[i]
        <= 'Z') by {
        assert(ascii_lower(name)[i] == lower_char(name[i]));
    }
}

/// Every key of metadata, however it was built, is in lower case: no key holds a
/// capital ASCII letter, and a key of ASCII characters is its own lower case.
pub proof fn law_keys_are_lower_case(md: Pairs, i: int)
    requires
        keys_lower(md),
        0 <= i < md.len(),
    ensures
        has_no_capital(md[i].0),
        is_ascii_chars(md[i].0) ==> lower(md[i].0) == md[i].0,
{
    let key = md[i].0;
    assert(is_lower(key));
    assert(ascii_lower(key) =~= key);
}

/// Metadata is empty at first, and is not once a pair was put into it.
pub proof fn law_empty_until_added(
    md: Pairs,
    key: Seq<char>,
    value: Seq<char>,
    bytes: Seq<u8>,
)
    ensures
        Seq::<(Seq<char>, Seq<char>)>::empty().len() == 0,
        with_only(md, key, value).len() > 0,
        with_added(md, key, value).len() == md.len() + 1,
        with_binary(md, key, bytes).len() > 0,
{
}

/// Bytes that were put under a key are read back, whatever bytes they are, by every
/// key with the same lower case; all other keys keep their values.
pub proof fn law_binary_round_trip(
    md: Pairs,
    key: Seq<char>,
    value: Seq<u8>,
    asked: Seq<char>,
)
    ensures
        lower(asked) == lower(key) ==> binary_value(
            with_binary(md, key, value),
            lower(asked),
        ) == Some(value),
        lower(asked) != lower(key) ==> binary_value(
            with_binary(md, key, value),
            lower(asked),
        ) == binary_value(md, lower(asked)),
{
    law_base64_round_trip(value);
    law_insert_replaces(md, key, base64_text(value));
}

/// Metadata of few enough pairs fits into a header map, whatever the pairs are.
pub proof fn law_few_pairs_fit(md: Pairs)
    requires
        md.len() <= MAX_NAMES,
    ensures
        names_within(sent_headers(md), MAX_NAMES as nat),
{
    lemma_sendable_count(md);
    lemma_append_all_count(no_headers(), sendable(md));
}

/// No more headers are sent than there are pairs.
proof fn lemma_sendable_count(md: Pairs)
    ensures
        sendable(md).len() <= md.len(),
    decreases md.len(),
{
    if md.len() > 0 {
        lemma_sendable_count(md.drop_last());
    }
}

/// Sending more pairs loses no name.
proof fn lemma_sent_names(md: Pairs, i: int)
    requires
        0 <= i <= md.len(),
    ensures
        sent_headers(md.take(i)).dom().subset_of(sent_headers(md).dom()),
    decreases md.len() - i,
{
    if i == md.len() {
        assert(md.take(i) =~= md);
    } else {
        assert(md.take(i + 1).drop_last() =~= md.take(i));
        let rest = sendable(md.take(i));
        if is_sendable(md[i]) {
            assert(sendable(md.take(i + 1)).drop_last() =~= rest);
        }
        lemma_sent_names(md, i + 1);
    }
}

/// After `insert`, the key has the inserted value and no other; every other key
/// keeps its values.
pub proof fn law_insert_replaces(md: Pairs, key: Seq<char>, value: Seq<char>)
    ensures
        ({
            let after = with_only(md, key, value);
            &&& values(after, lower(key)) == seq![value]
            &&& first_value(after, lower(key)) == Some(value)
            &&& forall|k: Seq<char>|
                k != lower(key) ==> #[trigger] values(after, k) == values(md, k)
        }),
{
    lemma_without_has_none(md, lower(key));
    let kept = without(md, lower(key));
    let after = kept.push((lower(key), value));
    assert(after.drop_last() =~= kept);
    assert(values(after, lower(key)) =~= seq![value]);
    assert forall|k: Seq<char>| k != lower(key) implies #[trigger] values(after, k) == values(
        md,
        k,
    ) by {
        assert(values(kept, k) == values(md, k));
    }
}

/// After `append`, the key has one more value, at the end; every other key keeps
/// its values.
pub proof fn law_append_adds(md: Pairs, key: Seq<char>, value: Seq<char>)
    ensures
        ({
            let after = with_added(md, key, value);
            &&& values(after, lower(key)) == values(md, lower(key)).push(value)
            &&& forall|k: Seq<char>|
                k != lower(key) ==> #[trigger] values(after, k) == values(md, k)
        }),
{
    let after = md.push((lower(key), value));
    assert(after.drop_last() =~= md);
}

/// ASCII keys that differ in case alone are the same key.
pub proof fn law_keys_ignore_case(a: Seq<char>, b: Seq<char>)
    requires
        is_ascii_chars(a),
        is_ascii_chars(b),
        ascii_lower(a) == ascii_lower(b),
    ensures
        lower(a) == lower(b),
{
}

/// The names that belong to the transport: those of pseudo-headers, which begin with a
/// colon, those that gRPC keeps for itself, and seven headers of HTTP.
pub open spec fn is_transport_name(name: Seq<char>) -> bool {
    ||| name.len() > 0 && name[0] == ':'
    ||| exists|rest: Seq<char>| name == #[trigger] ("grpc-"@ + rest)
    ||| seq![
        "content-type"@,
        "host"@,
        "te"@,
        "user-agent"@,
        "connection"@,
        "transfer-encoding"@,
        "upgrade"@,
    ].contains(name)
}

/// Every name but those of the transport is a key of user-defined metadata.
pub proof fn lemma_user_keys(name: Seq<char>)
    ensures
        is_user_key(name) <==> !is_transport_name(name),
{
    let listed = seq![
        "content-type"@,
        "host"@,
        "te"@,
        "user-agent"@,
        "connection"@,
        "transfer-encoding"@,
        "upgrade"@,
    ];
    reveal_strlit(":");
    if has_prefix(name, "grpc-"@) {
        assert(name =~= "grpc-"@ + name.skip("grpc-"@.len() as int));
    }
    assert forall|rest: Seq<char>| name == #[trigger] ("grpc-"@ + rest) implies has_prefix(
        name,
        "grpc-"@,
    ) by {
        assert(name.take("grpc-"@.len() as int) =~= "grpc-"@);
    }
    assert(":"@.len() == 1 && ":"@[0] == ':');
    if name.len() > 0 {
        let first = name.take(1);
        assert(first[0] == name[0]);
        if name[0] == ':' {
            assert(first =~= ":"@);
        }
    }
    assert(listed[0] == "content-type"@ && listed[1] == "host"@ && listed[2] == "te"@ && listed[3]
        == "user-agent"@ && listed[4] == "connection"@ && listed[5] == "transfer-encoding"@
        && listed[6] == "upgrade"@);
}

/// A key is left out for being one of the transport's names, and for nothing else.
pub proof fn law_only_transport_names_are_left_out(key: &str, r: bool)
    requires
        call_ensures(is_user_metadata_key, (key,), r),
    ensures
        r <==> !is_transport_name(key@),
{
    lemma_user_keys(key@);
}

/// Metadata read from headers never holds a transport header or a `grpc-`
/// header.
pub proof fn law_transport_headers_stay_hidden(h: Headers, md: Pairs, key: Seq<char>)
    requires
        forall|k: Seq<char>| #[trigger] values(md, k) == user_values(h, k),
        is_transport_name(key),
    ensures
        values(md, key) == Seq::<Seq<char>>::empty(),
{
    lemma_user_keys(key);
}

/// Whether the bytes of a header value are ASCII text: printable characters and tabs.
pub open spec fn is_text_value(v: Seq<u8>) -> bool {
    forall|i: int| 0 <= i < v.len() ==> (#[trigger] v[i] == 9 || 32 <= v[i] <= 126)
}

/// The texts of those among the header values that are ASCII text, in order.
pub open spec fn text_values(vs: Seq<Seq<u8>>) -> Seq<Seq<char>> {
    vs.filter_map(
        |v: Seq<u8>|
            if is_text_value(v) {
                Some(Seq::new(v.len(), |i: int| v[i] as char))
            } else {
                None
            },
    )
}

/// The values of one key among pairs, in order.
pub open spec fn values_under(md: Pairs, key: Seq<char>) -> Seq<Seq<char>> {
    md.filter_map(
        |e: (Seq<char>, Seq<char>)|
            if e.0 == key {
                Some(e.1)
            } else {
                None
            },
    )
}

/// The values of a key are what stands beside it, in order.
pub proof fn lemma_values_under(md: Pairs, key: Seq<char>)
    ensures
        values(md, key) == values_under(md, key),
    decreases md.len(),
{
    if md.len() > 0 {
        lemma_values_under(md.drop_last(), key);
    }
    assert(values(md, key) =~= values_under(md, key));
}

/// The visible texts of values are their ASCII texts, in order.
pub proof fn lemma_text_values(vs: Seq<Seq<u8>>)
    ensures
        visible_texts(vs) == text_values(vs),
    decreases vs.len(),
{
    if vs.len() > 0 {
        let v = vs.last();
        lemma_text_values(vs.drop_last());
        if is_text_value(v) {
            assert forall|i: int| 0 <= i < v.len() implies is_visible_byte(#[trigger] v[i]) by {}
            assert(ascii_text(v) =~= Seq::new(v.len(), |i: int| v[i] as char));
        }
        if value_text(v) is Some {
            assert forall|i: int| 0 <= i < v.len() implies (#[trigger] v[i] == 9 || 32 <= v[i]
                <= 126) by {
                assert(is_visible_byte(v[i]));
            }
        }
    }
    assert(visible_texts(vs) =~= text_values(vs));
}

/// Every header whose name is not one of the transport's is kept, with all of its values
/// that are ASCII text, in order: `get_all` gives them back. Of a transport header nothing
/// is kept.
pub proof fn law_headers_become_metadata(
    headers: &HeaderMap,
    md: Metadata,
    key: &str,
    r: Vec<&str>,
)
    requires
        call_ensures(Metadata::from_request_headers, (headers,), md) || call_ensures(
            Metadata::from_trailer_headers,
            (headers,),
            md,
        ),
        call_ensures(Metadata::get_all, (&md, key), r),
        is_ascii_chars(key@),
        has_no_capital(key@),
    ensures
        ({
            let h = header_values(*headers);
            let kept = if !is_transport_name(key@) && h.dom().contains(key@) {
                text_values(h[key@])
            } else {
                seq![]
            };
            r@.len() == kept.len() && forall|i: int|
                0 <= i < r@.len() ==> #[trigger] r@[i]@ == kept[i]
        }),
{
    assert(ascii_lower(key@) =~= key@);
    lemma_user_keys(key@);
    lemma_text_values(values_of(header_values(*headers), key@));
    assert(values(md@, key@) == user_values(header_values(*headers), key@));
    if !is_transport_name(key@) && !header_values(*headers).dom().contains(key@) {
        assert(text_values(seq![]) =~= seq![]);
    }
}

/// Looking a key up gives everything that stands under its lower case, in order; asking
/// for one value gives the first of them.
pub proof fn law_lookups_find_what_is_there(
    md: &Metadata,
    key: &str,
    all: Vec<&str>,
    one: Option<&str>,
)
    requires
        call_ensures(Metadata::get_all, (md, key), all),
        call_ensures(Metadata::get, (md, key), one),
    ensures
        all@.len() == values_under(md@, lower(key@)).len(),
        forall|i: int|
            0 <= i < all@.len() ==> #[trigger] all@[i]@ == values_under(md@, lower(key@))[i],
        one is Some <==> all@.len() > 0,
        one matches Some(v) ==> v@ == all@[0]@,
{
    lemma_values_under(md@, lower(key@));
    if all@.len() > 0 {
        assert(all@[0]@ == values(md@, lower(key@))[0]);
    }
}

/// The bytes of a key are those whose base64 text is its first value; without such bytes
/// there are none.
pub proof fn law_binary_lookups_decode_the_first_value(
    md: &Metadata,
    key: &str,
    one: Option<&str>,
    r: Option<Vec<u8>>,
)
    requires
        call_ensures(Metadata::get, (md, key), one),
        call_ensures(Metadata::get_bin, (md, key), r),
    ensures
        one is None ==> r is None,
        r matches Some(b) ==> (one matches Some(text) && text@ == base64_text(b@)),
        one matches Some(text) ==> forall|b: Seq<u8>| #[trigger]
            base64_text(b) == text@ ==> (r matches Some(v) && v@ == b),
{
    if let Some(text) = one {
        assert forall|b: Seq<u8>| #[trigger] base64_text(b) == text@ implies (r matches Some(v)
            && v@ == b) by {
            law_base64_round_trip(b);
        }
        if let Some(b) = r {
            assert(base64_bytes(text@) == Some(b@));
        }
    }
}

/// Inserting a value takes out everything that stands under the key, keeps all else in
/// order, and puts the value last. Appending puts a value last and changes nothing else.
/// Bytes are inserted as base64, under keys that end in `-bin` alone; under any other key
/// nothing changes and `InvalidArgument` is reported.
pub proof fn law_insert_and_append(key: &str, value: &str, bytes: &[u8], r: Result<(), Status>)
    ensures
        forall|md: &mut Metadata| #[trigger]
            call_ensures(Metadata::insert, (md, key, value), ()) ==> (*final(md))@ == (*md)@.filter(
                |e: (Seq<char>, Seq<char>)| e.0 != lower(key@),
            ).push((lower(key@), value@)),
        forall|md: &mut Metadata| #[trigger]
            call_ensures(Metadata::append, (md, key, value), ()) ==> (*final(md))@ == (*md)@.push(
                (lower(key@), value@),
            ),
        forall|md: &mut Metadata| #[trigger]
            call_ensures(Metadata::insert_bin, (md, key, bytes), r) ==> if exists|front: Seq<char>|
                lower(key@) == #[trigger] (front + "-bin"@) {
                r is Ok && (*final(md))@ == (*md)@.filter(
                    |e: (Seq<char>, Seq<char>)| e.0 != lower(key@),
                ).push((lower(key@), base64_text(bytes@)))
            } else {
                &&& r matches Err(e) && e.code == Code::InvalidArgument
                &&& (*final(md))@ == (*md)@
            },
{
    let low = lower(key@);
    let suffix = "-bin"@;
    let keeps = |e: (Seq<char>, Seq<char>)| e.0 != lower(key@);
    if has_suffix(low, suffix) {
        assert(low =~= low.take(low.len() - suffix.len()) + suffix);
    }
    assert forall|front: Seq<char>| low == #[trigger] (front + suffix) implies has_suffix(
        low,
        suffix,
    ) by {
        assert(low.skip(front.len() as int) =~= suffix);
    }
    assert forall|md: Pairs| #[trigger] without(md, low) == md.filter(keeps) by {
        lemma_without_filters(md, low, keeps);
    }
}

/// Taking out the pairs of a key is keeping those of all other keys.
proof fn lemma_without_filters(
    md: Pairs,
    key: Seq<char>,
    keeps: spec_fn((Seq<char>, Seq<char>)) -> bool,
)
    requires
        forall|e: (Seq<char>, Seq<char>)| #[trigger] keeps(e) <==> e.0 != key,
    ensures
        without(md, key) == md.filter(keeps),
    decreases md.len(),
{
    reveal(Seq::filter);
    if md.len() > 0 {
        lemma_without_filters(md.drop_last(), key, keeps);
        assert(keeps(md.last()) <==> md.last().0 != key);
    }
    assert(without(md, key) =~= md.filter(keeps));
}

/// Metadata made of pairs holds all of them, in order, the keys in lower case; it lists
/// them as they are, is empty if there are none, and a copy holds the same.
pub proof fn law_pairs_are_kept(
    pairs: &[(&str, &str)],
    md: Metadata,
    listed: Vec<(&str, &str)>,
    empty: bool,
    copy: Metadata,
)
    requires
        call_ensures(Metadata::from_pairs, (pairs,), md),
        call_ensures(Metadata::iter, (&md,), listed),
        call_ensures(Metadata::is_empty, (&md,), empty),
        call_ensures(<Metadata as Clone>::clone, (&md,), copy),
    ensures
        listed@.len() == pairs@.len(),
        forall|i: int|
            0 <= i < pairs@.len() ==> (#[trigger] listed@[i]).0@ == lower(pairs@[i].0@)
                && listed@[i].1@ == pairs@[i].1@,
        empty <==> pairs@.len() == 0,
        copy@ == md@,
{
    assert forall|i: int| 0 <= i < pairs@.len() implies (#[trigger] listed@[i]).0@ == lower(
        pairs@[i].0@,
    ) && listed@[i].1@ == pairs@[i].1@ by {
        assert((listed@[i].0@, listed@[i].1@) == md@[i]);
        assert(md@[i] == (lower(pairs@[i].0@), pairs@[i].1@));
    }
}

/// The values that pairs are sent as under a header name, in order.
pub open spec fn header_values_under(md: Pairs, name: Seq<char>) -> Seq<Seq<u8>> {
    md.filter_map(
        |e: (Seq<char>, Seq<char>)|
            if is_header_name(e.0) && is_header_value(encode_utf8(e.1)) && ascii_lower(e.0)
                == name {
                Some(encode_utf8(e.1))
            } else {
                None
            },
    )
}

/// Every pair that is a legal header is sent, and nothing else: under each name stand the
/// bytes of the values of that name, in order.
pub proof fn law_metadata_becomes_headers(md: &Metadata, m: HeaderMap, name: Seq<char>)
    requires
        call_ensures(Metadata::try_to_header_map, (md,), Some(m)) || call_ensures(
            Metadata::to_header_map,
            (md,),
            m,
        ),
    ensures
        values_of(header_values(m), name) == header_values_under(md@, name),
        header_values(m).dom().contains(name) ==> header_values(m)[name] == header_values_under(
            md@,
            name,
        ),
{
    lemma_sent_values(md@, name);
}

/// What is sent under a name are the values of the legal pairs of that name.
pub proof fn lemma_sent_values(md: Pairs, name: Seq<char>)
    ensures
        values_of(sent_headers(md), name) == header_values_under(md, name),
    decreases md.len(),
{
    if md.len() > 0 {
        let rest = md.drop_last();
        lemma_sent_values(rest, name);
        if is_sendable(md.last()) {
            assert(sendable(md).drop_last() =~= sendable(rest));
        }
    }
    assert(values_of(sent_headers(md), name) =~= header_values_under(md, name));
}

/// Whether a pair survives the way through headers unchanged: its key is a
/// user-defined header name in lower case, and its value is ASCII text without
/// control characters but the tab.
pub open spec fn survives(e: (Seq<char>, Seq<char>)) -> bool {
    &&& is_field_name(e.0)
    &&& !is_transport_name(e.0)
    &&& forall|i: int| 0 <= i < e.1.len() ==> is_visible_char(#[trigger] e.1[i])
}

/// Whether `c` may stand in a header value that is ASCII text.
pub open spec fn is_visible_char(c: char) -> bool {
    c == '\t' || (' ' <= c && c <= '~')
}

/// Metadata that is sent as headers and read from them on the other side is the
/// same metadata, key by key.
pub proof fn law_header_round_trip(md: Pairs, key: Seq<char>)
    requires
        forall|i: int| 0 <= i < md.len() ==> survives(#[trigger] md[i]),
    ensures
        user_values(sent_headers(md), key) == values(md, key),
    decreases md.len(),
{
    if md.len() > 0 {
        let rest = md.drop_last();
        let (k, v) = md.last();
        assert(survives(md[md.len() - 1]));
        assert forall|i: int| 0 <= i < rest.len() implies survives(#[trigger] rest[i]) by {
            assert(rest[i] == md[i]);
        }
        law_header_round_trip(rest, key);
        lemma_user_keys(k);
        lemma_visible_text(v);
        let before = sent_headers(rest);
        assert(sendable(md).drop_last() =~= sendable(rest));
        assert(sent_headers(md) == appended(before, k, encode_utf8(v)));
        assert(values_of(before, k).push(encode_utf8(v)).drop_last() =~= values_of(before, k));
    }
}

/// ASCII text without control characters but the tab is a header value, and is
/// read back from its bytes.
pub proof fn lemma_visible_text(v: Seq<char>)
    requires
        forall|i: int| 0 <= i < v.len() ==> is_visible_char(#[trigger] v[i]),
    ensures
        is_header_value(encode_utf8(v)),
        value_text(encode_utf8(v)) == Some(v),
{
    assert(is_ascii_chars(v)) by {
        assert forall|i: int| 0 <= i < v.len() implies '\0' <= #[trigger] v[i] <= '\u{7f}' by {
            assert(is_visible_char(v[i]));
        }
    }
    is_ascii_chars_encode_utf8(v);
    let b = encode_utf8(v);
    assert forall|i: int| 0 <= i < b.len() implies is_visible_byte(#[trigger] b[i])
        && is_value_byte(b[i]) && b[i] as char == v[i] by {
        assert(is_visible_char(v[i]));
        assert(v[i] as u8 == b[i]);
    }
    assert(ascii_text(b) =~= v);
}

/// Binary metadata survives the way through headers: bytes under a user-defined key
/// are sent and read back as they are.
pub proof fn law_binary_pairs_survive(key: Seq<char>, value: Seq<u8>)
    requires
        is_field_name(key),
        !is_transport_name(key),
    ensures
        survives((key, base64_text(value))),
{
    let text = base64_text(value);
    assert forall|i: int| 0 <= i < text.len() implies is_visible_char(#[trigger] text[i]) by {
        lemma_base64_chars(value, i);
        assert(is_base64_char(text[i]));
    }
}

/// Once a key's pairs are removed, none is left, and other keys keep theirs.
pub proof fn lemma_without_has_none(md: Pairs, key: Seq<char>)
    ensures
        values(without(md, key), key) == Seq::<Seq<char>>::empty(),
        forall|k: Seq<char>|
            k != key ==> #[trigger] values(without(md, key), k) == values(md, k),
        keys_lower(md) ==> keys_lower(without(md, key)),
    decreases md.len(),
{
    if md.len() > 0 {
        lemma_without_has_none(md.drop_last(), key);
        let rest = without(md.drop_last(), key);
        assert(rest.push(md.last()).drop_last() =~= rest);
        assert forall|k: Seq<char>| k != key implies #[trigger] values(without(md, key), k)
            == values(md, k) by {
            assert(values(rest, k) == values(md.drop_last(), k));
        }
        if keys_lower(md) {
            assert forall|i: int| 0 <= i < md.len() - 1 implies is_lower(
                #[trigger] md.drop_last()[i].0,
            ) by {
                assert(is_lower(md[i].0));
            }
            assert(is_lower(md[md.len() - 1].0));
        }
    }
}

} // verus!
