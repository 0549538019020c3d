use grpc_rs::headers::MAX_NAMES;
use grpc_rs::metadata::{is_user_metadata_key, Metadata};
use grpc_rs::status::{Code, Status};
use http::header::HeaderValue;
use http::HeaderMap;

#[test]
fn insert_and_get_ascii() {
    let mut md = Metadata::new();
    md.insert("x-request-id", "abc123");
    assert_eq!(md.get("x-request-id"), Some("abc123"));
}

#[test]
fn key_is_lowercased() {
    let mut md = Metadata::new();
    md.insert("X-Custom-Header", "value");
    assert_eq!(md.get("x-custom-header"), Some("value"));
    assert_eq!(md.get("X-Custom-Header"), Some("value"));
}

#[test]
fn insert_replaces_existing() {
    let mut md = Metadata::new();
    md.insert("key", "first");
    md.insert("key", "second");
    assert_eq!(md.get("key"), Some("second"));
    assert_eq!(md.get_all("key").len(), 1);
}

#[test]
fn append_allows_multiple_values() {
    let mut md = Metadata::new();
    md.append("x-tag", "a");
    md.append("x-tag", "b");
    assert_eq!(md.get_all("x-tag"), vec!["a", "b"]);
}

#[test]
fn binary_metadata_round_trip() {
    let mut md = Metadata::new();
    let bytes = b"\x00\x01\x02\x03";
    md.insert_bin("x-data-bin", bytes).unwrap();
    assert_eq!(md.get_bin("x-data-bin").unwrap(), bytes);
}

#[test]
fn binary_key_without_bin_suffix_returns_error() {
    let mut md = Metadata::new();
    let result = md.insert_bin("x-data", b"oops");
    assert!(result.is_err());
}

#[test]
fn from_pairs_constructor() {
    let md = Metadata::from_pairs(&[("x-a", "1"), ("x-b", "2")]);
    assert_eq!(md.get("x-a"), Some("1"));
    assert_eq!(md.get("x-b"), Some("2"));
}

#[test]
fn to_header_map_round_trip() {
    let mut md = Metadata::new();
    md.insert("x-foo", "bar");
    md.insert("x-baz", "qux");
    let hm = md.to_header_map();
    assert_eq!(hm.get("x-foo").unwrap(), "bar");
    assert_eq!(hm.get("x-baz").unwrap(), "qux");
}

#[test]
fn from_request_headers_filters_transport_headers() {
    let mut hm = HeaderMap::new();
    hm.insert("content-type", "application/grpc".parse().unwrap());
    hm.insert("te", "trailers".parse().unwrap());
    hm.insert("grpc-encoding", "gzip".parse().unwrap());
    hm.insert("user-agent", "grpc-rs/0.1".parse().unwrap());
    hm.insert("x-custom", "my-value".parse().unwrap());

    let md = Metadata::from_request_headers(&hm);
    assert!(md.get("content-type").is_none());
    assert!(md.get("te").is_none());
    assert!(md.get("grpc-encoding").is_none());
    assert!(md.get("user-agent").is_none());
    assert_eq!(md.get("x-custom"), Some("my-value"));
}

#[test]
fn from_trailer_headers_filters_grpc_status() {
    let mut hm = HeaderMap::new();
    hm.insert("grpc-status", "0".parse().unwrap());
    hm.insert("grpc-message", "ok".parse().unwrap());
    hm.insert("x-server-id", "node-1".parse().unwrap());

    let md = Metadata::from_trailer_headers(&hm);
    assert!(md.get("grpc-status").is_none());
    assert!(md.get("grpc-message").is_none());
    assert_eq!(md.get("x-server-id"), Some("node-1"));
}

#[test]
fn insert_keeps_other_keys_and_moves_to_the_end() {
    let mut md = Metadata::from_pairs(&[("A", "1"), ("b", "2"), ("a", "3")]);
    md.insert("a", "4");
    assert_eq!(md.iter(), vec![("b", "2"), ("a", "4")]);
    assert_eq!(md.get_all("c"), Vec::<&str>::new());
    assert!(!md.is_empty());
    assert!(Metadata::new().is_empty());
    assert!(Metadata::default().is_empty());
}

#[test]
fn keys_beyond_ascii_are_lowercased_too() {
    let mut md = Metadata::new();
    md.insert("\u{c9}T\u{c9}", "v");
    assert_eq!(md.iter(), vec![("\u{e9}t\u{e9}", "v")]);
    assert_eq!(md.get("\u{c9}t\u{e9}"), Some("v"));
}

#[test]
fn base64_text_is_canonical() {
    let digits = "ABCDEFGHIJKLMNOPQRSTUVWXYZabcdefghijklmnopqrstuvwxyz0123456789+/";
    let all = Metadata::from_pairs(&[("x-bin", digits)]).get_bin("x-bin").unwrap();
    assert_eq!(all.len(), 48);
    assert_eq!(&all[..3], &[0x00, 0x10, 0x83]);
    assert_eq!(&all[45..], &[0xf3, 0xdf, 0xbf]);
    let mut md = Metadata::new();
    md.insert_bin("x-bin", &all).unwrap();
    assert_eq!(md.get("x-bin"), Some(digits));
    for (bytes, text) in [
        (&b""[..], ""),
        (b"a", "YQ=="),
        (b"ab", "YWI="),
        (b"abc", "YWJj"),
        (b"abcd", "YWJjZA=="),
    ] {
        md.insert_bin("x-bin", bytes).unwrap();
        assert_eq!(md.get("x-bin"), Some(text));
        assert_eq!(md.get_bin("x-bin").unwrap(), bytes);
    }
    let malformed =
        ["YQ", "YQ=", "YQ===", "YR==", "YWJ=", "YQ==YQ==", "Y", "=", "====", "YW\n=", "-_--"];
    for text in malformed {
        assert_eq!(Metadata::from_pairs(&[("x-bin", text)]).get_bin("x-bin"), None, "{text}");
    }
}

#[test]
fn binary_values_are_kept_as_padded_base64() {
    let mut md = Metadata::new();
    md.append("x-bin", "old");
    md.insert_bin("X-Bin", b"hello world~").unwrap();
    assert_eq!(md.iter(), vec![("x-bin", "aGVsbG8gd29ybGR+")]);
    md.insert_bin("x-bin", b"a").unwrap();
    assert_eq!(md.get("x-bin"), Some("YQ=="));
    assert_eq!(md.to_header_map().get("x-bin").unwrap(), "YQ==");
    assert_eq!(Metadata::from_request_headers(&md.to_header_map()).get_bin("x-bin").unwrap(), b"a");
}

#[test]
fn malformed_binary_values_are_absent() {
    let md = Metadata::from_pairs(&[("x-bin", "not base64!")]);
    assert_eq!(md.get_bin("x-bin"), None);
    assert_eq!(md.get_bin("y-bin"), None);
}

#[test]
fn refused_binary_key_changes_nothing() {
    let mut md = Metadata::from_pairs(&[("x-data", "1")]);
    let e = md.insert_bin("x-data", b"oops").unwrap_err();
    assert_eq!(
        e,
        Status::new(Code::InvalidArgument, "binary metadata key must end with \"-bin\"")
    );
    assert_eq!(md.iter(), vec![("x-data", "1")]);
}

#[test]
fn pairs_that_are_no_header_are_not_sent() {
    let md = Metadata::from_pairs(&[
        ("bad key", "v"),
        ("", "v"),
        ("x-ok", "fine"),
        ("x-newline", "a\nb"),
        ("x-utf8", "\u{e9}"),
    ]);
    let hm = md.to_header_map();
    assert_eq!(hm.len(), 2);
    assert_eq!(hm.get("x-ok").unwrap(), "fine");
    assert_eq!(hm.get("x-utf8").unwrap().as_bytes(), &[0xc3, 0xa9]);
}

#[test]
fn values_that_are_not_ascii_are_not_read() {
    let mut hm = HeaderMap::new();
    hm.append("x-a", HeaderValue::from_bytes(&[0xc3, 0xa9]).unwrap());
    hm.append("x-a", HeaderValue::from_static("plain"));
    let md = Metadata::from_request_headers(&hm);
    assert_eq!(md.get_all("x-a"), vec!["plain"]);
}

#[test]
fn metadata_survives_the_way_through_headers() {
    let md = Metadata::from_pairs(&[("x-a", "1"), ("x-b", "two words"), ("x-a", "3\t4")]);
    let back = Metadata::from_request_headers(&md.to_header_map());
    assert_eq!(back.get_all("x-a"), vec!["1", "3\t4"]);
    assert_eq!(back.get_all("x-b"), vec!["two words"]);
    assert_eq!(back.iter().len(), 3);
}

#[test]
fn transport_keys_are_not_user_keys() {
    for key in [
        ":path", "grpc-timeout", "grpc-", "content-type", "host", "te", "user-agent", "connection",
        "transfer-encoding", "upgrade",
    ] {
        assert!(!is_user_metadata_key(key), "{key}");
    }
    for key in ["x-a", "grpc", "hosts", "content-types", ""] {
        assert!(is_user_metadata_key(key), "{key}");
    }
}

#[test]
fn too_many_names_do_not_fit() {
    let mut md = Metadata::new();
    for i in 0..MAX_NAMES {
        md.append(&format!("x-{i}"), "v");
    }
    assert_eq!(md.try_to_header_map().unwrap().keys_len(), MAX_NAMES);
    for i in 0..30_000 {
        md.append(&format!("y-{i}"), "v");
    }
    assert!(md.try_to_header_map().is_none());
}

#[test]
fn cloned_metadata_is_the_same() {
    let md = Metadata::from_pairs(&[("a", "1"), ("b", "2")]);
    assert_eq!(md.clone().iter(), md.iter());
}

#[test]
fn names_that_only_http2_admits_are_read() {
    let mut hm = HeaderMap::new();
    let name = http::HeaderName::from_lowercase(b"x\"y").unwrap();
    hm.append(name, HeaderValue::from_static("v"));
    let md = Metadata::from_request_headers(&hm);
    assert_eq!(md.iter(), [("x\"y", "v")]);
    assert!(md.to_header_map().is_empty());
}

#[test]
fn keys_are_in_lower_case_however_they_got_there() {
    let mut hm = HeaderMap::new();
    hm.append("X-Header", HeaderValue::from_static("0"));
    let mut md = Metadata::from_request_headers(&hm);
    md.insert("X-One", "1");
    md.append("x-TWO", "2");
    md.insert_bin("X-Three-Bin", b"3").unwrap();
    md.append("\u{212a}ELVIN", "4");
    let keys: Vec<&str> = md.iter().iter().map(|(k, _)| *k).collect();
    assert_eq!(keys, ["x-header", "x-one", "x-two", "x-three-bin", "kelvin"]);
    for key in keys {
        assert_eq!(key, key.to_lowercase());
    }
}

#[test]
fn metadata_is_empty_until_something_is_added() {
    let mut md = Metadata::new();
    assert!(md.is_empty());
    assert!(md.iter().is_empty());
    assert!(md.insert_bin("x-data", b"refused").is_err());
    assert!(md.is_empty());
    md.insert_bin("x-data-bin", b"").unwrap();
    assert!(!md.is_empty());
    let mut md = Metadata::new();
    md.insert("a", "");
    assert!(!md.is_empty());
    let mut md = Metadata::new();
    md.append("a", "");
    assert!(!md.is_empty());
}

#[test]
fn binary_values_are_found_by_keys_of_any_case() {
    let mut md = Metadata::new();
    for bytes in [b"".as_slice(), b"\xff\xfe\x00", b"text"] {
        md.insert_bin("X-Data-BIN", bytes).unwrap();
        for key in ["x-data-bin", "X-DATA-BIN", "x-Data-Bin"] {
            assert_eq!(md.get_bin(key).unwrap(), bytes);
        }
    }
    assert_eq!(md.iter().len(), 1);
}
