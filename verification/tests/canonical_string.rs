use webhook_verifier::{
    construct_canonical_string, construct_header_segment, decode_text, parse_signed_headers,
    selected_headers, HeaderSet, RawHeader,
};

fn raw(name: &str, value: &[u8]) -> RawHeader {
    RawHeader { name: name.to_string(), value: value.to_vec() }
}

fn names(list: &[&str]) -> Vec<String> {
    list.iter().map(|s| s.to_string()).collect()
}

#[test]
fn canonical_string_without_signed_headers() {
    let headers = HeaderSet::new();
    let s = construct_canonical_string("POST", "/", &headers, &[], b"hello");
    assert_eq!(s, "POST\n/\n\nhello");
}

#[test]
fn signed_headers_keep_listed_order() {
    let headers = HeaderSet::from_raw(&vec![raw("foo", b"1"), raw("bar", b"2")]);
    let list = parse_signed_headers("foo,bar");
    assert_eq!(construct_header_segment(&headers, &list), "foo:1;bar:2");
    let s = construct_canonical_string("POST", "/", &headers, &list, b"hello");
    assert_eq!(s, "POST\n/\nfoo:1;bar:2\nhello");
}

#[test]
fn signed_headers_are_not_sorted() {
    let headers = HeaderSet::from_raw(&vec![raw("foo", b"1"), raw("bar", b"2")]);
    let segment = construct_header_segment(&headers, &names(&["foo", "bar"]));
    assert_eq!(segment, "foo:1;bar:2");
    let segment = construct_header_segment(&headers, &names(&["bar", "foo"]));
    assert_eq!(segment, "bar:2;foo:1");
}

#[test]
fn absent_signed_header_has_empty_value() {
    let headers = HeaderSet::from_raw(&vec![raw("foo", b"1")]);
    let segment = construct_header_segment(&headers, &names(&["foo", "nope", "foo"]));
    assert_eq!(segment, "foo:1;nope:;foo:1");
}

#[test]
fn signed_header_names_are_lower_cased_in_the_segment() {
    let headers = HeaderSet::from_raw(&vec![raw("Content-Type", b"text/plain")]);
    let segment = construct_header_segment(&headers, &names(&["CONTENT-TYPE"]));
    assert_eq!(segment, "content-type:text/plain");
}

#[test]
fn raw_header_case_does_not_change_the_canonical_string() {
    let list = names(&["x-topic", "x-id"]);
    let lower = HeaderSet::from_raw(&vec![raw("x-topic", b"a"), raw("x-id", b"7")]);
    let upper = HeaderSet::from_raw(&vec![raw("X-TOPIC", b"a"), raw("X-Id", b"7")]);
    let a = construct_canonical_string("POST", "/", &lower, &list, b"body");
    let b = construct_canonical_string("POST", "/", &upper, &list, b"body");
    assert_eq!(a, b);
    assert_eq!(a, "POST\n/\nx-topic:a;x-id:7\nbody");
}

#[test]
fn single_empty_name_gives_a_lone_colon() {
    let headers = HeaderSet::new();
    let list = parse_signed_headers("");
    assert_eq!(list, vec![String::new()]);
    let s = construct_canonical_string("POST", "/", &headers, &list, b"");
    assert_eq!(s, "POST\n/\n:\n");
}

#[test]
fn body_that_is_not_utf8_reads_as_empty() {
    let headers = HeaderSet::new();
    let s = construct_canonical_string("POST", "/", &headers, &[], &[0x68, 0xff, 0x69]);
    assert_eq!(s, "POST\n/\n\n");
    assert_eq!(decode_text(&[0xc3]), "");
}

#[test]
fn body_in_utf8_is_kept_verbatim() {
    let headers = HeaderSet::new();
    let body = "h\u{e9}llo\n\nworld".as_bytes();
    let s = construct_canonical_string("POST", "/", &headers, &[], body);
    assert_eq!(s, "POST\n/\n\nh\u{e9}llo\n\nworld");
    assert_eq!(decode_text(body), "h\u{e9}llo\n\nworld");
}

#[test]
fn method_and_path_are_taken_as_given() {
    let headers = HeaderSet::from_raw(&vec![raw("a", b"b")]);
    let s = construct_canonical_string("PUT", "/hook/1", &headers, &names(&["a"]), b"x");
    assert_eq!(s, "PUT\n/hook/1\na:b\nx");
}

#[test]
fn parse_splits_on_commas_and_trims() {
    assert_eq!(parse_signed_headers("foo,bar"), names(&["foo", "bar"]));
    assert_eq!(parse_signed_headers(" foo ,\tbar  "), names(&["foo", "bar"]));
    assert_eq!(parse_signed_headers("a,,b,"), names(&["a", "", "b", ""]));
    assert_eq!(parse_signed_headers(","), names(&["", ""]));
    assert_eq!(parse_signed_headers("   "), names(&[""]));
    assert_eq!(parse_signed_headers("x-a b , c"), names(&["x-a b", "c"]));
}

#[test]
fn parse_trims_unicode_whitespace_only_at_the_ends() {
    assert_eq!(
        parse_signed_headers("\u{a0}f\u{2003}o\u{3000},\u{2028}b"),
        names(&["f\u{2003}o", "b"])
    );
    assert_eq!(parse_signed_headers("\u{e9}t\u{e9} , \u{fc}"), names(&["\u{e9}t\u{e9}", "\u{fc}"]));
}

#[test]
fn selector_header_gives_the_signed_names() {
    let headers =
        HeaderSet::from_raw(&vec![raw("X-Contentful-Signed-Headers", b" Foo , bar,baz ")]);
    assert_eq!(selected_headers(&headers), names(&["Foo", "bar", "baz"]));
}

#[test]
fn absent_selector_header_gives_no_names() {
    let headers = HeaderSet::from_raw(&vec![raw("foo", b"1")]);
    assert_eq!(selected_headers(&headers), Vec::<String>::new());
    let s = construct_canonical_string("POST", "/", &headers, &selected_headers(&headers), b"b");
    assert_eq!(s, "POST\n/\n\nb");
}
