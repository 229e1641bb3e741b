use webhook_verifier::headers::header_value_text;
use webhook_verifier::text::{str_eq, trim_range};
use webhook_verifier::{HeaderSet, RawHeader};

fn raw(name: &str, value: &[u8]) -> RawHeader {
    RawHeader { name: name.to_string(), value: value.to_vec() }
}

#[test]
fn lookup_ignores_letter_case() {
    let headers = HeaderSet::from_raw(&vec![raw("X-Contentful-Topic", b"publish")]);
    assert_eq!(headers.get("x-contentful-topic"), Some("publish"));
    assert_eq!(headers.get("X-CONTENTFUL-TOPIC"), Some("publish"));
    assert_eq!(headers.get_normalized("x-contentful-topic"), Some("publish"));
    assert_eq!(headers.get_normalized("X-Contentful-Topic"), None);
    assert_eq!(headers.get("other"), None);
}

#[test]
fn names_are_stored_lower_cased() {
    let headers = HeaderSet::from_raw(&vec![raw("FOO", b"1")]);
    assert_eq!(headers.get_normalized("foo"), Some("1"));
    assert_eq!(headers.get_normalized("FOO"), None);
}

#[test]
fn last_duplicate_wins() {
    let headers =
        HeaderSet::from_raw(&vec![raw("foo", b"1"), raw("bar", b"x"), raw("FOO", b"2")]);
    assert_eq!(headers.get("foo"), Some("2"));
    assert_eq!(headers.get("bar"), Some("x"));
    assert_eq!(headers.value_of("Foo"), "2");
}

#[test]
fn empty_set_holds_nothing() {
    let headers = HeaderSet::new();
    assert_eq!(headers.get("a"), None);
    assert_eq!(headers.get_normalized(""), None);
    assert_eq!(headers.value_of("a"), "");
    let headers = HeaderSet::from_raw(&vec![]);
    assert_eq!(headers.get("a"), None);
}

#[test]
fn value_of_absent_name_is_empty() {
    let headers = HeaderSet::from_raw(&vec![raw("foo", b"1")]);
    assert_eq!(headers.value_of("bar"), "");
    assert_eq!(headers.value_of("foo"), "1");
}

#[test]
fn value_that_is_not_text_reads_as_empty() {
    let headers = HeaderSet::from_raw(&vec![raw("foo", &[0x61, 0xe9, 0x62]), raw("bar", b"ok")]);
    assert_eq!(headers.get("foo"), Some(""));
    assert_eq!(headers.get("bar"), Some("ok"));
}

#[test]
fn header_text_takes_printable_ascii_and_tabs() {
    assert_eq!(header_value_text(b"a b\tc~"), "a b\tc~");
    assert_eq!(header_value_text(b""), "");
    assert_eq!(header_value_text(&[0x7f]), "");
    assert_eq!(header_value_text(&[0x61, 0x0a]), "");
    assert_eq!(header_value_text("h\u{e9}".as_bytes()), "");
    assert_eq!(header_value_text(&[0x1f]), "");
    assert_eq!(header_value_text(&[0x20, 0x7e]), " ~");
}

#[test]
fn str_eq_compares_characters() {
    assert!(str_eq("", ""));
    assert!(str_eq("abc", "abc"));
    assert!(!str_eq("abc", "abd"));
    assert!(!str_eq("abc", "ab"));
    assert!(!str_eq("abc", "ABC"));
}

#[test]
fn trim_range_counts_characters() {
    assert_eq!(trim_range("\u{e9} ab \u{e9}", 1, 5), "ab");
    assert_eq!(trim_range("  ", 0, 2), "");
    assert_eq!(trim_range("abc", 1, 1), "");
    assert_eq!(trim_range(" a b ", 0, 5), "a b");
}
