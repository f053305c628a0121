use wstd::error::Error;
use wstd::http::fields::{is_valid_value, lowercase, same_bytes};
use wstd::http::Fields;

#[test]
fn new_fields_are_empty() {
    let fields = Fields::new();
    assert_eq!(fields.len(), 0);
    assert!(fields.is_empty());
    assert!(!fields.contains("accept"));
    assert_eq!(fields.get("accept"), Vec::<Vec<u8>>::new());
}

#[test]
fn names_are_compared_without_case() {
    let mut fields = Fields::new();
    fields.append("Content-Type", b"text/plain");
    assert!(fields.contains("content-type"));
    assert!(fields.contains("CONTENT-TYPE"));
    assert!(fields.contains("Content-Type"));
    assert!(!fields.contains("content_type"));
    assert_eq!(fields.get("cOnTeNt-TyPe"), vec![b"text/plain".to_vec()]);
}

#[test]
fn a_name_may_have_several_values_in_order() {
    let mut fields = Fields::new();
    fields.append("Set-Cookie", b"a=1");
    fields.append("Accept", b"*/*");
    fields.append("set-cookie", b"b=2");
    fields.append("SET-COOKIE", b"c=3");
    assert_eq!(fields.len(), 4);
    assert_eq!(
        fields.get("set-cookie"),
        vec![b"a=1".to_vec(), b"b=2".to_vec(), b"c=3".to_vec()]
    );
    assert_eq!(fields.get("accept"), vec![b"*/*".to_vec()]);
}

#[test]
fn insert_replaces_every_value_of_the_name() {
    let mut fields = Fields::new();
    fields.append("x", b"1");
    fields.append("y", b"2");
    fields.append("X", b"3");
    fields.insert("x", b"4");
    assert_eq!(fields.len(), 2);
    assert_eq!(fields.get("x"), vec![b"4".to_vec()]);
    assert_eq!(fields.get("y"), vec![b"2".to_vec()]);
}

#[test]
fn insert_of_a_new_name_adds_it() {
    let mut fields = Fields::new();
    fields.insert("my-header", b"my-value");
    assert_eq!(fields.len(), 1);
    assert_eq!(fields.get("My-Header"), vec![b"my-value".to_vec()]);
}

#[test]
fn remove_counts_and_keeps_the_others() {
    let mut fields = Fields::new();
    fields.append("a", b"1");
    fields.append("b", b"2");
    fields.append("A", b"3");
    fields.append("c", b"4");
    assert_eq!(fields.remove("a"), 2);
    assert_eq!(fields.len(), 2);
    assert!(!fields.contains("a"));
    assert_eq!(fields.get("b"), vec![b"2".to_vec()]);
    assert_eq!(fields.get("c"), vec![b"4".to_vec()]);
    assert_eq!(fields.remove("a"), 0);
    assert_eq!(fields.len(), 2);
}

#[test]
fn require_gives_the_first_value() {
    let mut fields = Fields::new();
    fields.append("Content-Type", b"application/json; charset=utf-8");
    fields.append("content-type", b"text/html");
    assert_eq!(
        fields.require("Content-Type"),
        Ok(b"application/json; charset=utf-8".to_vec())
    );
}

#[test]
fn require_of_a_missing_header_is_a_protocol_error() {
    let mut fields = Fields::new();
    fields.append("content-length", b"3");
    assert_eq!(fields.require("Content-Type"), Err(Error::MissingHeader));
    assert_eq!(Fields::new().require("x"), Err(Error::MissingHeader));
}

#[test]
fn lowercase_changes_ascii_letters_only() {
    assert_eq!(lowercase(b"Content-TYPE_9@[`{"), b"content-type_9@[`{".to_vec());
    assert_eq!(lowercase(b"AZaz"), b"azaz".to_vec());
    assert_eq!(lowercase(&[0x40, 0x41, 0x5a, 0x5b, 0xc1]), vec![0x40, 0x61, 0x7a, 0x5b, 0xc1]);
    assert_eq!(lowercase(b""), Vec::<u8>::new());
}

#[test]
fn same_bytes_compares_contents() {
    assert!(same_bytes(b"abc", b"abc"));
    assert!(same_bytes(b"", b""));
    assert!(!same_bytes(b"abc", b"abd"));
    assert!(!same_bytes(b"abc", b"ab"));
    assert!(!same_bytes(b"ab", b"abc"));
}

#[test]
fn field_values_must_be_visible_bytes_or_tabs() {
    assert!(is_valid_value(b"text/plain; q=0.5"));
    assert!(is_valid_value(b"a\tb"));
    assert!(is_valid_value(&[0x20, 0x7e, 0x80, 0xff]));
    assert!(is_valid_value(b""));
    assert!(!is_valid_value(b"a\nb"));
    assert!(!is_valid_value(b"a\rb"));
    assert!(!is_valid_value(&[0x00]));
    assert!(!is_valid_value(&[0x1f]));
    assert!(!is_valid_value(&[0x7f]));
}

#[test]
fn fields_are_valid_when_every_value_is() {
    let mut fields = Fields::new();
    assert!(fields.is_valid());
    fields.append("a", b"fine");
    fields.append("b", b"also fine");
    assert!(fields.is_valid());
    fields.append("c", b"bad\nvalue");
    fields.append("d", b"fine again");
    assert!(!fields.is_valid());
    fields.remove("c");
    assert!(fields.is_valid());
}

#[test]
fn entries_keep_the_order_of_insertion() {
    let mut fields = Fields::new();
    fields.append("B", b"1");
    fields.append("a", b"2");
    fields.append("b", b"3");
    assert_eq!(
        fields.entries(),
        vec![
            (b"b".to_vec(), b"1".to_vec()),
            (b"a".to_vec(), b"2".to_vec()),
            (b"b".to_vec(), b"3".to_vec()),
        ]
    );
    fields.insert("B", b"4");
    assert_eq!(
        fields.entries(),
        vec![(b"a".to_vec(), b"2".to_vec()), (b"b".to_vec(), b"4".to_vec())]
    );
    assert_eq!(Fields::new().entries(), vec![]);
}
