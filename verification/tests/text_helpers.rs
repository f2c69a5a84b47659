//! Number formats, parsing and trimming used by the readers.

use mobsf_engine::attrs::attr_get;
use mobsf_engine::text::{
    chars_of, parse_bool_str, parse_u32_str, push_decimal, push_hex_padded, str_is, string_of,
    trim_range,
};

fn hex(n: u32, w: usize) -> String {
    let mut s = String::new();
    push_hex_padded(&mut s, n, w);
    s
}

fn dec(n: u32) -> String {
    let mut s = String::from("v=");
    push_decimal(&mut s, n);
    s
}

#[test]
fn hexadecimal_with_padding() {
    assert_eq!(hex(0x0101_0abc, 8), "01010abc");
    assert_eq!(hex(0xffff_ffff, 8), "ffffffff");
    assert_eq!(hex(0, 2), "00");
    assert_eq!(hex(7, 2), "07");
    assert_eq!(hex(0x1f, 0), "1f");
    assert_eq!(hex(0x1234, 2), "1234");
}

#[test]
fn decimal_numbers() {
    assert_eq!(dec(0), "v=0");
    assert_eq!(dec(42), "v=42");
    assert_eq!(dec(4_294_967_295), "v=4294967295");
}

#[test]
fn unsigned_parsing() {
    assert_eq!(parse_u32_str("12"), Some(12));
    assert_eq!(parse_u32_str("+12"), Some(12));
    assert_eq!(parse_u32_str("007"), Some(7));
    assert_eq!(parse_u32_str("4294967295"), Some(u32::MAX));
    assert_eq!(parse_u32_str("4294967296"), None);
    assert_eq!(parse_u32_str("99999999999999999999"), None);
    assert_eq!(parse_u32_str("-1"), None);
    assert_eq!(parse_u32_str("+"), None);
    assert_eq!(parse_u32_str(""), None);
    assert_eq!(parse_u32_str(" 1"), None);
    assert_eq!(parse_u32_str("1a"), None);
    assert_eq!(parse_u32_str("٣"), None);
}

#[test]
fn boolean_parsing() {
    assert_eq!(parse_bool_str("true"), Some(true));
    assert_eq!(parse_bool_str("false"), Some(false));
    assert_eq!(parse_bool_str("True"), None);
    assert_eq!(parse_bool_str("1"), None);
}

#[test]
fn trimming_unicode_whitespace() {
    let v = chars_of("\u{3000}\t a b\u{a0}\r\n");
    let (a, b) = trim_range(&v, 0, v.len());
    assert_eq!(string_of(&v, a, b), "a b");
    let w = chars_of("   ");
    let (a, b) = trim_range(&w, 0, w.len());
    assert_eq!(a, b);
}

#[test]
fn string_comparison() {
    assert!(str_is("manifest", "manifest"));
    assert!(!str_is("manifes", "manifest"));
    assert!(!str_is("Manifest", "manifest"));
}

#[test]
fn attribute_lookup_takes_last_value() {
    let attrs = vec![
        ("name".to_string(), "first".to_string()),
        ("exported".to_string(), "true".to_string()),
        ("name".to_string(), "second".to_string()),
    ];
    assert_eq!(attr_get(&attrs, "name").as_deref(), Some("second"));
    assert_eq!(attr_get(&attrs, "exported").as_deref(), Some("true"));
    assert_eq!(attr_get(&attrs, "permission"), None);
}
