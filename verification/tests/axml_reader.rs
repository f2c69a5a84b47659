//! The binary manifest reader on documents built byte by byte.

use mobsf_engine::axml::{
    attr_name_from_id, attr_value_to_string, decode_utf16, decode_utf8, parse_axml,
    parse_axml_checked, AxmlError, Step,
};

fn put16(v: &mut Vec<u8>, x: u16) {
    v.extend_from_slice(&x.to_le_bytes());
}

fn put32(v: &mut Vec<u8>, x: u32) {
    v.extend_from_slice(&x.to_le_bytes());
}

/// A UTF-16 string pool chunk.
fn pool_utf16(strings: &[&str]) -> Vec<u8> {
    let mut data = Vec::new();
    let mut offsets = Vec::new();
    for s in strings {
        offsets.push(data.len() as u32);
        let units: Vec<u16> = s.encode_utf16().collect();
        put16(&mut data, units.len() as u16);
        for u in units {
            put16(&mut data, u);
        }
        put16(&mut data, 0);
    }
    let strings_start = 28 + 4 * strings.len() as u32;
    let size = strings_start + data.len() as u32;
    let mut c = Vec::new();
    put16(&mut c, 0x0001);
    put16(&mut c, 28);
    put32(&mut c, size);
    put32(&mut c, strings.len() as u32);
    put32(&mut c, 0);
    put32(&mut c, 0);
    put32(&mut c, strings_start);
    put32(&mut c, 0);
    for o in offsets {
        put32(&mut c, o);
    }
    c.extend_from_slice(&data);
    c
}

/// A UTF-8 string pool chunk (ASCII strings).
fn pool_utf8(strings: &[&str]) -> Vec<u8> {
    let mut data = Vec::new();
    let mut offsets = Vec::new();
    for s in strings {
        offsets.push(data.len() as u32);
        data.push(s.len() as u8);
        data.push(s.len() as u8);
        data.extend_from_slice(s.as_bytes());
        data.push(0);
    }
    let strings_start = 28 + 4 * strings.len() as u32;
    let size = strings_start + data.len() as u32;
    let mut c = Vec::new();
    put16(&mut c, 0x0001);
    put16(&mut c, 28);
    put32(&mut c, size);
    put32(&mut c, strings.len() as u32);
    put32(&mut c, 0);
    put32(&mut c, 0x100);
    put32(&mut c, strings_start);
    put32(&mut c, 0);
    for o in offsets {
        put32(&mut c, o);
    }
    c.extend_from_slice(&data);
    c
}

/// An attribute: (pool name index, raw value, value type, value data).
type Attr = (u32, u32, u8, u32);

/// A start-element chunk, laid out as the reader reads it: name at +20,
/// attribute count at +24, start at +26, stride at +28; records of 20 bytes.
fn element(name: u32, attrs: &[Attr]) -> Vec<u8> {
    let mut c = Vec::new();
    let size = 32 + 20 * attrs.len() as u32;
    put16(&mut c, 0x0102);
    put16(&mut c, 16);
    put32(&mut c, size);
    put32(&mut c, 1);
    put32(&mut c, 0xFFFF_FFFF);
    put32(&mut c, 0xFFFF_FFFF);
    put32(&mut c, name);
    put16(&mut c, attrs.len() as u16);
    put16(&mut c, 32);
    put16(&mut c, 20);
    put16(&mut c, 0);
    for (n, raw, t, d) in attrs {
        put32(&mut c, 0xFFFF_FFFF);
        put32(&mut c, *n);
        put32(&mut c, *raw);
        put16(&mut c, 8);
        c.push(0);
        c.push(*t);
        put32(&mut c, *d);
    }
    c
}

fn document(chunks: &[Vec<u8>]) -> Vec<u8> {
    let body: Vec<u8> = chunks.concat();
    let mut d = Vec::new();
    put16(&mut d, 0x0003);
    put16(&mut d, 8);
    put32(&mut d, 8 + body.len() as u32);
    d.extend_from_slice(&body);
    d
}

const NONE: u32 = 0xFFFF_FFFF;

fn sample(pool: Vec<u8>) -> Vec<u8> {
    // 0 manifest, 1 package, 2 com.example.app, 3 versionCode, 4 uses-sdk,
    // 5 minSdkVersion, 6 uses-permission, 7 name, 8 android.permission.INTERNET,
    // 9 activity, 10 .Main, 11 exported, 12 enabled, 13 provider, 14 permission
    let e_manifest = element(0, &[(1, 2, 0x03, 2), (3, NONE, 0x10, 42)]);
    let e_sdk = element(4, &[(5, NONE, 0x10, 21)]);
    let e_perm = element(6, &[(7, 8, 0x03, 8)]);
    let e_act = element(9, &[(7, 10, 0x03, 10), (11, NONE, 0x12, 1), (12, NONE, 0x12, 0)]);
    let e_prov = element(13, &[(7, NONE, 0x03, 10), (14, NONE, 0x03, 8)]);
    document(&[pool, e_manifest, e_sdk, e_perm, e_act, e_prov])
}

const STRINGS: [&str; 15] = [
    "manifest",
    "package",
    "com.example.app",
    "versionCode",
    "uses-sdk",
    "minSdkVersion",
    "uses-permission",
    "name",
    "android.permission.INTERNET",
    "activity",
    ".Main",
    "exported",
    "enabled",
    "provider",
    "permission",
];

fn check_sample(bytes: &[u8]) {
    let m = parse_axml(bytes).unwrap();
    assert_eq!(m.package, "com.example.app");
    assert_eq!(m.version_code.as_deref(), Some("42"));
    assert_eq!(m.version_name, None);
    assert_eq!(m.min_sdk_version, Some(21));
    assert_eq!(m.target_sdk_version, None);
    assert_eq!(m.permissions.len(), 1);
    assert_eq!(m.permissions[0].name, "android.permission.INTERNET");
    assert_eq!(m.activities.len(), 1);
    assert_eq!(m.activities[0].name, ".Main");
    assert_eq!(m.activities[0].exported, Some(true));
    assert_eq!(m.activities[0].enabled, Some(false));
    assert_eq!(m.providers.len(), 1);
    assert_eq!(m.providers[0].name, ".Main");
    assert_eq!(
        m.providers[0].permission.as_deref(),
        Some("android.permission.INTERNET")
    );
}

#[test]
fn reads_utf16_document() {
    check_sample(&sample(pool_utf16(&STRINGS)));
}

#[test]
fn reads_utf8_document() {
    check_sample(&sample(pool_utf8(&STRINGS)));
}

#[test]
fn too_small_input_is_invalid() {
    assert!(matches!(parse_axml(&[3, 0, 8, 0]), Err(AxmlError::Invalid(_))));
    assert!(matches!(parse_axml(&[]), Err(AxmlError::Invalid(_))));
}

#[test]
fn truncated_pool_reports_offset() {
    let mut d = document(&[pool_utf16(&STRINGS)]);
    // keep the outer header and the pool's first 12 bytes: the string count
    // is read at pool offset +8 (document offset 16), the flags at +16 (24).
    d.truncate(8 + 12);
    match parse_axml(&d) {
        Err(AxmlError::OutOfBounds(o)) => assert_eq!(o, 24),
        other => panic!("unexpected {:?}", other.map(|m| m.package)),
    }
}

#[test]
fn zero_sized_chunk_stops_reading() {
    let mut d = vec![0x03, 0x00, 0x08, 0x00, 0, 0, 0, 0];
    d.extend_from_slice(&element(0, &[]));
    let m = parse_axml(&d).unwrap();
    assert_eq!(m.package, "");
}

#[test]
fn unknown_chunks_are_skipped() {
    let mut junk = Vec::new();
    put16(&mut junk, 0x0180);
    put16(&mut junk, 8);
    put32(&mut junk, 12);
    put32(&mut junk, 0x0101_0003);
    let pool = pool_utf16(&["manifest", "package", "p.q"]);
    let e = element(0, &[(1, 2, 0x03, 2)]);
    let m = parse_axml(&document(&[junk, pool, e])).unwrap();
    assert_eq!(m.package, "p.q");
}

#[test]
fn attribute_names_from_resource_ids() {
    // name index NONE: the name comes from the resource ID in the raw field
    // (raw is then not NONE, so untyped values read the pool at raw).
    let pool = pool_utf16(&["uses-sdk", "activity", "name", ".A", "x"]);
    let e_sdk = element(0, &[(NONE, 0x0101_020c, 0x10, 19), (NONE, 0x0101_0270, 0x10, 33)]);
    let e_act = element(1, &[(2, 3, 0x03, 3), (NONE, 0x0101_0010, 0x12, 0xFFFF_FFFF)]);
    let m = parse_axml(&document(&[pool, e_sdk, e_act])).unwrap();
    assert_eq!(m.min_sdk_version, Some(19));
    assert_eq!(m.target_sdk_version, Some(33));
    assert_eq!(m.activities[0].exported, Some(true));
}

#[test]
fn hex_and_untyped_values() {
    // versionCode as hex does not parse as a number; versionName stays text.
    let pool = pool_utf16(&["manifest", "versionCode", "versionName", "uses-sdk", "minSdkVersion"]);
    let e_m = element(0, &[(1, NONE, 0x11, 0x1f), (2, NONE, 0x07, 5)]);
    let e_sdk = element(3, &[(4, NONE, 0x11, 0x1f)]);
    let m = parse_axml(&document(&[pool, e_m, e_sdk])).unwrap();
    assert_eq!(m.version_code.as_deref(), Some("0x1f"));
    assert_eq!(m.version_name.as_deref(), Some("(type 0x07 data 5)"));
    assert_eq!(m.min_sdk_version, None);
}

#[test]
fn unknown_resource_id_is_named_by_its_hex() {
    // An application attribute named only by an unknown resource ID, then a
    // named attribute: the component name comes from the pool.
    let pool = pool_utf16(&["application", "name", ".App"]);
    let e = element(0, &[(NONE, 0x0101_0abc, 0x10, 1), (1, 2, 0x03, 2)]);
    let m = parse_axml(&document(&[pool, e])).unwrap();
    let app = m.application.unwrap();
    assert_eq!(app.name, ".App");
    assert_eq!(app.exported, None);
}

/// A UTF-16 string pool chunk from raw code units, each with the length
/// field to write (the reader counts a surrogate pair as one step).
fn pool_units(strings: &[(u16, Vec<u16>)]) -> Vec<u8> {
    let mut data = Vec::new();
    let mut offsets = Vec::new();
    for (len, units) in strings {
        offsets.push(data.len() as u32);
        put16(&mut data, *len);
        for u in units {
            put16(&mut data, *u);
        }
    }
    let strings_start = 28 + 4 * strings.len() as u32;
    let mut c = Vec::new();
    put16(&mut c, 0x0001);
    put16(&mut c, 28);
    put32(&mut c, strings_start + data.len() as u32);
    put32(&mut c, strings.len() as u32);
    put32(&mut c, 0);
    put32(&mut c, 0);
    put32(&mut c, strings_start);
    put32(&mut c, 0);
    for o in offsets {
        put32(&mut c, o);
    }
    c.extend_from_slice(&data);
    c
}

#[test]
fn surrogate_pairs_and_lone_surrogates() {
    // "A😀" is A, D83D, DE00; a lone low surrogate becomes U+FFFD.
    let pool = pool_units(&[
        (2, vec![0x41, 0xD83D, 0xDE00]),
        (1, vec![0xDC00]),
        (8, "manifest".encode_utf16().collect()),
        (7, "package".encode_utf16().collect()),
    ]);
    let e_m = element(2, &[(3, 0, 0x03, 0), (NONE, 0x0101_021c, 0x03, 1)]);
    let m = parse_axml(&document(&[pool, e_m])).unwrap();
    assert_eq!(m.package, "A\u{1F600}");
    assert_eq!(m.version_name.as_deref(), Some("\u{FFFD}"));
}

#[test]
fn high_surrogate_followed_by_non_low_surrogate_is_undefined() {
    let mut data = Vec::new();
    put16(&mut data, 2);
    put16(&mut data, 0xD800);
    put16(&mut data, 0x0041);
    let mut pool = Vec::new();
    put16(&mut pool, 0x0001);
    put16(&mut pool, 28);
    put32(&mut pool, 32 + data.len() as u32);
    put32(&mut pool, 1);
    put32(&mut pool, 0);
    put32(&mut pool, 0);
    put32(&mut pool, 32);
    put32(&mut pool, 0);
    put32(&mut pool, 0);
    pool.extend_from_slice(&data);
    assert!(parse_axml_checked(&document(&[pool])).is_none());
}

#[test]
fn untyped_value_without_raw_and_out_of_pool_index() {
    let pool = pool_utf16(&["manifest", "package", "versionName"]);
    let e = element(0, &[(1, NONE, 0x03, 99), (2, NONE, 0x01, 0x7f)]);
    let m = parse_axml(&document(&[pool, e])).unwrap();
    assert_eq!(m.package, "");
    assert_eq!(m.version_name.as_deref(), Some("(type 0x01 data 127)"));
}

#[test]
fn invalid_utf8_in_pool_is_replaced() {
    let mut pool = pool_utf8(&["manifest", "package", "ab"]);
    let n = pool.len();
    // last string's bytes are at the end, before the terminating zero: "ab\0"
    pool[n - 3] = 0xFF;
    let e = element(0, &[(1, 2, 0x03, 2)]);
    let m = parse_axml(&document(&[pool, e])).unwrap();
    assert_eq!(m.package, "\u{FFFD}b");
}

#[test]
fn resource_id_of_theme_is_not_package() {
    // 0x01010000 is android.R.attr.theme: it does not set the package.
    let pool = pool_utf16(&["manifest", "com.x"]);
    let e = element(0, &[(NONE, 0x0101_0000, 0x03, 1)]);
    let m = parse_axml(&document(&[pool, e])).unwrap();
    assert_eq!(m.package, "");
}

#[test]
fn resource_id_table() {
    assert_eq!(attr_name_from_id(0x0101_0000), Some("theme"));
    assert_eq!(attr_name_from_id(0x0101_0003), Some("name"));
    assert_eq!(attr_name_from_id(0x0101_0270), Some("targetSdkVersion"));
    assert_eq!(attr_name_from_id(0x7f01_0003), None);
}

#[test]
fn typed_values_as_text() {
    let pool = vec!["zero".to_string(), "one".to_string()];
    assert_eq!(attr_value_to_string(&pool, 0x10, 28, NONE), "28");
    assert_eq!(attr_value_to_string(&pool, 0x12, 0, NONE), "false");
    assert_eq!(attr_value_to_string(&pool, 0x12, 7, NONE), "true");
    assert_eq!(attr_value_to_string(&pool, 0x11, 0xabc, NONE), "0xabc");
    assert_eq!(attr_value_to_string(&pool, 0x03, 1, NONE), "one");
    assert_eq!(attr_value_to_string(&pool, 0x03, 5, NONE), "");
    assert_eq!(attr_value_to_string(&pool, 0x05, 9, 0), "zero");
    assert_eq!(attr_value_to_string(&pool, 0x05, 9, NONE), "(type 0x05 data 9)");
}

#[test]
fn pool_strings_read_back() {
    let mut b = vec![9u8, 9];
    put16(&mut b, 3);
    for u in "héλ".encode_utf16() {
        put16(&mut b, u);
    }
    match decode_utf16(&b, 2) {
        Step::Value(s) => assert_eq!(s, "héλ"),
        _ => panic!("not decoded"),
    }
    let mut c = vec![1u8];
    c.push(3);
    c.push("hé".len() as u8);
    c.extend_from_slice("hé".as_bytes());
    match decode_utf8(&c, 1) {
        Step::Value(s) => assert_eq!(s, "hé"),
        _ => panic!("not decoded"),
    }
    assert!(matches!(decode_utf8(&c[..4], 1), Step::Error(AxmlError::OutOfBounds(6))));
}

#[test]
fn pool_string_start_past_the_end() {
    let b = vec![0u8; 4];
    assert!(matches!(decode_utf16(&b, 10), Step::Error(AxmlError::OutOfBounds(10))));
    assert!(matches!(decode_utf8(&b, u64::MAX), Step::Error(AxmlError::OutOfBounds(_))));
    assert!(matches!(decode_utf8(&b, 4), Step::Error(AxmlError::OutOfBounds(4))));
}
