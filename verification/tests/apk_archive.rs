//! Reading manifests and entry lists out of APK bytes.

use mobsf_engine::apk::{
    list_apk_entries_from_bytes, manifest_from_entry, read_manifest_from_apk_bytes, EngineError,
    EntryReadError,
};
use mobsf_engine::axml::AxmlError;
use std::io::{Cursor, Write};
use zip::write::SimpleFileOptions;
use zip::{CompressionMethod, ZipWriter};

fn make_zip(entries: &[(&str, &[u8])], method: CompressionMethod) -> Vec<u8> {
    let mut w = ZipWriter::new(Cursor::new(Vec::new()));
    let opts = SimpleFileOptions::default().compression_method(method);
    for (name, data) in entries {
        w.start_file(*name, opts).unwrap();
        w.write_all(data).unwrap();
    }
    w.finish().unwrap().into_inner()
}

fn tiny_manifest() -> Vec<u8> {
    // An XML container holding a UTF-8 pool ["manifest","package","a.b"] and
    // a <manifest package="a.b"> element.
    let mut pool = Vec::new();
    let strs = ["manifest", "package", "a.b"];
    let mut data = Vec::new();
    let mut offs = Vec::new();
    for s in strs {
        offs.push(data.len() as u32);
        data.push(s.len() as u8);
        data.push(s.len() as u8);
        data.extend_from_slice(s.as_bytes());
        data.push(0);
    }
    let start = 28 + 4 * strs.len() as u32;
    pool.extend_from_slice(&1u16.to_le_bytes());
    pool.extend_from_slice(&28u16.to_le_bytes());
    pool.extend_from_slice(&(start + data.len() as u32).to_le_bytes());
    pool.extend_from_slice(&(strs.len() as u32).to_le_bytes());
    pool.extend_from_slice(&0u32.to_le_bytes());
    pool.extend_from_slice(&0x100u32.to_le_bytes());
    pool.extend_from_slice(&start.to_le_bytes());
    pool.extend_from_slice(&0u32.to_le_bytes());
    for o in offs {
        pool.extend_from_slice(&o.to_le_bytes());
    }
    pool.extend_from_slice(&data);
    let mut el = Vec::new();
    el.extend_from_slice(&0x0102u16.to_le_bytes());
    el.extend_from_slice(&16u16.to_le_bytes());
    el.extend_from_slice(&52u32.to_le_bytes());
    el.extend_from_slice(&[0u8; 8]);
    el.extend_from_slice(&0xFFFF_FFFFu32.to_le_bytes());
    el.extend_from_slice(&0u32.to_le_bytes());
    el.extend_from_slice(&1u16.to_le_bytes());
    el.extend_from_slice(&32u16.to_le_bytes());
    el.extend_from_slice(&20u16.to_le_bytes());
    el.extend_from_slice(&0u16.to_le_bytes());
    el.extend_from_slice(&0xFFFF_FFFFu32.to_le_bytes());
    el.extend_from_slice(&1u32.to_le_bytes());
    el.extend_from_slice(&2u32.to_le_bytes());
    el.extend_from_slice(&8u16.to_le_bytes());
    el.push(0);
    el.push(3);
    el.extend_from_slice(&2u32.to_le_bytes());
    let mut doc = Vec::new();
    doc.extend_from_slice(&3u16.to_le_bytes());
    doc.extend_from_slice(&8u16.to_le_bytes());
    doc.extend_from_slice(&(8 + pool.len() as u32 + el.len() as u32).to_le_bytes());
    doc.extend_from_slice(&pool);
    doc.extend_from_slice(&el);
    doc
}

#[test]
fn lists_entries_in_archive_order() {
    let z = make_zip(
        &[("AndroidManifest.xml", b"x"), ("classes.dex", b"dex"), ("res/a.png", b"")],
        CompressionMethod::Stored,
    );
    let names = list_apk_entries_from_bytes(z).unwrap();
    assert_eq!(names, vec!["AndroidManifest.xml", "classes.dex", "res/a.png"]);
}

#[test]
fn not_a_zip_is_a_zip_error() {
    assert!(matches!(list_apk_entries_from_bytes(b"not a zip".to_vec()), Err(EngineError::Zip(_))));
    assert!(matches!(
        read_manifest_from_apk_bytes(b"PK nothing".to_vec()),
        Some(Err(EngineError::Zip(_)))
    ));
}

#[test]
fn missing_manifest_entry() {
    let z = make_zip(&[("classes.dex", b"dex")], CompressionMethod::Stored);
    match read_manifest_from_apk_bytes(z) {
        Some(Err(EngineError::MissingEntry(n))) => assert_eq!(n, "AndroidManifest.xml"),
        other => panic!("unexpected {:?}", other.map(|r| r.map(|m| m.package))),
    }
}

#[test]
fn reads_manifest_from_stored_and_deflated_entries() {
    for method in [CompressionMethod::Stored, CompressionMethod::Deflated] {
        let manifest = tiny_manifest();
        let z = make_zip(&[("AndroidManifest.xml", &manifest)], method);
        let m = read_manifest_from_apk_bytes(z).unwrap().unwrap();
        assert_eq!(m.package, "a.b");
    }
}

#[test]
fn manifest_errors_are_axml_errors() {
    let z = make_zip(&[("AndroidManifest.xml", b"\x03\x00")], CompressionMethod::Stored);
    assert!(matches!(
        read_manifest_from_apk_bytes(z),
        Some(Err(EngineError::Axml(AxmlError::Invalid(_))))
    ));
}

#[test]
fn entry_outcomes_map_to_engine_errors() {
    match manifest_from_entry(Err(EntryReadError::Lookup(zip::result::ZipError::FileNotFound))) {
        Some(Err(EngineError::MissingEntry(n))) => assert_eq!(n, "AndroidManifest.xml"),
        _ => panic!("expected a missing entry"),
    }
    let io = std::io::Error::new(std::io::ErrorKind::InvalidData, "bad crc");
    assert!(matches!(manifest_from_entry(Err(EntryReadError::Read(io))), Some(Err(EngineError::Io(_)))));
    let m = manifest_from_entry(Ok(tiny_manifest())).unwrap().unwrap();
    assert_eq!(m.package, "a.b");
    assert!(matches!(
        manifest_from_entry(Ok(vec![1, 2, 3])),
        Some(Err(EngineError::Axml(AxmlError::Invalid(_))))
    ));
}

/// Marks the central-directory record of `name` as encrypted.
fn mark_encrypted(zip: &mut Vec<u8>, name: &str) {
    let sig = [0x50u8, 0x4b, 0x01, 0x02];
    let mut i = 0;
    while i + 46 <= zip.len() {
        if zip[i..i + 4] == sig {
            let n = u16::from_le_bytes([zip[i + 28], zip[i + 29]]) as usize;
            if &zip[i + 46..i + 46 + n] == name.as_bytes() {
                zip[i + 8] |= 1;
                return;
            }
        }
        i += 1;
    }
    panic!("entry not found");
}

#[test]
fn an_entry_that_cannot_be_opened_fails_the_listing() {
    let mut z = make_zip(&[("a.txt", b"a"), ("b.txt", b"b")], CompressionMethod::Stored);
    mark_encrypted(&mut z, "b.txt");
    assert!(matches!(list_apk_entries_from_bytes(z), Err(EngineError::Zip(_))));
}

#[test]
fn an_unopenable_manifest_is_a_missing_entry() {
    let manifest = tiny_manifest();
    let mut z = make_zip(&[("AndroidManifest.xml", &manifest)], CompressionMethod::Stored);
    mark_encrypted(&mut z, "AndroidManifest.xml");
    match read_manifest_from_apk_bytes(z) {
        Some(Err(EngineError::MissingEntry(n))) => assert_eq!(n, "AndroidManifest.xml"),
        other => panic!("unexpected {:?}", other.map(|r| r.map(|m| m.package))),
    }
}
