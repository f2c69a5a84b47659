//! APK (zip) access on the archive's bytes: extract the manifest and list
//! entries. The zip format itself is read by the `zip` crate.

use vstd::prelude::*;
use std::io::Cursor;
use std::io::Read;
use zip::result::ZipError;
use zip::ZipArchive;
use crate::axml::{axml_spec, parse_axml_checked, AxmlError, Step};
use crate::manifest::ApkManifest;

verus! {

#[verifier::external_type_specification]
#[verifier::external_body]
#[verifier::reject_recursive_types(R)]
pub struct ExZipArchive<R>(ZipArchive<R>);

#[verifier::external_type_specification]
#[verifier::external_body]
#[verifier::reject_recursive_types(T)]
pub struct ExCursor<T>(Cursor<T>);

#[verifier::external_type_specification]
#[verifier::external_body]
pub struct ExZipError(ZipError);

#[verifier::external_type_specification]
#[verifier::external_body]
pub struct ExIoError(std::io::Error);

/// An archive read from bytes held in memory.
pub type ApkArchive = ZipArchive<Cursor<Vec<u8>>>;

/// Errors of the engine.
#[derive(Debug)]
pub enum EngineError {
    Io(std::io::Error),
    Zip(ZipError),
    Axml(AxmlError),
    MissingEntry(String),
    Tool(String),
}

/// Why an entry's contents could not be had.
#[derive(Debug)]
pub enum EntryReadError {
    /// `ZipArchive::by_name` refused the entry.
    Lookup(ZipError),
    /// Reading (decompressing) the entry failed.
    Read(std::io::Error),
}

/// What an archive records of one entry: its name; whether the entry can be
/// opened (`ZipArchive::by_index` / `by_name` succeed on it: not encrypted, a
/// supported method, a readable local header); and, once opened, its
/// contents when reading it to the end succeeds.
pub type ZipEntryView = (Seq<char>, bool, Option<Seq<u8>>);

/// The entries an archive holds, in central-directory order.
pub uninterp spec fn zip_entries(archive: ApkArchive) -> Seq<ZipEntryView>;

/// What `ZipArchive::new` makes of the bytes of an archive: its entries (as
/// `zip_entries` lists them), or `None` when it refuses them.
pub uninterp spec fn zip_listing(bytes: Seq<u8>) -> Option<Seq<ZipEntryView>>;

/// `ZipArchive::new(Cursor::new(bytes))`: reads the central directory. Whether
/// it succeeds, and the entries it lists, depend on the bytes alone.
#[verifier::external_body]
fn zip_open(bytes: Vec<u8>) -> (res: Result<ApkArchive, ZipError>)
    ensures
        res is Ok <==> zip_listing(bytes@) is Some,
        res matches Ok(a) ==> zip_listing(bytes@) == Some(zip_entries(a)),
{
    ZipArchive::new(Cursor::new(bytes))
}

/// `ZipArchive::len`: the number of entries.
#[verifier::external_body]
fn zip_len(archive: &ApkArchive) -> (res: usize)
    ensures
        res == zip_entries(*archive).len(),
{
    archive.len()
}

/// `ZipArchive::by_index(i)`, then the entry's `name()`: fails past the last
/// entry and on an entry that cannot be opened, else gives its name.
#[verifier::external_body]
fn zip_entry_name(archive: &mut ApkArchive, i: usize) -> (res: Result<String, ZipError>)
    ensures
        zip_entries(*final(archive)) == zip_entries(*old(archive)),
        i >= zip_entries(*old(archive)).len() ==> res is Err,
        i < zip_entries(*old(archive)).len() ==> (res is Ok <==> zip_entries(
            *old(archive),
        )[i as int].1),
        res matches Ok(s) ==> i < zip_entries(*old(archive)).len() && s@ == zip_entries(
            *old(archive),
        )[i as int].0,
{
    match archive.by_index(i) {
        Ok(f) => Ok(f.name().to_string()),
        Err(e) => Err(e),
    }
}

/// The record of the entry called `name` among `entries` (`None`: no such entry).
pub open spec fn entry_named(entries: Seq<ZipEntryView>, name: Seq<char>) -> Option<ZipEntryView>
    decreases entries.len(),
{
    if entries.len() == 0 {
        None
    } else if entries[0].0 == name {
        Some(entries[0])
    } else {
        entry_named(entries.drop_first(), name)
    }
}

/// `ZipArchive::by_name(name)`, then `Read::read_to_end` on the entry it
/// returns (the entry borrows the archive, so the two calls stand together).
/// The lookup fails when there is no entry of that name or it cannot be
/// opened (`by_name` opens the entry as `by_index` does); otherwise the read
/// gives the contents `zip_entries` records, or fails when there are none.
#[verifier::external_body]
fn zip_read_entry(archive: &mut ApkArchive, name: &str) -> (res: Result<Vec<u8>, EntryReadError>)
    ensures
        zip_entries(*final(archive)) == zip_entries(*old(archive)),
        match entry_named(zip_entries(*old(archive)), name@) {
            None => res matches Err(EntryReadError::Lookup(_)),
            Some((_, opens, contents)) => if !opens {
                res matches Err(EntryReadError::Lookup(_))
            } else {
                match contents {
                    None => res matches Err(EntryReadError::Read(_)),
                    Some(d) => res matches Ok(v) && v@ == d && d.len() <= isize::MAX,
                }
            },
        },
{
    match archive.by_name(name) {
        Err(e) => Err(EntryReadError::Lookup(e)),
        Ok(mut f) => {
            let mut buf = Vec::new();
            match f.read_to_end(&mut buf) {
                Ok(_) => Ok(buf),
                Err(e) => Err(EntryReadError::Read(e)),
            }
        },
    }
}

/// The name of the manifest entry inside an APK.
pub open spec fn manifest_entry_name() -> Seq<char> {
    "AndroidManifest.xml"@
}

/// The outcome of reading the manifest from an archive's entries: a missing
/// or unopenable entry is a missing entry, an unreadable one an I/O error,
/// and the contents go to the AXML reader.
pub open spec fn manifest_from_entries_ok(
    entries: Seq<ZipEntryView>,
    res: Option<Result<ApkManifest, EngineError>>,
) -> bool {
    match entry_named(entries, manifest_entry_name()) {
        Some((_, true, Some(data))) => data.len() <= isize::MAX && manifest_from_data_ok(data, res),
        Some((_, true, None)) => res matches Some(Err(EngineError::Io(_))),
        _ => res matches Some(Err(EngineError::MissingEntry(n))) && n@ == manifest_entry_name(),
    }
}

/// The outcome of reading the manifest out of the entry's bytes.
pub open spec fn manifest_from_data_ok(data: Seq<u8>, res: Option<Result<ApkManifest, EngineError>>) -> bool {
    match axml_spec(data) {
        Step::Value(m) => res matches Some(Ok(r)) && r@ == m,
        Step::Error(e) => res matches Some(Err(EngineError::Axml(e2))) && e2 == e,
        Step::Underflow => res is None,
    }
}

/// What reading the manifest entry gave, turned into the manifest: a failed
/// lookup is a missing entry, a failed read an I/O error, and bytes go to
/// the AXML reader (`None` where its UTF-16 surrogate arithmetic underflows).
pub fn manifest_from_entry(read: Result<Vec<u8>, EntryReadError>) -> (res: Option<
    Result<ApkManifest, EngineError>,
>)
    requires
        read matches Ok(d) ==> d@.len() <= isize::MAX,
    ensures
        read matches Err(EntryReadError::Lookup(_)) ==> (res matches Some(
            Err(EngineError::MissingEntry(n)),
        ) && n@ == manifest_entry_name()),
        read matches Err(EntryReadError::Read(_)) ==> (res matches Some(Err(EngineError::Io(_)))),
        read matches Ok(d) ==> manifest_from_data_ok(d@, res),
{
    let buf = match read {
        Ok(b) => b,
        Err(EntryReadError::Lookup(_)) => {
            return Some(Err(EngineError::MissingEntry(String::from_str("AndroidManifest.xml"))));
        },
        Err(EntryReadError::Read(e)) => return Some(Err(EngineError::Io(e))),
    };
    match parse_axml_checked(buf.as_slice()) {
        Some(Ok(m)) => Some(Ok(m)),
        Some(Err(e)) => Some(Err(EngineError::Axml(e))),
        None => None,
    }
}

/// Read the manifest out of an APK's bytes with the built-in AXML reader.
/// `None` exactly where the reader's UTF-16 surrogate arithmetic underflows.
pub fn read_manifest_from_apk_bytes(apk: Vec<u8>) -> (res: Option<Result<ApkManifest, EngineError>>)
    ensures
        match zip_listing(apk@) {
            None => res matches Some(Err(EngineError::Zip(_))),
            Some(entries) => manifest_from_entries_ok(entries, res),
        },
{
    let mut zip = match zip_open(apk) {
        Ok(z) => z,
        Err(e) => return Some(Err(EngineError::Zip(e))),
    };
    let read = zip_read_entry(&mut zip, "AndroidManifest.xml");
    manifest_from_entry(read)
}

/// Every entry of the archive can be opened.
pub open spec fn all_open(entries: Seq<ZipEntryView>) -> bool {
    forall|i: int| 0 <= i < entries.len() ==> (#[trigger] entries[i]).1
}

/// The bytes are an archive whose every entry can be opened.
pub open spec fn opens_entirely(bytes: Seq<u8>) -> bool {
    match zip_listing(bytes) {
        Some(entries) => all_open(entries),
        None => false,
    }
}

/// The names of the entries, in order.
pub open spec fn entry_names(entries: Seq<ZipEntryView>) -> Seq<Seq<char>> {
    entries.map_values(|e: ZipEntryView| e.0)
}

/// Return the name of every entry inside the APK, in archive order: this
/// succeeds exactly when the archive opens and each entry can be opened.
pub fn list_apk_entries_from_bytes(apk: Vec<u8>) -> (res: Result<Vec<String>, EngineError>)
    ensures
        res matches Err(e) ==> e is Zip,
        res is Ok <==> opens_entirely(apk@),
        res matches Ok(names) ==> zip_listing(apk@) matches Some(entries) && names.deep_view()
            == entry_names(entries),
{
    let ghost bytes = apk@;
    let mut zip = match zip_open(apk) {
        Ok(z) => z,
        Err(e) => return Err(EngineError::Zip(e)),
    };
    let ghost entries = zip_entries(zip);
    let n = zip_len(&zip);
    let mut names: Vec<String> = Vec::new();
    let mut i: usize = 0;
    while i < n
        invariant
            i <= n == entries.len(),
            zip_entries(zip) == entries,
            zip_listing(bytes) == Some(entries),
            bytes == apk@,
            forall|k: int| 0 <= k < i ==> (#[trigger] entries[k]).1,
            names.deep_view() == entry_names(entries.take(i as int)),
        decreases n - i,
    {
        let name = match zip_entry_name(&mut zip, i) {
            Ok(s) => s,
            Err(e) => {
                assert(!entries[i as int].1);
                assert(!all_open(entries));
                assert(!opens_entirely(bytes));
                return Err(EngineError::Zip(e));
            },
        };
        let ghost before = names.deep_view();
        let ghost nm = name@;
        names.push(name);
        assert(names.deep_view() =~= before.push(nm));
        i = i + 1;
        assert(entry_names(entries.take(i as int)) =~= entry_names(entries.take(i - 1)).push(
            entries[i - 1].0,
        ));
    }
    assert(entries.take(n as int) =~= entries);
    Ok(names)
}

} // verus!
