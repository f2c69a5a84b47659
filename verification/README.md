# mobsf_engine

The static-analysis engine of a desktop APK analyzer, written in Verus.

- `src/axml.rs` reads the binary `AndroidManifest.xml` (AXML) format: chunk
  walk, string pools (UTF-16 and UTF-8), start elements and typed attribute
  values. Its result is proved equal to a specification of the format.
- `src/aapt.rs` parses the textual report of `aapt dump badging`, line by
  line, against a specification of the report's records.
- `src/apk.rs` reads APK archives held in memory through the `zip` crate.
- `src/tools.rs` holds the decisions around the external tools (aapt,
  apktool, jadx): candidate locations, choice, and exact argument lists.
- `src/text.rs`, `src/attrs.rs`, `src/manifest.rs`: shared text helpers,
  attribute lists and the manifest data model.
- `app/` is the unverified host side: file and process I/O, probing the
  host for tools, serializable copies of the types, and command handlers.
