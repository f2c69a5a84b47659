//! Static analysis engine for Android packages: a verified reader of the
//! binary `AndroidManifest.xml` format, a verified parser of the textual
//! `aapt dump badging` report, and the decisions around the external tools.

use vstd::prelude::*;

pub mod aapt;
pub mod apk;
pub mod attrs;
pub mod axml;
pub mod manifest;
pub mod text;
pub mod tools;

pub use aapt::parse_aapt_badging;
pub use apk::{list_apk_entries_from_bytes, read_manifest_from_apk_bytes, EngineError};
pub use manifest::{ApkManifest, Component, Permission};
pub use tools::{discover_tools, DecompileResult, ToolConfig};
