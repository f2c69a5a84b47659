//! The decisions around the external Android reverse-engineering tools
//! (`aapt`, `apktool`, `jadx`): where to look for them, which one to use, and
//! the exact argument list each is launched with. Arguments are always a
//! list (never a shell string), so a path with spaces or shell syntax is one
//! argument, passed unchanged. Probing the file system and launching the
//! processes is left to the caller.

use vstd::prelude::*;
use crate::aapt::{badging_spec, parse_aapt_badging};
use crate::apk::EngineError;
use crate::manifest::ApkManifest;
use crate::text::{string_from_utf8_lossy, utf8_lossy};

verus! {

/// Where the external tools live on the host.
#[derive(Debug, Clone)]
pub struct ToolConfig {
    pub java: String,
    pub aapt: Option<String>,
    pub apktool_jar: Option<String>,
    pub jadx: Option<String>,
}

impl Default for ToolConfig {
    fn default() -> (res: Self)
        ensures
            res.java@ == "java"@,
            res.aapt is None,
            res.apktool_jar is None,
            res.jadx is None,
    {
        ToolConfig { java: String::from_str("java"), aapt: None, apktool_jar: None, jadx: None }
    }
}

/// Result of running an external decompiler.
#[derive(Debug, Clone)]
pub struct DecompileResult {
    pub success: bool,
    pub tool: String,
    pub output_dir: String,
    pub stdout: String,
    pub stderr: String,
}

/// A program to launch and the list of its arguments.
#[derive(Debug, Clone)]
pub struct Invocation {
    pub program: String,
    pub args: Vec<String>,
}

/// The decompilers a user can choose.
#[derive(Debug, Clone, Copy, PartialEq, Eq)]
pub enum Decompiler {
    Apktool,
    Jadx,
}

// ---------------------------------------------------------------------------
// Discovery
// ---------------------------------------------------------------------------

/// Program names under which `aapt` is looked up on `PATH`, in order.
pub open spec fn aapt_names() -> Seq<Seq<char>> {
    seq!["aapt"@, "aapt2"@, "aapt.exe"@, "aapt2.exe"@]
}

/// Paths at which `apktool.jar` is looked for, in order.
pub open spec fn apktool_paths() -> Seq<Seq<char>> {
    seq!["./tools/apktool.jar"@, "./apktool.jar"@, "apktool.jar"@]
}

/// Program names under which `jadx` is looked up on `PATH`, in order.
pub open spec fn jadx_names() -> Seq<Seq<char>> {
    seq!["jadx"@, "jadx.bat"@, "./tools/jadx/bin/jadx.bat"@, "./tools/jadx/bin/jadx"@]
}

fn strings(lits: &[&str]) -> (res: Vec<String>)
    ensures
        res.deep_view() == lits@.map_values(|s: &str| s@),
{
    let mut out: Vec<String> = Vec::new();
    let mut i: usize = 0;
    while i < lits.len()
        invariant
            i <= lits@.len(),
            out.deep_view() == lits@.take(i as int).map_values(|s: &str| s@),
        decreases lits@.len() - i,
    {
        let ghost before = out.deep_view();
        let item = String::from_str(lits[i]);
        let ghost iv = item@;
        out.push(item);
        assert(out.deep_view() =~= before.push(iv));
        i = i + 1;
        assert(lits@.take(i as int).map_values(|s: &str| s@) =~= lits@.take(i - 1).map_values(
            |s: &str| s@,
        ).push(lits@[i - 1]@));
    }
    assert(lits@.take(lits@.len() as int) =~= lits@);
    out
}

/// The program names under which `aapt` is looked up, in order.
pub fn aapt_candidates() -> (res: Vec<String>)
    ensures
        res.deep_view() == aapt_names(),
{
    let v = strings(&["aapt", "aapt2", "aapt.exe", "aapt2.exe"]);
    assert(v.deep_view() =~= aapt_names());
    v
}

/// The paths at which `apktool.jar` is looked for, in order.
pub fn apktool_candidates() -> (res: Vec<String>)
    ensures
        res.deep_view() == apktool_paths(),
{
    let v = strings(&["./tools/apktool.jar", "./apktool.jar", "apktool.jar"]);
    assert(v.deep_view() =~= apktool_paths());
    v
}

/// The program names under which `jadx` is looked up, in order.
pub fn jadx_candidates() -> (res: Vec<String>)
    ensures
        res.deep_view() == jadx_names(),
{
    let v = strings(&["jadx", "jadx.bat", "./tools/jadx/bin/jadx.bat", "./tools/jadx/bin/jadx"]);
    assert(v.deep_view() =~= jadx_names());
    v
}

/// The file names tried in each `PATH` directory for a program: the name
/// itself, then the name with `.exe`.
pub fn which_names(name: &str) -> (res: Vec<String>)
    ensures
        res.deep_view() == seq![name@, name@ + ".exe"@],
{
    let mut v: Vec<String> = Vec::new();
    v.push(String::from_str(name));
    let exe = String::from_str(name).concat(".exe");
    v.push(exe);
    assert(v.deep_view() =~= seq![name@, name@ + ".exe"@]);
    v
}

/// A candidate written as a path relative to a directory (`./...`), to be
/// looked for as a file next to the launch directory or the executable; the
/// others are program names, looked up on `PATH` only.
pub open spec fn is_local_path_spec(c: Seq<char>) -> bool {
    c.len() >= 2 && c[0] == '.' && c[1] == '/'
}

/// Whether a candidate is a relative path (`./...`) rather than a program name.
pub fn is_local_path(c: &str) -> (res: bool)
    ensures
        res == is_local_path_spec(c@),
{
    let v = crate::text::chars_of(c);
    v.len() >= 2 && v[0] == '.' && v[1] == '/'
}

/// The first found result among the probes, in order.
pub open spec fn first_some(probes: Seq<Option<Seq<char>>>) -> Option<Seq<char>>
    decreases probes.len(),
{
    if probes.len() == 0 {
        None
    } else if probes[0] is Some {
        probes[0]
    } else {
        first_some(probes.drop_first())
    }
}

/// The first probe that found something wins: the result is the probe at
/// the least index that is `Some`, and `None` exactly when every probe is
/// `None`. In particular a hit at the first candidate is taken.
pub proof fn lemma_first_some(probes: Seq<Option<Seq<char>>>, i: int)
    ensures
        first_some(probes) is None <==> (forall|j: int| 0 <= j < probes.len() ==> #[trigger] probes[j] is None),
        0 <= i < probes.len() && probes[i] is Some && (forall|j: int| 0 <= j < i ==> #[trigger] probes[j] is None)
            ==> first_some(probes) == probes[i],
        probes.len() > 0 && probes[0] is Some ==> first_some(probes) == probes[0],
    decreases probes.len(),
{
    if probes.len() > 0 {
        let rest = probes.drop_first();
        lemma_first_some(rest, i - 1);
        if probes[0] is None {
            assert forall|j: int| 0 <= j < rest.len() implies #[trigger] rest[j] == probes[j + 1] by {}
            if forall|j: int| 0 <= j < rest.len() ==> #[trigger] rest[j] is None {
                assert forall|j: int| 0 <= j < probes.len() implies #[trigger] probes[j] is None by {
                    if j > 0 {
                        assert(rest[j - 1] is None);
                    }
                }
            }
            if 0 < i < probes.len() && probes[i] is Some && (forall|j: int| 0 <= j < i ==> #[trigger] probes[j] is None) {
                assert forall|j: int| 0 <= j < i - 1 implies #[trigger] rest[j] is None by {
                    assert(probes[j + 1] is None);
                }
                assert(rest[i - 1] == probes[i]);
            }
            if first_some(rest) is None {
                assert forall|j: int| 0 <= j < probes.len() implies #[trigger] probes[j] is None by {
                    if j > 0 {
                        assert(rest[j - 1] == probes[j]);
                    }
                }
            }
        }
    }
}

/// The first result that is `Some`.
pub fn first_found(probes: &Vec<Option<String>>) -> (res: Option<String>)
    ensures
        res.deep_view() == first_some(probes.deep_view()),
{
    let ghost all = probes.deep_view();
    let mut i: usize = 0;
    assert(all.skip(0) =~= all);
    while i < probes.len()
        invariant
            i <= probes@.len(),
            all == probes.deep_view(),
            first_some(all) == first_some(all.skip(i as int)),
        decreases probes@.len() - i,
    {
        let ghost rest = all.skip(i as int);
        assert(rest.drop_first() =~= all.skip(i + 1));
        assert(rest[0] == probes@[i as int].deep_view());
        if probes[i].is_some() {
            return probes[i].clone();
        }
        i = i + 1;
    }
    None
}

/// Settle where the tools are, from what probing the host found for each
/// candidate (in candidate order): the first candidate found wins.
pub fn discover_tools(
    aapt_probes: &Vec<Option<String>>,
    apktool_probes: &Vec<Option<String>>,
    jadx_probes: &Vec<Option<String>>,
) -> (res: ToolConfig)
    ensures
        res.java@ == "java"@,
        res.aapt.deep_view() == first_some(aapt_probes.deep_view()),
        res.apktool_jar.deep_view() == first_some(apktool_probes.deep_view()),
        res.jadx.deep_view() == first_some(jadx_probes.deep_view()),
{
    let mut cfg = ToolConfig::default();
    cfg.aapt = first_found(aapt_probes);
    cfg.apktool_jar = first_found(apktool_probes);
    cfg.jadx = first_found(jadx_probes);
    cfg
}

// ---------------------------------------------------------------------------
// Invocations
// ---------------------------------------------------------------------------

/// The views of an invocation's program and arguments.
pub open spec fn invocation_is(inv: Invocation, program: Seq<char>, args: Seq<Seq<char>>) -> bool {
    inv.program@ == program && inv.args.deep_view() == args
}

pub open spec fn tool_error_is(e: EngineError, msg: Seq<char>) -> bool {
    e matches EngineError::Tool(m) && m@ == msg
}

/// The plan failed with a tool error carrying `msg`.
pub open spec fn fails_with(res: Result<Invocation, EngineError>, msg: Seq<char>) -> bool {
    res matches Err(e) && tool_error_is(e, msg)
}

/// The plan is to run `program` with exactly `args`.
pub open spec fn runs(res: Result<Invocation, EngineError>, program: Seq<char>, args: Seq<Seq<char>>) -> bool {
    res matches Ok(inv) && invocation_is(inv, program, args)
}

pub open spec fn aapt_missing_msg() -> Seq<char> {
    "aapt/aapt2 not found. Install Android SDK build-tools (provides aapt) or place aapt.exe on PATH; without it only AAPT1 APKs can be parsed."@
}

pub open spec fn apktool_missing_msg() -> Seq<char> {
    "apktool.jar not found. Drop apktool.jar into ./tools/ or set ToolConfig.apktool_jar."@
}

pub open spec fn jadx_missing_msg() -> Seq<char> {
    "jadx not found on PATH. Install jadx (https://github.com/skylot/jadx)."@
}

fn tool_error(msg: &str) -> (res: EngineError)
    ensures
        tool_error_is(res, msg@),
{
    EngineError::Tool(String::from_str(msg))
}

fn owned_list(items: &[&str]) -> (res: Vec<String>)
    ensures
        res.deep_view() == items@.map_values(|s: &str| s@),
{
    strings(items)
}

/// How to run `aapt dump badging <apk>`. `apk` is `None` when the APK path is
/// not valid Unicode.
pub fn aapt_invocation(cfg: &ToolConfig, apk: Option<&str>) -> (res: Result<Invocation, EngineError>)
    ensures
        cfg.aapt is None ==> fails_with(res, aapt_missing_msg()),
        cfg.aapt is Some && apk is None ==> fails_with(res, "invalid APK path"@),
        cfg.aapt is Some && apk is Some ==> runs(
            res,
            cfg.aapt.unwrap()@,
            seq!["dump"@, "badging"@, apk.unwrap()@],
        ),
{
    let aapt = match &cfg.aapt {
        Some(p) => p.clone(),
        None => {
            return Err(
                tool_error(
                    "aapt/aapt2 not found. Install Android SDK build-tools (provides aapt) or place aapt.exe on PATH; without it only AAPT1 APKs can be parsed.",
                ),
            )
        },
    };
    let apk = match apk {
        Some(a) => a,
        None => return Err(tool_error("invalid APK path")),
    };
    let args = owned_list(&["dump", "badging", apk]);
    assert(args.deep_view() =~= seq!["dump"@, "badging"@, apk@]);
    Ok(Invocation { program: aapt, args })
}

/// How to run `apktool d -f -o <out> <apk>` through `java -jar`.
pub fn apktool_invocation(cfg: &ToolConfig, apk: Option<&str>, out: Option<&str>) -> (res: Result<
    Invocation,
    EngineError,
>)
    ensures
        cfg.apktool_jar is None ==> fails_with(res, apktool_missing_msg()),
        cfg.apktool_jar is Some && apk is None ==> fails_with(res, "invalid APK path"@),
        cfg.apktool_jar is Some && apk is Some && out is None ==> fails_with(res, "invalid output path"@),
        cfg.apktool_jar is Some && apk is Some && out is Some ==> runs(
            res,
            cfg.java@,
            seq!["-jar"@, cfg.apktool_jar.unwrap()@, "d"@, "-f"@, "-o"@, out.unwrap()@, apk.unwrap()@],
        ),
{
    let jar = match &cfg.apktool_jar {
        Some(j) => j,
        None => {
            return Err(
                tool_error(
                    "apktool.jar not found. Drop apktool.jar into ./tools/ or set ToolConfig.apktool_jar.",
                ),
            )
        },
    };
    let apk = match apk {
        Some(a) => a,
        None => return Err(tool_error("invalid APK path")),
    };
    let out = match out {
        Some(o) => o,
        None => return Err(tool_error("invalid output path")),
    };
    let args = owned_list(&["-jar", jar.as_str(), "d", "-f", "-o", out, apk]);
    assert(args.deep_view() =~= seq!["-jar"@, jar@, "d"@, "-f"@, "-o"@, out@, apk@]);
    Ok(Invocation { program: cfg.java.clone(), args })
}

/// How to run `jadx -d <out> <apk>`.
pub fn jadx_invocation(cfg: &ToolConfig, apk: Option<&str>, out: Option<&str>) -> (res: Result<
    Invocation,
    EngineError,
>)
    ensures
        cfg.jadx is None ==> fails_with(res, jadx_missing_msg()),
        cfg.jadx is Some && apk is None ==> fails_with(res, "invalid APK path"@),
        cfg.jadx is Some && apk is Some && out is None ==> fails_with(res, "invalid output path"@),
        cfg.jadx is Some && apk is Some && out is Some ==> runs(
            res,
            cfg.jadx.unwrap()@,
            seq!["-d"@, out.unwrap()@, apk.unwrap()@],
        ),
{
    let jadx = match &cfg.jadx {
        Some(j) => j.clone(),
        None => {
            return Err(
                tool_error("jadx not found on PATH. Install jadx (https://github.com/skylot/jadx)."),
            )
        },
    };
    let apk = match apk {
        Some(a) => a,
        None => return Err(tool_error("invalid APK path")),
    };
    let out = match out {
        Some(o) => o,
        None => return Err(tool_error("invalid output path")),
    };
    let args = owned_list(&["-d", out, apk]);
    assert(args.deep_view() =~= seq!["-d"@, out@, apk@]);
    Ok(Invocation { program: jadx, args })
}

/// The error for a tool that could not be started.
pub fn launch_failure(tool: &str, detail: &str) -> (res: EngineError)
    ensures
        tool_error_is(res, "failed to launch "@ + tool@ + ": "@ + detail@),
{
    let mut s = String::from_str("failed to launch ");
    s.append(tool);
    s.append(": ");
    s.append(detail);
    EngineError::Tool(s)
}

/// What a finished decompiler run reports: its exit status, and its output
/// streams decoded leniently as UTF-8.
pub fn decompile_result(
    tool: &str,
    output_dir: &str,
    success: bool,
    stdout: &[u8],
    stderr: &[u8],
) -> (res: DecompileResult)
    ensures
        res.success == success,
        res.tool@ == tool@,
        res.output_dir@ == output_dir@,
        res.stdout@ == utf8_lossy(stdout@),
        res.stderr@ == utf8_lossy(stderr@),
{
    DecompileResult {
        success,
        tool: String::from_str(tool),
        output_dir: String::from_str(output_dir),
        stdout: string_from_utf8_lossy(stdout),
        stderr: string_from_utf8_lossy(stderr),
    }
}

/// The text of `aapt`'s standard output.
pub fn badging_text(stdout: &[u8]) -> (res: String)
    ensures
        res@ == utf8_lossy(stdout@),
{
    string_from_utf8_lossy(stdout)
}

/// The manifest a badging report gives, kept only when it names a package
/// (otherwise the built-in reader is to be tried instead).
pub fn manifest_from_badging(output: &str) -> (res: Option<ApkManifest>)
    ensures
        badging_spec(output@).package.len() > 0 ==> (res matches Some(m) && m@ == badging_spec(
            output@,
        )),
        badging_spec(output@).package.len() == 0 ==> res is None,
{
    let m = parse_aapt_badging(output);
    if m.package.as_str().is_empty() {
        None
    } else {
        Some(m)
    }
}

/// The first step in reading an APK's manifest.
#[derive(Debug, Clone, Copy, PartialEq, Eq)]
pub enum ManifestPlan {
    /// Run `aapt dump badging` and keep its report if it names a package.
    RunAapt,
    /// Read the archive with the built-in AXML reader.
    ReadArchive,
}

/// `aapt` is preferred whenever it was found; otherwise the built-in reader.
pub fn manifest_plan(cfg: &ToolConfig) -> (res: ManifestPlan)
    ensures
        res == (if cfg.aapt is Some {
            ManifestPlan::RunAapt
        } else {
            ManifestPlan::ReadArchive
        }),
{
    if cfg.aapt.is_some() {
        ManifestPlan::RunAapt
    } else {
        ManifestPlan::ReadArchive
    }
}

/// The decompiler a request names: `"jadx"` selects jadx, anything else apktool.
pub fn decompiler_for(tool: &str) -> (res: Decompiler)
    ensures
        res == (if tool@ == "jadx"@ {
            Decompiler::Jadx
        } else {
            Decompiler::Apktool
        }),
{
    if crate::text::str_is(tool, "jadx") {
        Decompiler::Jadx
    } else {
        Decompiler::Apktool
    }
}

} // verus!
