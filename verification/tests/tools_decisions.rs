//! Tool discovery, argument lists and run results.

use mobsf_engine::apk::EngineError;
use mobsf_engine::tools::{
    aapt_candidates, aapt_invocation, apktool_candidates, apktool_invocation, badging_text,
    decompile_result, decompiler_for, discover_tools, jadx_candidates, jadx_invocation,
    launch_failure, which_names, Decompiler, ToolConfig,
};

fn tool_msg(e: EngineError) -> String {
    match e {
        EngineError::Tool(m) => m,
        other => panic!("not a tool error: {:?}", other),
    }
}

fn full_config() -> ToolConfig {
    ToolConfig {
        java: "C:/java/bin/java.exe".to_string(),
        aapt: Some("/sdk/aapt2".to_string()),
        apktool_jar: Some("./tools/apktool.jar".to_string()),
        jadx: Some("/opt/jadx/bin/jadx".to_string()),
    }
}

#[test]
fn default_config_has_only_java() {
    let c = ToolConfig::default();
    assert_eq!(c.java, "java");
    assert!(c.aapt.is_none() && c.apktool_jar.is_none() && c.jadx.is_none());
}

#[test]
fn candidate_lists() {
    assert_eq!(aapt_candidates(), vec!["aapt", "aapt2", "aapt.exe", "aapt2.exe"]);
    assert_eq!(apktool_candidates(), vec!["./tools/apktool.jar", "./apktool.jar", "apktool.jar"]);
    assert_eq!(
        jadx_candidates(),
        vec!["jadx", "jadx.bat", "./tools/jadx/bin/jadx.bat", "./tools/jadx/bin/jadx"]
    );
    assert_eq!(which_names("jadx"), vec!["jadx", "jadx.exe"]);
}

#[test]
fn discovery_takes_first_hit() {
    let aapt = vec![None, Some("/sdk/aapt2".to_string()), Some("/x/aapt.exe".to_string()), None];
    let apktool = vec![None, Some("./apktool.jar".to_string()), Some("apktool.jar".to_string())];
    let jadx = vec![None, None, None, None];
    let c = discover_tools(&aapt, &apktool, &jadx);
    assert_eq!(c.java, "java");
    assert_eq!(c.aapt.as_deref(), Some("/sdk/aapt2"));
    assert_eq!(c.apktool_jar.as_deref(), Some("./apktool.jar"));
    assert_eq!(c.jadx, None);
    let none = discover_tools(&vec![], &vec![None, None, None], &vec![]);
    assert!(none.aapt.is_none() && none.apktool_jar.is_none());
}

#[test]
fn aapt_arguments_keep_the_path_whole() {
    let apk = "C:/My APKs/evil; rm -rf ~ $(x).apk";
    let inv = aapt_invocation(&full_config(), Some(apk)).unwrap();
    assert_eq!(inv.program, "/sdk/aapt2");
    assert_eq!(inv.args, vec!["dump", "badging", apk]);
}

#[test]
fn apktool_and_jadx_arguments() {
    let cfg = full_config();
    let inv = apktool_invocation(&cfg, Some("a b.apk"), Some("out dir")).unwrap();
    assert_eq!(inv.program, "C:/java/bin/java.exe");
    assert_eq!(inv.args, vec!["-jar", "./tools/apktool.jar", "d", "-f", "-o", "out dir", "a b.apk"]);
    let inv = jadx_invocation(&cfg, Some("a b.apk"), Some("out dir")).unwrap();
    assert_eq!(inv.program, "/opt/jadx/bin/jadx");
    assert_eq!(inv.args, vec!["-d", "out dir", "a b.apk"]);
}

#[test]
fn missing_tools_and_bad_paths() {
    let empty = ToolConfig::default();
    assert!(tool_msg(aapt_invocation(&empty, Some("x")).unwrap_err()).starts_with("aapt/aapt2 not found."));
    assert_eq!(
        tool_msg(apktool_invocation(&empty, None, None).unwrap_err()),
        "apktool.jar not found. Drop apktool.jar into ./tools/ or set ToolConfig.apktool_jar."
    );
    assert_eq!(
        tool_msg(jadx_invocation(&empty, Some("x"), Some("y")).unwrap_err()),
        "jadx not found on PATH. Install jadx (https://github.com/skylot/jadx)."
    );
    let cfg = full_config();
    assert_eq!(tool_msg(aapt_invocation(&cfg, None).unwrap_err()), "invalid APK path");
    assert_eq!(tool_msg(apktool_invocation(&cfg, None, Some("o")).unwrap_err()), "invalid APK path");
    assert_eq!(tool_msg(jadx_invocation(&cfg, Some("a"), None).unwrap_err()), "invalid output path");
}

#[test]
fn launch_failure_message() {
    assert_eq!(
        tool_msg(launch_failure("aapt", "file not found")),
        "failed to launch aapt: file not found"
    );
}

#[test]
fn run_results_decode_output_leniently() {
    let r = decompile_result("jadx", "out", false, b"ok \xff", b"");
    assert!(!r.success);
    assert_eq!(r.tool, "jadx");
    assert_eq!(r.output_dir, "out");
    assert_eq!(r.stdout, "ok \u{FFFD}");
    assert_eq!(r.stderr, "");
    assert_eq!(badging_text(b"package: name='p'\n"), "package: name='p'\n");
    assert_eq!(badging_text(b"\xc3\x28"), "\u{FFFD}(");
}

#[test]
fn decompiler_choice() {
    assert_eq!(decompiler_for("jadx"), Decompiler::Jadx);
    assert_eq!(decompiler_for("apktool"), Decompiler::Apktool);
    assert_eq!(decompiler_for("JADX"), Decompiler::Apktool);
}
