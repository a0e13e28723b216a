use dzp::compile::{compile_artifact, postprocess, script_contents};
use dzp::load::find_scripts_raw;

fn files(pairs: &[(&str, &str)]) -> Vec<(String, String)> {
    pairs.iter().map(|(p, t)| (p.to_string(), t.to_string())).collect()
}

#[test]
fn postprocess_strips_marker_and_swaps_quotes() {
    assert_eq!(postprocess("---\na: \"x\\y\""), "a: x\"y");
    assert_eq!(postprocess("---\n---\nplain"), "plain");
    assert_eq!(postprocess("no marker"), "no marker");
    assert_eq!(postprocess("say \\\"hi\\\""), "say \"hi\"");
    assert_eq!(postprocess(""), "");
}

#[test]
fn compiled_fragment_round_trips() {
    let frags = find_scripts_raw(files(&[("./a.dsc", "foo:\n  type: world\n")]));
    let parts = script_contents(&frags);
    assert_eq!(parts.len(), 1);
    assert_eq!(parts[0], "foo:\n  type: world\n");
}

#[test]
fn compiler_dedup_first_wins() {
    let frags = find_scripts_raw(files(&[
        ("./a.dsc", "foo:\n  type: world\n"),
        ("./b.dsc", "foo:\n  type: item\n"),
        ("./c.dsc", "bar:\n  type: task\n"),
    ]));
    let parts = script_contents(&frags);
    assert_eq!(parts.len(), 2);
    assert_eq!(parts[0], "foo:\n  type: world\n");
    assert_eq!(parts[1], "bar:\n  type: task\n");
}

#[test]
fn compiler_excludes_ignored_files() {
    let frags = find_scripts_raw(files(&[
        ("./c.dsc", "#:ignore\nsecret:\n  type: world\n"),
        ("./d.dsc", "bar:\n  type: item\n"),
    ]));
    let parts = script_contents(&frags);
    assert_eq!(parts.len(), 1);
    assert!(!parts[0].contains("secret"));
    let artifact = compile_artifact(&parts, "");
    assert!(!artifact.contains("secret"));
}

#[test]
fn artifact_layout() {
    let parts = vec!["one:\n  type: a".to_string(), "two:\n  type: b".to_string()];
    assert_eq!(
        compile_artifact(&parts, ""),
        "#: ignore\n\none:\n  type: a\ntwo:\n  type: b"
    );
    assert_eq!(
        compile_artifact(&parts, "#| hdr\n\n"),
        "#: ignore\n\n#| hdr\n\none:\n  type: a\ntwo:\n  type: b"
    );
    assert_eq!(compile_artifact(&Vec::new(), ""), "#: ignore\n\n");
}

#[test]
fn artifact_is_ignored_on_rescan() {
    let frags = find_scripts_raw(files(&[("./a.dsc", "foo:\n  type: world\n")]));
    let parts = script_contents(&frags);
    let artifact = compile_artifact(&parts, "");
    let again = find_scripts_raw(files(&[("./compiled.dsc", &artifact)]));
    assert_eq!(again.len(), 0);
}

#[test]
fn quoted_commands_are_restored() {
    let frags = find_scripts_raw(files(&[(
        "./a.dsc",
        "foo:\n  type: world\n  cmd: debug log \"hello\"\n",
    )]));
    let parts = script_contents(&frags);
    assert_eq!(parts.len(), 1);
    assert!(parts[0].contains("cmd: debug log \"hello\""));
}
