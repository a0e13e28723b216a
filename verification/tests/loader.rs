use dzp::load::find_scripts_raw;
use dzp::registry::find_scripts;
use dzp::text::is_ignored;
use dzp::yaml::Yaml;

fn files(pairs: &[(&str, &str)]) -> Vec<(String, String)> {
    pairs.iter().map(|(p, t)| (p.to_string(), t.to_string())).collect()
}

#[test]
fn ignore_test_strips_all_whitespace() {
    assert!(is_ignored("#:ignore"));
    assert!(is_ignored("  #: ignore\nfoo:\n  type: world\n"));
    assert!(is_ignored("\t# : i g n o r e rest"));
    assert!(!is_ignored("# ignore"));
    assert!(!is_ignored("foo:\n  type: world\n"));
    assert!(!is_ignored(""));
    // the whole Unicode White_Space set is stripped, not only ASCII spaces
    assert!(is_ignored("\u{0B}#:ignore"));
    assert!(is_ignored("\u{A0}# \u{2003}: ignore rest"));
}

#[test]
fn over_long_file_is_skipped_whole() {
    let mut big = String::from("foo:\n  type: world\n# ");
    for _ in 0..dzp::load::MAX_DEFINITION_LEN {
        big.push('x');
    }
    let frags = find_scripts_raw(files(&[("./big.dsc", &big), ("./ok.dsc", "bar:\n  type: item\n")]));
    assert_eq!(frags.len(), 1);
    assert_eq!(frags[0].name, "bar");
}

#[test]
fn loader_flattens_each_script() {
    let frags = find_scripts_raw(files(&[(
        "./a.dsc",
        "foo:\n  type: world\nbar:\n  type: item\n",
    )]));
    assert_eq!(frags.len(), 2);
    // BTreeMap order: bar before foo
    assert_eq!(frags[0].name, "bar");
    assert_eq!(frags[1].name, "foo");
    assert_eq!(frags[0].path, "./a.dsc");
    assert_eq!(frags[1].path, "./a.dsc");
}

#[test]
fn loader_skips_ignored_files_entirely() {
    let frags = find_scripts_raw(files(&[
        ("./c.dsc", "#:ignore\nfoo:\n  type: world\n"),
        ("./d.dsc", "bar:\n  type: item\n"),
    ]));
    assert_eq!(frags.len(), 1);
    assert_eq!(frags[0].name, "bar");
}

#[test]
fn loader_skips_unparsable_files() {
    let frags = find_scripts_raw(files(&[
        ("./bad.dsc", ": not : valid : yaml : ["),
        ("./ok.dsc", "foo:\n  type: world\n"),
    ]));
    assert_eq!(frags.len(), 1);
    assert_eq!(frags[0].name, "foo");
}

#[test]
fn loader_keeps_field_values() {
    let frags = find_scripts_raw(files(&[(
        "./a.dsc",
        "foo:\n  type: world\n  events:\n  - one\n  - two\n  flag: true\n",
    )]));
    assert_eq!(frags.len(), 1);
    let contents = &frags[0].contents;
    assert_eq!(contents.len(), 3);
    // BTreeMap sorts field names
    assert_eq!(contents[0].0, "events");
    assert!(matches!(&contents[0].1, Yaml::List(items) if items.len() == 2));
    assert_eq!(contents[1].0, "flag");
    assert!(matches!(contents[1].1, Yaml::Bool(true)));
    assert_eq!(contents[2].0, "type");
    assert!(matches!(&contents[2].1, Yaml::Str(s) if s == "world"));
}

#[test]
fn workspace_with_two_files_registers_both() {
    let frags = find_scripts_raw(files(&[
        ("./a.dsc", "foo:\n  type: world\n"),
        ("./b.dsc", "bar:\n  type: item\n"),
    ]));
    let reg = find_scripts(&frags);
    assert_eq!(reg.len(), 2);
    let foo = reg.get("foo").expect("foo registered");
    assert_eq!(foo.script_type, "world");
    assert_eq!(foo.path, "./a.dsc");
    assert_eq!(foo.keys, vec!["type".to_string()]);
    let bar = reg.get("bar").expect("bar registered");
    assert_eq!(bar.script_type, "item");
    assert_eq!(bar.path, "./b.dsc");
}

#[test]
fn ignored_file_contributes_nothing() {
    let frags = find_scripts_raw(files(&[("./c.dsc", "#:ignore\nfoo:\n  type: world\n")]));
    let reg = find_scripts(&frags);
    assert_eq!(reg.len(), 0);
    assert!(reg.get("foo").is_none());
}
