use dzp::load::find_scripts_raw;
use dzp::registry::{find_scripts, validation_errors};
use dzp::script::{DocArg, Script, ValidationErrorKind};
use dzp::yaml::Yaml;

fn files(pairs: &[(&str, &str)]) -> Vec<(String, String)> {
    pairs.iter().map(|(p, t)| (p.to_string(), t.to_string())).collect()
}

#[test]
fn missing_type_is_rejected() {
    let contents = vec![("events".to_string(), Yaml::Str("x".to_string()))];
    let r = Script::from("./a.dsc".to_string(), &contents);
    let e = r.err().expect("rejected");
    assert_eq!(e.path, "./a.dsc");
    assert!(matches!(e.kind, ValidationErrorKind::MissingType));
    assert_eq!(e.message(), "Script does not contain a 'type' key.");
}

#[test]
fn non_string_type_is_rejected() {
    let contents = vec![("type".to_string(), Yaml::Bool(true))];
    let e = Script::from("./a.dsc".to_string(), &contents).err().expect("rejected");
    assert!(matches!(e.kind, ValidationErrorKind::InvalidType));
    assert_eq!(e.message(), "Failed to parse 'type' key.");
}

#[test]
fn valid_entry_keeps_all_keys() {
    let contents = vec![
        ("events".to_string(), Yaml::Null),
        ("type".to_string(), Yaml::Str("task".to_string())),
    ];
    let s = Script::from("./a.dsc".to_string(), &contents).ok().expect("accepted");
    assert_eq!(s.script_type, "task");
    assert_eq!(s.keys, vec!["events".to_string(), "type".to_string()]);
    assert_eq!(s.path, "./a.dsc");
    assert!(s.doc.is_none());
}

#[test]
fn invalid_entry_is_isolated() {
    let frags = find_scripts_raw(files(&[(
        "./mixed.dsc",
        "bad:\n  keys: 1\ngood:\n  type: world\n",
    )]));
    let reg = find_scripts(&frags);
    assert_eq!(reg.len(), 1);
    assert!(reg.get("good").is_some());
    assert!(reg.get("bad").is_none());
    let errs = validation_errors(&frags);
    assert_eq!(errs.len(), 1);
    assert_eq!(errs[0].path, "./mixed.dsc");
    assert!(matches!(errs[0].kind, ValidationErrorKind::MissingType));
}

#[test]
fn duplicate_name_later_file_wins() {
    let frags = find_scripts_raw(files(&[
        ("./a.dsc", "foo:\n  type: world\n"),
        ("./b.dsc", "foo:\n  type: item\n"),
    ]));
    let reg = find_scripts(&frags);
    assert_eq!(reg.len(), 1);
    let foo = reg.get("foo").expect("foo registered");
    assert_eq!(foo.script_type, "item");
    assert_eq!(foo.path, "./b.dsc");
}

#[test]
fn forced_rebuild_is_idempotent() {
    let fs = files(&[
        ("./a.dsc", "foo:\n  type: world\n  events: x\n"),
        ("./b.dsc", "bar:\n  type: item\n"),
    ]);
    let r1 = find_scripts(&find_scripts_raw(fs.clone()));
    let r2 = find_scripts(&find_scripts_raw(fs));
    assert_eq!(r1.len(), r2.len());
    let e1 = r1.entries();
    let e2 = r2.entries();
    for i in 0..e1.len() {
        assert_eq!(e1[i].0, e2[i].0);
        assert_eq!(e1[i].1.path, e2[i].1.path);
        assert_eq!(e1[i].1.script_type, e2[i].1.script_type);
        assert_eq!(e1[i].1.keys, e2[i].1.keys);
    }
}

#[test]
fn doc_block_is_read_from_data_key() {
    let frags = find_scripts_raw(files(&[(
        "./a.dsc",
        "s:\n  type: task\n  data:\n    desc: hello\n    uses:\n    - a\n    - b\n    determine:\n      type: bool\n      about: whether\n",
    )]));
    let reg = find_scripts(&frags);
    let s = reg.get("s").expect("registered");
    let doc = s.doc.as_ref().expect("doc present");
    assert_eq!(doc.description.as_deref(), Some("hello"));
    assert_eq!(doc.uses.as_ref().unwrap(), &vec!["a".to_string(), "b".to_string()]);
    let det = doc.determine.as_ref().expect("determine present");
    assert_eq!(det.arg_type.as_deref(), Some("bool"));
    assert_eq!(det.description.as_deref(), Some("whether"));
    assert!(doc.deprecated.is_none());
    assert!(doc.defs.is_none());
}

#[test]
fn malformed_doc_block_is_silently_dropped() {
    let frags = find_scripts_raw(files(&[(
        "./a.dsc",
        "s:\n  type: task\n  data: 5\n",
    )]));
    let reg = find_scripts(&frags);
    let s = reg.get("s").expect("still registered");
    assert!(s.doc.is_none());
}

#[test]
fn doc_falls_back_to_doc_key() {
    let frags = find_scripts_raw(files(&[(
        "./a.dsc",
        "s:\n  type: task\n  doc:\n    about: fallback\n",
    )]));
    let reg = find_scripts(&frags);
    let s = reg.get("s").expect("registered");
    assert_eq!(s.doc.as_ref().unwrap().description.as_deref(), Some("fallback"));
}

#[test]
fn numeric_type_is_invalid() {
    let frags = find_scripts_raw(files(&[("./n.dsc", "s:\n  type: 5\n")]));
    let reg = find_scripts(&frags);
    assert_eq!(reg.len(), 0);
    let errs = validation_errors(&frags);
    assert_eq!(errs.len(), 1);
    assert!(matches!(errs[0].kind, ValidationErrorKind::InvalidType));
}

#[test]
fn doc_defs_and_flags_are_read() {
    let frags = find_scripts_raw(files(&[(
        "./a.dsc",
        "s:\n  type: task\n  data:\n    deprecated: true\n    usage: run it\n    defs:\n      speed:\n        type: int\n        desc: how fast\n",
    )]));
    let reg = find_scripts(&frags);
    let s = reg.get("s").expect("registered");
    let doc = s.doc.as_ref().expect("doc present");
    assert_eq!(doc.deprecated, Some(true));
    assert_eq!(doc.usage.as_deref(), Some("run it"));
    let defs = doc.defs.as_ref().expect("defs present");
    assert_eq!(defs.len(), 1);
    assert_eq!(defs[0].0, "speed");
    assert_eq!(defs[0].1.arg_type.as_deref(), Some("int"));
    assert_eq!(defs[0].1.description.as_deref(), Some("how fast"));
}

#[test]
fn doc_with_wrong_shape_in_uses_is_dropped() {
    let frags = find_scripts_raw(files(&[(
        "./a.dsc",
        "s:\n  type: task\n  data:\n    uses:\n    - ok\n    - 7\n",
    )]));
    let reg = find_scripts(&frags);
    let s = reg.get("s").expect("registered");
    assert!(s.doc.is_none());
}

#[test]
fn registry_listing_order() {
    let frags = find_scripts_raw(files(&[
        ("./b.dsc", "beta:\n  type: world\n"),
        ("./a.dsc", "alpha:\n  type: world\n"),
    ]));
    let reg = find_scripts(&frags);
    // iteration is sorted by script name, whatever the fold order was
    assert_eq!(reg.names(), vec!["alpha".to_string(), "beta".to_string()]);
    let entries = reg.entries();
    assert_eq!(entries.len(), 2);
    assert_eq!(entries[0].0, "alpha");
    assert_eq!(entries[1].0, "beta");
}

#[test]
fn doc_arg_display_forms() {
    let arg = DocArg {
        description: Some("does things".to_string()),
        arg_type: Some("bool".to_string()),
    };
    assert_eq!(
        DocArg::display(Some(arg.clone()), Some("flag".to_string()), ":"),
        Some("flag [bool]: does things".to_string())
    );
    assert_eq!(
        DocArg::display(Some(DocArg { description: None, arg_type: Some("int".to_string()) }), None, " -"),
        Some("[int]".to_string())
    );
    assert_eq!(
        DocArg::display(Some(DocArg { description: Some("d".to_string()), arg_type: None }), None, " -"),
        Some(" - d".to_string())
    );
    assert_eq!(DocArg::display(None, Some("n".to_string()), ":"), None);
}

#[test]
fn doc_listing_text() {
    let frags = find_scripts_raw(files(&[(
        "./a.dsc",
        "s:\n  type: task\n  data:\n    deprecated: true\n    desc: a helper\n    uses:\n    - other\n    usage: run s\n    defs:\n      speed:\n        type: int\n        desc: how fast\n",
    )]));
    let reg = find_scripts(&frags);
    let doc = reg.get("s").unwrap().doc.as_ref().unwrap().clone();
    assert_eq!(
        doc.print_text(),
        "WARNING: This script is deprecated!\n\nDescription: a helper\nUses: other\n\nUsage:\nrun s\n\nDefs:\n- speed [int]: how fast\n"
    );
}

#[test]
fn script_listing_text() {
    let contents = vec![
        ("events".to_string(), Yaml::Null),
        ("type".to_string(), Yaml::Str("task".to_string())),
    ];
    let s = Script::from("./a.dsc".to_string(), &contents).ok().unwrap();
    assert_eq!(
        s.display_text("foo"),
        "Name: foo\nType: task\nPath: ./a.dsc\nKeys: events, type"
    );
    let printed = dzp::script::print_script("foo", &"./a.dsc".to_string(), &contents);
    assert_eq!(printed.ok().unwrap(), "Name: foo\nType: task\nPath: ./a.dsc\nKeys: events, type");
}
