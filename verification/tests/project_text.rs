use dzp::cache::{cache_dir, cache_file, should_rebuild};
use dzp::load::find_scripts_raw;
use dzp::project::{readme, ProjectData, VersionData};
use dzp::registry::{find_scripts, get_script_types};
use dzp::text::u64_to_string;

fn files(pairs: &[(&str, &str)]) -> Vec<(String, String)> {
    pairs.iter().map(|(p, t)| (p.to_string(), t.to_string())).collect()
}

#[test]
fn version_rendering() {
    assert_eq!(VersionData::new(0, 1, 0).render(), "0.1.0");
    assert_eq!(VersionData::new(12, 0, 345).render(), "12.0.345");
    let v = VersionData {
        major: 1,
        minor: 2,
        patch: 3,
        pre: "alpha".to_string(),
        build: "7".to_string(),
    };
    assert_eq!(v.render(), "1.2.3-alpha+7");
}

#[test]
fn decimal_rendering() {
    assert_eq!(u64_to_string(0), "0");
    assert_eq!(u64_to_string(7), "7");
    assert_eq!(u64_to_string(1024), "1024");
    assert_eq!(u64_to_string(u64::MAX), "18446744073709551615");
}

#[test]
fn default_project_fields() {
    let p = ProjectData::from_name("proj".to_string());
    assert_eq!(p.name, "proj");
    assert_eq!(p.title(), "proj v0.1.0");
    assert_eq!(p.description_default(), "No description");
    assert_eq!(p.authors_default(), "None");
    assert_eq!(p.license, "MIT");
    assert_eq!(p.dependencies.as_deref(), Some(&[][..]));
}

#[test]
fn comment_header_layout() {
    let mut p = ProjectData::from_name("proj".to_string());
    p.authors = vec!["ann".to_string(), "bob".to_string()];
    assert_eq!(
        p.comment_header(),
        "#| proj v0.1.0\n#| No description\n#|\n#| @author ann, bob\n#| @license MIT"
    );
    assert_eq!(ProjectData::comment_key("author", "ann".to_string()), "#| @author ann");
}

#[test]
fn readme_document() {
    let mut p = ProjectData::from_name("proj".to_string());
    p.description = "A thing".to_string();
    p.repository = Some("https://example.com/r".to_string());
    let frags = find_scripts_raw(files(&[
        ("./a.dsc", "foo:\n  type: world\n"),
        ("./b.dsc", "bar:\n  type: world\n"),
        ("./c.dsc", "baz:\n  type: item\n"),
    ]));
    let reg = find_scripts(&frags);
    let types = get_script_types(&reg);
    let text = readme(&p, &types);
    assert!(text.starts_with("# proj\n\nA thing\n\n## About\n\n"));
    assert!(text.contains("git clone https://example.com/r\n"));
    assert!(text.contains("## Scripts\n\n"));
    assert!(text.contains("### World\n\n"));
    assert!(text.contains("- `foo`"));
    assert!(text.contains("- `bar`"));
    assert!(text.contains("### Item\n\n- `baz`"));
    assert!(text.contains("## License\n\nMIT \u{00C2}\u{00A9} (year) (name)"));
}

#[test]
fn grouping_assigns_every_script_once() {
    let frags = find_scripts_raw(files(&[
        ("./a.dsc", "foo:\n  type: world\n"),
        ("./b.dsc", "bar:\n  type: world\n"),
        ("./c.dsc", "baz:\n  type: item\n"),
    ]));
    let reg = find_scripts(&frags);
    let types = get_script_types(&reg);
    let mut all: Vec<String> = Vec::new();
    for (_, names) in &types {
        all.extend(names.iter().cloned());
    }
    all.sort();
    assert_eq!(all, vec!["bar".to_string(), "baz".to_string(), "foo".to_string()]);
    // groups come sorted by type, names within a group in registry order
    assert_eq!(types.len(), 2);
    assert_eq!(types[0].0, "item");
    assert_eq!(types[0].1, vec!["baz".to_string()]);
    assert_eq!(types[1].0, "world");
    assert_eq!(types[1].1, vec!["bar".to_string(), "foo".to_string()]);
}

#[test]
fn project_listing_text() {
    let mut p = ProjectData::from_name("proj".to_string());
    p.authors = vec!["ann".to_string()];
    p.repository = Some("https://example.com/r".to_string());
    p.dependencies = Some(vec!["lib".to_string(), "core".to_string()]);
    assert_eq!(
        p.print_text(),
        "proj v0.1.0\nNo description\n\nAuthor: ann\nLicense: MIT\nRepository: https://example.com/r\n\nDependencies:\n- lib\n- core\n"
    );
    let q = ProjectData::from_name("q".to_string());
    assert_eq!(q.print_text(), "q v0.1.0\nNo description\n\nAuthor: None\nLicense: MIT\n");
}

#[test]
fn license_text_lookup() {
    let p = ProjectData::from_name("proj".to_string());
    let mit = p.license_text();
    assert!(mit.contains("Permission is hereby granted"));
    let mut q = ProjectData::from_name("proj".to_string());
    q.license = "no-such-spdx-id".to_string();
    assert_eq!(q.license_text(), mit);
}

#[test]
fn author_lines_are_split_and_trimmed() {
    assert_eq!(
        dzp::text::parse_authors(" ann , bob,,  carol  "),
        vec!["ann".to_string(), "bob".to_string(), "carol".to_string()]
    );
    assert_eq!(dzp::text::parse_authors(""), Vec::<String>::new());
    assert_eq!(dzp::text::parse_authors(" , ,"), Vec::<String>::new());
    assert_eq!(dzp::text::parse_authors("solo"), vec!["solo".to_string()]);
}

#[test]
fn cache_policy_decision() {
    assert!(should_rebuild(true, true));
    assert!(should_rebuild(true, false));
    assert!(should_rebuild(false, false));
    assert!(!should_rebuild(false, true));
    assert_eq!(cache_dir(), ".dzp");
    assert_eq!(cache_file(), ".dzp/scripts");
}
