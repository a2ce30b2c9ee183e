use cargo_dead::deps::{Dep, FilterOptions, Kind};
use cargo_dead::manifest::{apply_fix, edit_manifest};
use cargo_dead::resolve::{Report, analyze_package};
use cargo_dead::usage::UsedSet;

const MANIFEST: &str = "# demo package\n[package]\nname = \"demo\"\n\n[dependencies]\nserde_json = \"1.0\"\n\n[dev-dependencies]\nonce_cell = \"1.4\"\n";

fn report(regular: &[&str], dev: &[&str], build: &[&str]) -> Report {
    Report {
        unused_regular: regular.iter().map(|s| s.to_string()).collect(),
        unused_dev: dev.iter().map(|s| s.to_string()).collect(),
        unused_build: build.iter().map(|s| s.to_string()).collect(),
    }
}

#[test]
fn fix_removes_only_unused() {
    let deps = vec![
        Dep { name: "serde_json".to_string(), kind: Kind::Regular },
        Dep { name: "once_cell".to_string(), kind: Kind::Development },
    ];
    let mut used = UsedSet::new();
    used.insert("once_cell".to_string());
    let filter = FilterOptions { only_dev: false, only_build: false, only_regular: false };
    let report = analyze_package(&deps, &used, &filter);
    assert_eq!(report.unused_regular, vec!["serde_json".to_string()]);

    let rewritten = edit_manifest(MANIFEST, &report).unwrap().unwrap();
    assert!(!rewritten.contains("serde_json"));
    assert!(rewritten.contains("[dependencies]"));
    assert!(rewritten.contains("once_cell = \"1.4\""));
    assert!(rewritten.contains("# demo package"));
    assert!(rewritten.contains("name = \"demo\""));
}

#[test]
fn fix_output_is_minimal_diff() {
    let expected = "# demo package\n[package]\nname = \"demo\"\n\n[dependencies]\n\n[dev-dependencies]\nonce_cell = \"1.4\"\n";
    let rewritten = edit_manifest(MANIFEST, &report(&["serde_json"], &[], &[])).unwrap().unwrap();
    assert_eq!(rewritten, expected);
}

#[test]
fn noop_report_returns_none() {
    let r = edit_manifest(MANIFEST, &report(&[], &[], &[])).unwrap();
    assert!(r.is_none());
}

#[test]
fn absent_key_is_noop() {
    let r = edit_manifest(MANIFEST, &report(&["not_declared"], &[], &[])).unwrap();
    assert!(r.is_none());
}

#[test]
fn missing_table_is_skipped() {
    let r = edit_manifest(MANIFEST, &report(&[], &[], &["cc"])).unwrap();
    assert!(r.is_none());
}

#[test]
fn inline_table_is_skipped() {
    let text = "[package]\nname = \"demo\"\ndependencies = { serde_json = \"1.0\" }\n";
    let r = edit_manifest(text, &report(&["serde_json"], &[], &[])).unwrap();
    assert!(r.is_none());
}

#[test]
fn parse_error_is_fatal() {
    let err = edit_manifest("not == [valid\ntoml", &report(&[], &[], &[])).unwrap_err();
    assert!(!err.message.is_empty());
}

#[test]
fn fix_twice_changes_nothing_more() {
    let deps = vec![
        Dep { name: "serde_json".to_string(), kind: Kind::Regular },
        Dep { name: "once_cell".to_string(), kind: Kind::Development },
    ];
    let mut used = UsedSet::new();
    used.insert("once_cell".to_string());
    let filter = FilterOptions { only_dev: false, only_build: false, only_regular: false };

    let first = analyze_package(&deps, &used, &filter);
    let rewritten = edit_manifest(MANIFEST, &first).unwrap().unwrap();

    let kept: Vec<Dep> = deps
        .into_iter()
        .filter(|d| !(d.kind == Kind::Regular && first.unused_regular.contains(&d.name)))
        .collect();
    let second = analyze_package(&kept, &used, &filter);
    assert!(second.unused_regular.is_empty());
    assert!(second.unused_dev.is_empty());
    assert!(second.unused_build.is_empty());
    assert!(edit_manifest(&rewritten, &second).unwrap().is_none());
}

#[test]
fn kind_filter_guards_other_tables() {
    let filter_dev_only = FilterOptions { only_dev: true, only_build: false, only_regular: false };
    let deps = vec![Dep { name: "serde_json".to_string(), kind: Kind::Regular }];
    let used = UsedSet::new();
    let report = analyze_package(&deps, &used, &filter_dev_only);
    assert!(report.unused_regular.is_empty());
    let r = edit_manifest(MANIFEST, &report).unwrap();
    assert!(r.is_none());
}

#[test]
fn apply_fix_on_document() {
    let mut doc: toml_edit::DocumentMut = MANIFEST.parse().unwrap();
    let changed = apply_fix(&mut doc, &report(&["serde_json"], &["once_cell"], &[]));
    assert!(changed);
    let out = doc.to_string();
    assert!(!out.contains("serde_json"));
    assert!(!out.contains("once_cell"));
    assert!(out.contains("[package]"));

    let mut doc2: toml_edit::DocumentMut = MANIFEST.parse().unwrap();
    let changed2 = apply_fix(&mut doc2, &report(&[], &[], &[]));
    assert!(!changed2);
    assert_eq!(doc2.to_string(), MANIFEST);
}
