use cargo_dead::deps::{Dep, FilterOptions, Kind, get_dependency_names};
use cargo_dead::resolve::{analyze_package, resolve_unused};
use cargo_dead::usage::{UsedSet, aggregate_used};

fn dep(name: &str, kind: Kind) -> Dep {
    Dep { name: name.to_string(), kind }
}

fn no_filter() -> FilterOptions {
    FilterOptions { only_dev: false, only_build: false, only_regular: false }
}

fn used_of(names: &[&str]) -> UsedSet {
    let mut used = UsedSet::new();
    for name in names {
        used.insert(name.to_string());
    }
    used
}

#[test]
fn unused_detection_basic() {
    let deps = vec![dep("serde_json", Kind::Regular), dep("once_cell", Kind::Development)];
    let used = used_of(&["once_cell"]);
    let report = analyze_package(&deps, &used, &no_filter());
    assert_eq!(report.unused_regular, vec!["serde_json".to_string()]);
    assert!(report.unused_dev.is_empty());
    assert!(report.unused_build.is_empty());
}

#[test]
fn used_name_never_reported() {
    let deps = vec![
        dep("walkdir", Kind::Regular),
        dep("walkdir", Kind::Development),
        dep("walkdir", Kind::Build),
    ];
    let used = used_of(&["walkdir"]);
    let report = analyze_package(&deps, &used, &no_filter());
    assert!(report.unused_regular.is_empty());
    assert!(report.unused_dev.is_empty());
    assert!(report.unused_build.is_empty());
}

#[test]
fn kind_isolation_only_dev() {
    let deps = vec![
        dep("serde_json", Kind::Regular),
        dep("once_cell", Kind::Development),
        dep("cc", Kind::Build),
    ];
    let used = used_of(&[]);
    let filter = FilterOptions { only_dev: true, only_build: false, only_regular: false };
    let report = analyze_package(&deps, &used, &filter);
    assert!(report.unused_regular.is_empty());
    assert_eq!(report.unused_dev, vec!["once_cell".to_string()]);
    assert!(report.unused_build.is_empty());
}

#[test]
fn two_flags_leave_third_kind_out() {
    let deps = vec![
        dep("serde_json", Kind::Regular),
        dep("once_cell", Kind::Development),
        dep("cc", Kind::Build),
    ];
    let used = used_of(&[]);
    let filter = FilterOptions { only_dev: true, only_build: true, only_regular: false };
    let report = analyze_package(&deps, &used, &filter);
    assert!(report.unused_regular.is_empty());
    assert_eq!(report.unused_dev, vec!["once_cell".to_string()]);
    assert_eq!(report.unused_build, vec!["cc".to_string()]);
}

#[test]
fn declaration_order_kept() {
    let deps = vec![
        dep("zeta", Kind::Regular),
        dep("alpha", Kind::Regular),
        dep("mid", Kind::Regular),
    ];
    let used = used_of(&["mid"]);
    let report = analyze_package(&deps, &used, &no_filter());
    assert_eq!(report.unused_regular, vec!["zeta".to_string(), "alpha".to_string()]);
}

#[test]
fn get_dependency_names_splits_kinds() {
    let deps = vec![
        dep("a", Kind::Regular),
        dep("b", Kind::Development),
        dep("c", Kind::Regular),
        dep("d", Kind::Build),
    ];
    assert_eq!(
        get_dependency_names(&deps, Kind::Regular),
        vec!["a".to_string(), "c".to_string()]
    );
    assert_eq!(get_dependency_names(&deps, Kind::Development), vec!["b".to_string()]);
    assert_eq!(get_dependency_names(&deps, Kind::Build), vec!["d".to_string()]);
}

#[test]
fn resolve_unused_exact_matching_only() {
    let declared = vec!["serde-json".to_string(), "serde_json".to_string()];
    let used = used_of(&["serde_json"]);
    let unused = resolve_unused(&declared, &used);
    assert_eq!(unused, vec!["serde-json".to_string()]);
}

#[test]
fn aggregate_unions_all_files() {
    let files = vec![
        vec!["serde".to_string()],
        vec![],
        vec!["walkdir".to_string(), "serde".to_string()],
    ];
    let used = aggregate_used(&files);
    assert!(used.contains(&"serde".to_string()));
    assert!(used.contains(&"walkdir".to_string()));
    assert!(!used.contains(&"toml".to_string()));
}

#[test]
fn used_set_membership() {
    let mut used = UsedSet::new();
    assert!(!used.contains(&"syn".to_string()));
    used.insert("syn".to_string());
    used.insert("syn".to_string());
    assert!(used.contains(&"syn".to_string()));
    assert!(!used.contains(&"sy".to_string()));
}

#[test]
fn empty_declarations_report_nothing() {
    let deps: Vec<Dep> = Vec::new();
    let used = used_of(&["anything"]);
    let report = analyze_package(&deps, &used, &no_filter());
    assert!(report.unused_regular.is_empty());
    assert!(report.unused_dev.is_empty());
    assert!(report.unused_build.is_empty());
}
