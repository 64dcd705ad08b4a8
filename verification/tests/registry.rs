use depbank::construct_dependency_path;
use depbank::is_dependency_available;
use depbank::is_dependency_available_by_parts;
use depbank::registry::select_latest;
use depbank::registry_source_dir;
use depbank::resolve_dependency_paths;
use depbank::resolve_registry_path;
use depbank::Dependency;
use depbank::DirEntry;
use depbank::ErrorKind;
use depbank::IndexDir;
use depbank::NameMap;
use depbank::Registry;
use depbank::SourceDir;

fn index(name: &str, is_dir: bool, modified: Option<i128>) -> IndexDir {
    IndexDir { name: name.to_string(), is_dir, modified }
}

#[test]
fn test_construct_dependency_path() {
    let registry_path = "/home/user/.cargo/registry/src/index.crates.io-12345";
    let dependency_name = "serde";
    let dependency_version = "1.0.150";

    let expected_path =
        String::from("/home/user/.cargo/registry/src/index.crates.io-12345/serde-1.0.150");
    let actual_path = construct_dependency_path(registry_path, dependency_name, dependency_version);

    assert_eq!(actual_path, expected_path);
}

#[test]
fn test_is_dependency_available() {
    let registry = Registry::new("/non/existent/path", Vec::new());
    assert!(!is_dependency_available(&registry, &Dependency::new("some-dep", "1.0.0")));
}

#[test]
fn dependency_with_a_directory_is_available() {
    let registry = Registry::new(
        "/reg",
        vec![DirEntry::unvisited_dir("some-dep-1.0.0"), DirEntry::file("other-2.0.0")],
    );
    assert!(is_dependency_available(&registry, &Dependency::new("some-dep", "1.0.0")));
    assert!(is_dependency_available_by_parts(&registry, "some-dep", "1.0.0"));
    assert!(Dependency::new("some-dep", "1.0.0").is_available_in_registry(&registry));
}

#[test]
fn file_in_place_of_the_directory_is_not_available() {
    let registry = Registry::new("/reg", vec![DirEntry::file("other-2.0.0")]);
    assert!(!is_dependency_available_by_parts(&registry, "other", "2.0.0"));
}

#[test]
fn other_version_is_not_available() {
    let registry = Registry::new("/reg", vec![DirEntry::unvisited_dir("some-dep-1.0.0")]);
    assert!(!is_dependency_available_by_parts(&registry, "some-dep", "1.0.1"));
    assert!(!is_dependency_available_by_parts(&registry, "some", "dep-1.0.0-x"));
}

#[test]
fn registry_path_of_a_dependency() {
    let dep = Dependency::new("anyhow", "1.0.75");
    assert_eq!(dep.get_registry_path("/reg/src/index"), "/reg/src/index/anyhow-1.0.75");
    assert_eq!(dep.get_registry_path("/reg/src/index/"), "/reg/src/index/anyhow-1.0.75");
    assert_eq!(dep.get_registry_path(""), "anyhow-1.0.75");
}

#[test]
fn test_resolve_registry_path_with_mock() {
    let source = SourceDir::Entries(vec![
        index("index.crates.io-old", true, Some(1_000)),
        index("index.crates.io-new", true, Some(1_010)),
    ]);
    let located = resolve_registry_path(Some("/home/mock"), &source).unwrap();
    assert_eq!(located, "/home/mock/.cargo/registry/src/index.crates.io-new");
}

#[test]
fn registry_source_dir_lies_below_home() {
    assert_eq!(registry_source_dir("/home/user"), "/home/user/.cargo/registry/src");
}

#[test]
fn unknown_home_is_not_found() {
    let error = resolve_registry_path(None, &SourceDir::Entries(Vec::new())).unwrap_err();
    assert_eq!(error.kind, ErrorKind::NotFound);
}

#[test]
fn missing_source_dir_is_not_found() {
    let error = resolve_registry_path(Some("/home/u"), &SourceDir::Missing).unwrap_err();
    assert_eq!(error.kind, ErrorKind::NotFound);
    assert_eq!(error.path, "/home/u/.cargo/registry/src");
}

#[test]
fn unreadable_source_dir_is_an_io_error() {
    let source = SourceDir::Unreadable("permission denied".to_string());
    let error = resolve_registry_path(Some("/home/u"), &source).unwrap_err();
    assert_eq!(error.kind, ErrorKind::IoError);
    assert_eq!(error.cause, "permission denied");
}

#[test]
fn source_dir_without_directories_is_not_found() {
    let source = SourceDir::Entries(vec![
        index("README", false, Some(5)),
        index("index-without-time", true, None),
    ]);
    let error = resolve_registry_path(Some("/home/u"), &source).unwrap_err();
    assert_eq!(error.kind, ErrorKind::NotFound);
    assert_eq!(error.path, "/home/u/.cargo/registry/src");
}

#[test]
fn first_seen_wins_on_equal_times() {
    let entries = vec![
        index("a", true, Some(7)),
        index("b", true, Some(9)),
        index("c", true, Some(9)),
        index("d", false, Some(100)),
        index("e", true, None),
    ];
    assert_eq!(select_latest(&entries), Some(1));
    let located = resolve_registry_path(Some("/h"), &SourceDir::Entries(entries)).unwrap();
    assert_eq!(located, "/h/.cargo/registry/src/b");
}

#[test]
fn times_before_the_epoch_compare_as_numbers() {
    let entries = vec![index("a", true, Some(-5)), index("b", true, Some(-9))];
    assert_eq!(select_latest(&entries), Some(0));
}

#[test]
fn no_entries_no_choice() {
    assert_eq!(select_latest(&Vec::new()), None);
}

#[test]
fn paths_of_available_dependencies_only() {
    let registry = Registry::new(
        "/reg",
        vec![DirEntry::unvisited_dir("serde-1.0.150"), DirEntry::unvisited_dir("toml-0.8.4")],
    );
    let mut wanted: NameMap<String> = NameMap::new();
    wanted.insert("serde", "1.0.150".to_string());
    wanted.insert("absent", "0.1.0".to_string());
    wanted.insert("toml", "0.8.4".to_string());

    let paths = resolve_dependency_paths(&wanted, &registry);

    assert_eq!(paths.len(), 2);
    assert_eq!(paths.get("serde"), Some(&"/reg/serde-1.0.150".to_string()));
    assert_eq!(paths.get("toml"), Some(&"/reg/toml-0.8.4".to_string()));
    assert_eq!(paths.get("absent"), None);
    assert_eq!(paths.key_at(0), "serde");
    assert_eq!(paths.key_at(1), "toml");
}
