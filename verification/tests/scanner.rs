use depbank::find_cargo_toml_files;
use depbank::scanner::descends_into;
use depbank::DirEntry;
use depbank::DirListing;
use depbank::ErrorKind;
use depbank::FsNode;

fn dir_node(entries: Vec<DirEntry>) -> FsNode {
    FsNode::Directory(DirListing::Entries(entries))
}

fn unreadable_dir(name: &str, cause: &str) -> DirEntry {
    DirEntry {
        name: name.to_string(),
        node: FsNode::Directory(DirListing::Unreadable(cause.to_string())),
    }
}

#[test]
fn test_find_cargo_toml_files() {
    let nested = DirEntry::dir("nested_project", vec![DirEntry::file("Cargo.toml")]);
    let sub = DirEntry::dir("sub_project", vec![DirEntry::file("Cargo.toml"), nested]);
    let hidden = DirEntry::dir(".hidden", vec![DirEntry::file("Cargo.toml")]);
    let root = dir_node(vec![DirEntry::file("Cargo.toml"), sub, hidden]);

    let cargo_toml_files = find_cargo_toml_files("/tmp/project", &root).unwrap();

    assert_eq!(cargo_toml_files.len(), 3);
    assert!(cargo_toml_files.contains(&"/tmp/project/Cargo.toml".to_string()));
    assert!(cargo_toml_files.contains(&"/tmp/project/sub_project/Cargo.toml".to_string()));
    assert!(cargo_toml_files
        .contains(&"/tmp/project/sub_project/nested_project/Cargo.toml".to_string()));
    assert!(!cargo_toml_files.contains(&"/tmp/project/.hidden/Cargo.toml".to_string()));
}

#[test]
fn test_find_cargo_toml_files_nonexistent_dir() {
    let result = find_cargo_toml_files("/nonexistent/directory", &FsNode::Missing);
    assert!(result.is_err());
}

#[test]
fn test_find_cargo_toml_files_file_as_dir() {
    let result = find_cargo_toml_files("/tmp/project/file.txt", &FsNode::File);
    assert!(result.is_err());
}

#[test]
fn missing_root_is_not_found_and_names_the_root() {
    let error = find_cargo_toml_files("/nonexistent/directory", &FsNode::Missing).unwrap_err();
    assert_eq!(error.kind, ErrorKind::NotFound);
    assert_eq!(error.path, "/nonexistent/directory");
}

#[test]
fn file_root_is_not_a_directory() {
    let error = find_cargo_toml_files("/tmp/file.txt", &FsNode::File).unwrap_err();
    assert_eq!(error.kind, ErrorKind::NotADirectory);
    assert_eq!(error.path, "/tmp/file.txt");
}

#[test]
fn two_level_tree_with_hidden_manifest_yields_two() {
    let member = DirEntry::dir("member", vec![DirEntry::file("Cargo.toml")]);
    let hidden = DirEntry::dir(".git", vec![DirEntry::file("Cargo.toml")]);
    let root = dir_node(vec![DirEntry::file("Cargo.toml"), member, hidden]);

    let found = find_cargo_toml_files("root", &root).unwrap();

    assert_eq!(found, vec!["root/Cargo.toml".to_string(), "root/member/Cargo.toml".to_string()]);
}

#[test]
fn manifests_come_in_depth_first_entry_order() {
    let a = DirEntry::dir(
        "a",
        vec![DirEntry::dir("deep", vec![DirEntry::file("Cargo.toml")]), DirEntry::file("Cargo.toml")],
    );
    let b = DirEntry::dir("b", vec![DirEntry::file("Cargo.toml")]);
    let root = dir_node(vec![a, DirEntry::file("Cargo.toml"), b]);

    let found = find_cargo_toml_files("/w", &root).unwrap();

    assert_eq!(
        found,
        vec![
            "/w/a/deep/Cargo.toml".to_string(),
            "/w/a/Cargo.toml".to_string(),
            "/w/Cargo.toml".to_string(),
            "/w/b/Cargo.toml".to_string(),
        ]
    );
}

#[test]
fn other_files_are_not_collected() {
    let root = dir_node(vec![
        DirEntry::file("cargo.toml"),
        DirEntry::file("Cargo.lock"),
        DirEntry::file(".Cargo.toml"),
        DirEntry::dir("src", vec![DirEntry::file("lib.rs")]),
    ]);
    let found = find_cargo_toml_files("/w", &root).unwrap();
    assert!(found.is_empty());
}

#[test]
fn hidden_file_is_no_hidden_directory() {
    let root = dir_node(vec![DirEntry::file(".env"), DirEntry::file("Cargo.toml")]);
    let found = find_cargo_toml_files("/w", &root).unwrap();
    assert_eq!(found, vec!["/w/Cargo.toml".to_string()]);
}

#[test]
fn directory_named_like_a_manifest_is_collected_and_walked() {
    let odd = DirEntry::dir("Cargo.toml", vec![DirEntry::file("Cargo.toml")]);
    let root = dir_node(vec![odd]);
    let found = find_cargo_toml_files("/w", &root).unwrap();
    assert_eq!(
        found,
        vec!["/w/Cargo.toml".to_string(), "/w/Cargo.toml/Cargo.toml".to_string()]
    );
}

#[test]
fn unreadable_directory_aborts_the_scan() {
    let root = dir_node(vec![
        DirEntry::file("Cargo.toml"),
        unreadable_dir("locked", "permission denied"),
        DirEntry::dir("later", vec![DirEntry::file("Cargo.toml")]),
    ]);
    let error = find_cargo_toml_files("/w", &root).unwrap_err();
    assert_eq!(error.kind, ErrorKind::IoError);
    assert_eq!(error.path, "/w/locked");
    assert_eq!(error.cause, "permission denied");
}

#[test]
fn unreadable_root_is_an_io_error() {
    let root = FsNode::Directory(DirListing::Unreadable("denied".to_string()));
    let error = find_cargo_toml_files("/w", &root).unwrap_err();
    assert_eq!(error.kind, ErrorKind::IoError);
    assert_eq!(error.path, "/w");
}

#[test]
fn unreadable_hidden_directory_is_never_entered() {
    let root = dir_node(vec![
        unreadable_dir(".cache", "permission denied"),
        DirEntry::file("Cargo.toml"),
    ]);
    let found = find_cargo_toml_files("/w", &root).unwrap();
    assert_eq!(found, vec!["/w/Cargo.toml".to_string()]);
}

#[test]
fn unvisited_directory_counts_as_empty() {
    let root = dir_node(vec![DirEntry::unvisited_dir("vendor"), DirEntry::file("Cargo.toml")]);
    let found = find_cargo_toml_files("/w", &root).unwrap();
    assert_eq!(found, vec!["/w/Cargo.toml".to_string()]);
}

#[test]
fn scan_descends_only_into_names_without_leading_dot() {
    assert!(descends_into("src"));
    assert!(descends_into("a.b"));
    assert!(descends_into(""));
    assert!(!descends_into(".git"));
    assert!(!descends_into("."));
}
