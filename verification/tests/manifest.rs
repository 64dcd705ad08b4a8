use depbank::collect_dependencies;
use depbank::extract_dependencies;
use depbank::extract_dependency_info;
use depbank::extract_version_from_spec;
use depbank::find_cargo_toml_files;
use depbank::gather_dependencies;
use depbank::manifest::names_of;
use depbank::manifest::read_manifest;
use depbank::manifest::read_spec;
use depbank::parse_manifest;
use depbank::Declared;
use depbank::DepSpec;
use depbank::Dependency;
use depbank::DependencyCollection;
use depbank::DirEntry;
use depbank::DirListing;
use depbank::ErrorKind;
use depbank::FileContent;
use depbank::FsNode;
use depbank::ManifestFile;
use depbank::ManifestRecord;

const SAMPLE_MANIFEST: &str = r#"
[package]
name = "test-project"
version = "0.1.0"
edition = "2021"

[dependencies]
anyhow = "1.0"
serde = { version = "1.0", features = ["derive"] }
tokio = { version = "1.0", features = ["full"] }

[dev-dependencies]
tempfile = "3.0"

[build-dependencies]
cc = "1.0"
"#;

fn text(content: &str) -> FileContent {
    FileContent::Text(content.to_string())
}

fn manifest_file(path: &str, content: &str) -> ManifestFile {
    ManifestFile { path: path.to_string(), content: text(content) }
}

fn pairs(deps: &DependencyCollection) -> Vec<(String, String)> {
    deps.iter().map(|d| (d.name.clone(), d.version.clone())).collect()
}

fn pair(name: &str, version: &str) -> (String, String) {
    (name.to_string(), version.to_string())
}

#[test]
fn test_collect_dependencies() {
    let files = vec![manifest_file("/p/Cargo.toml", SAMPLE_MANIFEST)];

    let dependencies = collect_dependencies(&files).unwrap();

    assert!(dependencies.contains(&"anyhow".to_string()));
    assert!(dependencies.contains(&"serde".to_string()));
    assert!(dependencies.contains(&"tokio".to_string()));
    assert!(dependencies.contains(&"tempfile".to_string()));
    assert!(dependencies.contains(&"cc".to_string()));
    assert_eq!(dependencies.len(), 5);
}

#[test]
fn test_extract_dependency_info() {
    let dependency_info = extract_dependency_info("/p/Cargo.toml", &text(SAMPLE_MANIFEST)).unwrap();

    let dep1 = dependency_info.get("anyhow").unwrap();
    assert_eq!(dep1.version, "1.0");
    let dep2 = dependency_info.get("serde").unwrap();
    assert_eq!(dep2.version, "1.0");
    let dep3 = dependency_info.get("tokio").unwrap();
    assert_eq!(dep3.version, "1.0");
    let dep4 = dependency_info.get("tempfile").unwrap();
    assert_eq!(dep4.version, "3.0");
    let dep5 = dependency_info.get("cc").unwrap();
    assert_eq!(dep5.version, "1.0");

    assert_eq!(dependency_info.len(), 5);
}

#[test]
fn test_extract_dependency_info_with_all_dependency_types() {
    let cargo_toml_content = r#"
[package]
name = "test_package"
version = "0.1.0"
edition = "2021"

[dependencies]
simple_dep = "1.0"
detailed_dep = { version = "2.0", features = ["full"] }

[dev-dependencies]
test_dep = "0.5"

[build-dependencies]
build_dep = { version = "0.3", optional = true }
"#;

    let dependency_info = extract_dependency_info("/p/Cargo.toml", &text(cargo_toml_content)).unwrap();

    assert_eq!(dependency_info.len(), 4);
    let simple_dep = dependency_info.get("simple_dep").unwrap();
    assert_eq!(simple_dep.version, "1.0");
    let detailed_dep = dependency_info.get("detailed_dep").unwrap();
    assert_eq!(detailed_dep.version, "2.0");
    let test_dep = dependency_info.get("test_dep").unwrap();
    assert_eq!(test_dep.version, "0.5");
    let build_dep = dependency_info.get("build_dep").unwrap();
    assert_eq!(build_dep.version, "0.3");
}

#[test]
fn test_collect_dependencies_with_overlapping_deps() {
    let cargo_toml1_content = r#"
[package]
name = "test1"
version = "0.1.0"

[dependencies]
dep1 = "1.0"
dep2 = "0.5"
"#;
    let cargo_toml2_content = r#"
[package]
name = "test2"
version = "0.1.0"

[dependencies]
dep2 = "0.6"
dep3 = "1.5"
"#;
    let cargo_toml_files = vec![
        manifest_file("/p/Cargo1.toml", cargo_toml1_content),
        manifest_file("/p/Cargo2.toml", cargo_toml2_content),
    ];

    let dependencies = collect_dependencies(&cargo_toml_files).unwrap();

    assert_eq!(dependencies.len(), 3);
    assert!(dependencies.contains(&"dep1".to_string()));
    assert!(dependencies.contains(&"dep2".to_string()));
    assert!(dependencies.contains(&"dep3".to_string()));
}

#[test]
fn test_find_dependencies_in_workspace() {
    let root_manifest = r#"
[workspace]
members = ["core", "utils"]

[workspace.dependencies]
log = "0.4"
env_logger = "0.10"
"#;
    let core_manifest = r#"
[package]
name = "core"
version = "0.1.0"
edition = "2021"

[dependencies]
serde = { version = "1.0", features = ["derive"] }
tokio = { version = "1.0", features = ["full"] }
log = { workspace = true }
"#;
    let utils_manifest = r#"
[package]
name = "utils"
version = "0.1.0"
edition = "2021"

[dependencies]
chrono = "0.4"
log = { workspace = true }
env_logger = { workspace = true }
"#;
    let member = |name: &str| {
        DirEntry::dir(
            name,
            vec![DirEntry::file("Cargo.toml"), DirEntry::dir("src", vec![DirEntry::file("lib.rs")])],
        )
    };
    let fixture = FsNode::Directory(DirListing::Entries(vec![
        DirEntry::file("Cargo.toml"),
        member("core"),
        member("utils"),
    ]));

    let cargo_toml_files = find_cargo_toml_files("fixtures/workspace_project", &fixture).unwrap();

    assert_eq!(cargo_toml_files.len(), 3);

    let mut dependency_info = DependencyCollection::new();
    let mut unique_deps: Vec<String> = Vec::new();
    for cargo_toml_path in &cargo_toml_files {
        let content = match cargo_toml_path.as_str() {
            "fixtures/workspace_project/Cargo.toml" => root_manifest,
            "fixtures/workspace_project/core/Cargo.toml" => core_manifest,
            "fixtures/workspace_project/utils/Cargo.toml" => utils_manifest,
            other => panic!("unexpected manifest {}", other),
        };
        let file_deps = extract_dependency_info(cargo_toml_path, &text(content)).unwrap();
        for dep in file_deps.iter() {
            dependency_info.add(dep.clone());
            if !unique_deps.contains(&dep.name) {
                unique_deps.push(dep.name.clone());
            }
        }
    }

    assert!(unique_deps.contains(&"serde".to_string()));
    assert!(unique_deps.contains(&"tokio".to_string()));
    assert!(unique_deps.contains(&"log".to_string()));
    assert!(unique_deps.contains(&"chrono".to_string()));
    assert!(unique_deps.contains(&"env_logger".to_string()));
    assert_eq!(unique_deps.len(), 5, "Expected 5 unique dependencies");

    assert!(dependency_info.contains_name("serde"));
    assert!(dependency_info.contains_name("tokio"));
    assert!(dependency_info.contains_name("log"));
    assert!(dependency_info.contains_name("chrono"));
    assert!(dependency_info.contains_name("env_logger"));

    let serde_dep = dependency_info.get("serde").unwrap();
    assert_eq!(serde_dep.version, "1.0");

    let tokio_dep = dependency_info.get("tokio").unwrap();
    assert_eq!(tokio_dep.version, "1.0");

    let log_deps: Vec<&Dependency> = dependency_info.iter().filter(|d| d.name == "log").collect();
    assert_eq!(log_deps.len(), 2, "Expected log defined in core and utils");
    assert!(log_deps.iter().all(|d| d.version == "workspace"));

    let chrono_dep = dependency_info.get("chrono").unwrap();
    assert_eq!(chrono_dep.version, "0.4");

    let env_logger_dep = dependency_info.get("env_logger").unwrap();
    assert_eq!(env_logger_dep.version, "workspace");
}

#[test]
fn workspace_flag_wins_over_a_stated_version() {
    let spec = DepSpec::Detailed { version: Some("9.9".to_string()), workspace: true };
    assert_eq!(extract_version_from_spec(&spec), "workspace");
    let spec = DepSpec::Detailed { version: None, workspace: true };
    assert_eq!(extract_version_from_spec(&spec), "workspace");
}

#[test]
fn detailed_spec_without_version_is_any_version() {
    let spec = DepSpec::Detailed { version: None, workspace: false };
    assert_eq!(extract_version_from_spec(&spec), "*");
}

#[test]
fn stated_versions_are_taken_as_they_are() {
    assert_eq!(extract_version_from_spec(&DepSpec::Simple("^1.2".to_string())), "^1.2");
    let spec = DepSpec::Detailed { version: Some("2.0".to_string()), workspace: false };
    assert_eq!(extract_version_from_spec(&spec), "2.0");
}

#[test]
fn workspace_entry_with_other_fields_extracts_to_workspace() {
    let manifest = r#"
[dependencies]
a = { workspace = true, version = "1.0", features = ["x"], optional = true }
b = { workspace = false, version = "2.0" }
c = { workspace = "true", version = "3.0" }
d = { path = "../d" }
e = { version = 4 }
f = { workspace = false }
"#;
    let deps = extract_dependency_info("Cargo.toml", &text(manifest)).unwrap();
    assert_eq!(
        pairs(&deps),
        vec![
            pair("a", "workspace"),
            pair("b", "2.0"),
            pair("c", "3.0"),
            pair("d", "*"),
            pair("e", "*"),
            pair("f", "*"),
        ]
    );
}

#[test]
fn tables_come_runtime_then_dev_then_build_and_duplicates_stay() {
    let manifest = r#"
[build-dependencies]
shared = "3.0"

[dev-dependencies]
shared = "2.0"

[dependencies]
shared = "1.0"
"#;
    let deps = extract_dependency_info("Cargo.toml", &text(manifest)).unwrap();
    assert_eq!(
        pairs(&deps),
        vec![pair("shared", "1.0"), pair("shared", "2.0"), pair("shared", "3.0")]
    );
    assert_eq!(deps.get("shared").unwrap().version, "1.0");
}

#[test]
fn manifest_without_dependency_tables_is_empty() {
    let deps = extract_dependency_info("Cargo.toml", &text("[package]\nname = \"x\"\n")).unwrap();
    assert!(deps.is_empty());
    let deps = extract_dependency_info("Cargo.toml", &text("")).unwrap();
    assert_eq!(deps.len(), 0);
}

#[test]
fn malformed_text_is_a_parse_error_naming_the_path() {
    let error = extract_dependency_info("/p/Cargo.toml", &text("[dependencies\nx = ")).unwrap_err();
    assert_eq!(error.kind, ErrorKind::ParseError);
    assert_eq!(error.path, "/p/Cargo.toml");
    assert!(!error.cause.is_empty());
}

#[test]
fn entry_of_another_shape_is_a_parse_error() {
    let error = extract_dependency_info("m", &text("[dependencies]\nx = 5\n")).unwrap_err();
    assert_eq!(error.kind, ErrorKind::ParseError);
    let error = extract_dependency_info("m", &text("[dependencies]\nx = [\"1.0\"]\n")).unwrap_err();
    assert_eq!(error.kind, ErrorKind::ParseError);
}

#[test]
fn dependency_table_of_another_shape_is_a_parse_error() {
    let error = extract_dependency_info("m", &text("dependencies = \"none\"\n")).unwrap_err();
    assert_eq!(error.kind, ErrorKind::ParseError);
    let error = extract_dependency_info("m", &text("dev-dependencies = 3\n")).unwrap_err();
    assert_eq!(error.kind, ErrorKind::ParseError);
}

#[test]
fn missing_or_unreadable_manifest_is_a_parse_error() {
    let error = extract_dependency_info("/p/Cargo.toml", &FileContent::Missing).unwrap_err();
    assert_eq!(error.kind, ErrorKind::ParseError);
    assert_eq!(error.path, "/p/Cargo.toml");
    let unreadable = FileContent::Unreadable("permission denied".to_string());
    let error = extract_dependency_info("/p/Cargo.toml", &unreadable).unwrap_err();
    assert_eq!(error.kind, ErrorKind::ParseError);
    assert_eq!(error.cause, "permission denied");
}

#[test]
fn parsed_manifest_holds_what_the_text_declares() {
    let record = parse_manifest(SAMPLE_MANIFEST).unwrap();
    assert_eq!(record.dependencies.len(), 3);
    assert_eq!(record.dev_dependencies.len(), 1);
    assert_eq!(record.build_dependencies.len(), 1);
    let serde = record.dependencies.iter().find(|d| d.name == "serde").unwrap();
    assert!(matches!(
        &serde.spec,
        DepSpec::Detailed { version: Some(v), workspace: false } if v == "1.0"
    ));
    let anyhow = record.dependencies.iter().find(|d| d.name == "anyhow").unwrap();
    assert!(matches!(&anyhow.spec, DepSpec::Simple(v) if v == "1.0"));
}

#[test]
fn dependencies_of_a_record_built_by_hand() {
    let record = ManifestRecord {
        dependencies: vec![
            Declared { name: "a".to_string(), spec: DepSpec::Simple("1".to_string()) },
            Declared {
                name: "b".to_string(),
                spec: DepSpec::Detailed { version: None, workspace: true },
            },
        ],
        dev_dependencies: vec![Declared {
            name: "a".to_string(),
            spec: DepSpec::Detailed { version: None, workspace: false },
        }],
        build_dependencies: Vec::new(),
    };
    let deps = extract_dependencies(&record);
    assert_eq!(pairs(&deps), vec![pair("a", "1"), pair("b", "workspace"), pair("a", "*")]);
}

#[test]
fn read_spec_tells_strings_tables_and_the_rest_apart() {
    assert!(matches!(
        read_spec(&toml::Value::String("1.0".to_string())),
        Some(DepSpec::Simple(v)) if v == "1.0"
    ));
    let mut table = toml::map::Map::new();
    table.insert("workspace".to_string(), toml::Value::Boolean(true));
    table.insert("version".to_string(), toml::Value::String("2".to_string()));
    assert!(matches!(
        read_spec(&toml::Value::Table(table)),
        Some(DepSpec::Detailed { version: Some(v), workspace: true }) if v == "2"
    ));
    assert!(read_spec(&toml::Value::Integer(3)).is_none());
    assert!(read_spec(&toml::Value::Boolean(true)).is_none());
    assert!(read_spec(&toml::Value::Array(Vec::new())).is_none());
}

#[test]
fn read_manifest_from_a_table_built_by_hand() {
    let mut deps = toml::map::Map::new();
    deps.insert("zeta".to_string(), toml::Value::String("1".to_string()));
    deps.insert("alpha".to_string(), toml::Value::String("2".to_string()));
    let mut doc = toml::map::Map::new();
    doc.insert("dependencies".to_string(), toml::Value::Table(deps));
    let record = read_manifest(&doc).unwrap();
    assert_eq!(record.dependencies.len(), 2);
    assert!(record.dev_dependencies.is_empty());

    let mut bad = toml::map::Map::new();
    bad.insert("build-dependencies".to_string(), toml::Value::Integer(1));
    assert!(read_manifest(&bad).is_err());
}

#[test]
fn gathering_keeps_duplicates_across_manifests() {
    let files = vec![
        manifest_file("a/Cargo.toml", "[dependencies]\nlog = \"0.4\"\n"),
        manifest_file("b/Cargo.toml", "[dependencies]\nlog = \"0.3\"\nserde = \"1\"\n"),
    ];
    let deps = gather_dependencies(&files).unwrap();
    assert_eq!(pairs(&deps), vec![pair("log", "0.4"), pair("log", "0.3"), pair("serde", "1")]);
    assert_eq!(names_of(&deps), vec!["log".to_string(), "serde".to_string()]);
}

#[test]
fn gathering_fails_at_the_first_bad_manifest() {
    let files = vec![
        manifest_file("a/Cargo.toml", "[dependencies]\nlog = \"0.4\"\n"),
        manifest_file("b/Cargo.toml", "not toml at all ["),
        ManifestFile { path: "c/Cargo.toml".to_string(), content: FileContent::Missing },
    ];
    let error = gather_dependencies(&files).unwrap_err();
    assert_eq!(error.kind, ErrorKind::ParseError);
    assert_eq!(error.path, "b/Cargo.toml");
    let error = collect_dependencies(&files).unwrap_err();
    assert_eq!(error.path, "b/Cargo.toml");
}

#[test]
fn no_manifests_no_dependencies() {
    assert!(collect_dependencies(&Vec::new()).unwrap().is_empty());
}

#[test]
fn parse_error_keeps_the_message_of_the_parser() {
    let text_in = "[dependencies\nx = ";
    let expected = toml::from_str::<toml::Table>(text_in).unwrap_err().to_string();
    let error = extract_dependency_info("/p/Cargo.toml", &text(text_in)).unwrap_err();
    assert_eq!(error.cause, expected);
    assert_eq!(parse_manifest(text_in).unwrap_err(), expected);
    assert_eq!(error.message(), format!("parse error: /p/Cargo.toml: {}", expected));
}

#[test]
fn parse_error_names_the_entry_that_is_no_declaration() {
    let error = extract_dependency_info("m", &text("[dependencies]\na = \"1\"\nfoo = 1\n")).unwrap_err();
    assert_eq!(error.cause, "dependency `foo` is neither a version string nor a table");
    let error =
        extract_dependency_info("m", &text("[dependencies]\nb = 1\na = true\n")).unwrap_err();
    assert_eq!(error.cause, "dependency `a` is neither a version string nor a table");
}

#[test]
fn parse_error_names_the_table_that_is_none() {
    let error = extract_dependency_info("m", &text("dev-dependencies = 3\n")).unwrap_err();
    assert_eq!(error.cause, "`dev-dependencies` is not a table");
    let both = "build-dependencies = 1\n[dependencies]\nx = 2\n";
    let error = extract_dependency_info("m", &text(both)).unwrap_err();
    assert_eq!(error.cause, "dependency `x` is neither a version string nor a table");
}

#[test]
fn missing_manifest_names_its_cause() {
    let error = extract_dependency_info("/p/Cargo.toml", &FileContent::Missing).unwrap_err();
    assert_eq!(error.cause, "the file does not exist");
}

#[test]
fn gathering_keeps_the_cause_of_the_first_failure() {
    let files = vec![
        manifest_file("a/Cargo.toml", "[dependencies]\nlog = \"0.4\"\n"),
        manifest_file("b/Cargo.toml", "dependencies = 1\n"),
    ];
    let error = gather_dependencies(&files).unwrap_err();
    assert_eq!(error.path, "b/Cargo.toml");
    assert_eq!(error.cause, "`dependencies` is not a table");
}
