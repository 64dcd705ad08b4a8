//! Discovery and version resolution of a project's dependencies.
//!
//! The library finds the manifests of a project, reads the dependencies
//! that they declare, pins each to the exact version of the project's
//! lockfile, and tells which of them have their sources in the local
//! registry. It never touches the file system itself: its caller reads
//! directories and files and hands over what it found (see [`snapshot`]).
//!
//! Every function is verified with Verus against the contract it carries.
//! What rests on an outside crate is stated in [`toml_doc`].

pub mod bank;
pub mod collection;
pub mod dependency;
pub mod error;
pub mod lockfile;
pub mod manifest;
pub mod name_map;
pub mod path;
pub mod reading;
pub mod registry;
pub mod scanner;
pub mod snapshot;
pub mod text;
pub mod tokens;
pub mod toml_doc;

pub use bank::generate_all_code_banks;
pub use bank::generate_code_bank;
pub use bank::plan_code_banks;
pub use bank::BankOutcome;
pub use bank::BankReport;
pub use bank::BankRequest;
pub use bank::BankStep;
pub use bank::SummaryStrategy;
pub use collection::DependencyCollection;
pub use dependency::Dependency;
pub use error::DepError;
pub use error::ErrorKind;
pub use lockfile::find_cargo_lock;
pub use lockfile::lockfile_candidates;
pub use lockfile::parse_lockfile;
pub use lockfile::resolve_dependency_versions;
pub use lockfile::resolve_versions;
pub use lockfile::LockedPackage;
pub use lockfile::LockfileRecord;
pub use manifest::collect_dependencies;
pub use manifest::extract_dependencies;
pub use manifest::extract_dependency_info;
pub use manifest::extract_version_from_spec;
pub use manifest::gather_dependencies;
pub use manifest::parse_manifest;
pub use manifest::Declared;
pub use manifest::DepSpec;
pub use manifest::ManifestFile;
pub use manifest::ManifestRecord;
pub use name_map::NameMap;
pub use registry::construct_dependency_path;
pub use registry::is_dependency_available;
pub use registry::is_dependency_available_by_parts;
pub use registry::registry_source_dir;
pub use registry::resolve_dependency_paths;
pub use registry::resolve_registry_path;
pub use registry::IndexDir;
pub use registry::Registry;
pub use registry::SourceDir;
pub use scanner::descends_into;
pub use scanner::find_cargo_toml_files;
pub use snapshot::DirEntry;
pub use snapshot::DirListing;
pub use snapshot::FileContent;
pub use snapshot::FsNode;
pub use snapshot::PathKind;
pub use tokens::calculate_directory_tokens;
pub use tokens::calculate_file_tokens;
pub use tokens::calculate_tokens;
pub use tokens::select_token_files;
pub use tokens::FileStats;
pub use tokens::CountedFile;
pub use tokens::TokenFile;
pub use tokens::TokenReading;
