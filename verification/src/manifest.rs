//! Manifests: the dependencies that a project declares.

use vstd::prelude::*;
use crate::collection::DependencyCollection;
use crate::dependency::DepView;
use crate::dependency::Dependency;
use crate::dependency::ANY_VERSION;
use crate::dependency::WORKSPACE_VERSION;
use crate::error::parsed_at;
use crate::error::DepError;
use crate::error::ErrorKind;
use crate::reading::content_at;
use crate::reading::entries_of;
use crate::reading::find_flag;
use crate::reading::find_text;
use crate::reading::find_value;
use crate::reading::flag_at;
use crate::reading::items_content;
use crate::reading::text_at;
use crate::snapshot::FileContent;
use crate::text::contains_text;
use crate::text::joined3;
use crate::text::views;
use crate::toml_doc::document;
use crate::toml_doc::parse_document;
use crate::toml_doc::table_content;
use crate::toml_doc::value_content;
use crate::toml_doc::Content;

verus! {

/// The key of the table of runtime dependencies.
pub const RUNTIME_TABLE: &'static str = "dependencies";

/// The key of the table of development dependencies.
pub const DEV_TABLE: &'static str = "dev-dependencies";

/// The key of the table of build dependencies.
pub const BUILD_TABLE: &'static str = "build-dependencies";

/// How a manifest states the version of one dependency.
#[derive(Debug)]
pub enum DepSpec {
    /// A plain version string.
    Simple(String),
    /// A table. `version` is its `version` field where that is a string;
    /// `workspace` says whether its `workspace` field is `true`.
    Detailed { version: Option<String>, workspace: bool },
}

/// A `DepSpec` as the contracts see it.
pub enum SpecView {
    Simple(Seq<char>),
    Detailed { version: Option<Seq<char>>, workspace: bool },
}

impl View for DepSpec {
    type V = SpecView;

    open spec fn view(&self) -> SpecView {
        match self {
            DepSpec::Simple(version) => SpecView::Simple(version@),
            DepSpec::Detailed { version, workspace } => SpecView::Detailed {
                version: match version {
                    Some(v) => Some(v@),
                    None => None,
                },
                workspace: *workspace,
            },
        }
    }
}

/// One entry of a dependency table: a name and how its version is stated.
#[derive(Debug)]
pub struct Declared {
    pub name: String,
    pub spec: DepSpec,
}

/// A `Declared` as the contracts see it.
pub struct DeclaredView {
    pub name: Seq<char>,
    pub spec: SpecView,
}

impl View for Declared {
    type V = DeclaredView;

    open spec fn view(&self) -> DeclaredView {
        DeclaredView { name: self.name@, spec: self.spec@ }
    }
}

/// The three dependency tables of one manifest. A table that the manifest
/// lacks is empty.
#[derive(Debug)]
pub struct ManifestRecord {
    pub dependencies: Vec<Declared>,
    pub dev_dependencies: Vec<Declared>,
    pub build_dependencies: Vec<Declared>,
}

/// A `ManifestRecord` as the contracts see it.
pub struct ManifestView {
    pub dependencies: Seq<DeclaredView>,
    pub dev_dependencies: Seq<DeclaredView>,
    pub build_dependencies: Seq<DeclaredView>,
}

impl View for ManifestRecord {
    type V = ManifestView;

    open spec fn view(&self) -> ManifestView {
        ManifestView {
            dependencies: views(self.dependencies@),
            dev_dependencies: views(self.dev_dependencies@),
            build_dependencies: views(self.build_dependencies@),
        }
    }
}

/// A manifest together with where it was read from.
#[derive(Debug)]
pub struct ManifestFile {
    pub path: String,
    pub content: FileContent,
}

/// The version text that a declaration stands for: `workspace` where the
/// version is inherited, else the version that is stated, else `*`.
pub open spec fn version_text(spec: SpecView) -> Seq<char> {
    match spec {
        SpecView::Simple(version) => version,
        SpecView::Detailed { version, workspace } => if workspace {
            WORKSPACE_VERSION@
        } else {
            match version {
                Some(v) => v,
                None => ANY_VERSION@,
            }
        },
    }
}

/// The dependencies that the entries of one table declare, in their order.
pub open spec fn extracted_from(entries: Seq<DeclaredView>) -> Seq<DepView> {
    entries.map_values(|e: DeclaredView| DepView { name: e.name, version: version_text(e.spec) })
}

/// The dependencies of a manifest: those of its runtime table, then those
/// of its development table, then those of its build table. A name that
/// stands in two tables is there twice.
pub open spec fn extracted(manifest: ManifestView) -> Seq<DepView> {
    extracted_from(manifest.dependencies) + extracted_from(manifest.dev_dependencies)
        + extracted_from(manifest.build_dependencies)
}

/// How an entry of a dependency table states its version: a string does so
/// directly, a table through its `version` and `workspace` fields, and
/// anything else is no declaration.
pub open spec fn spec_of(content: Content) -> Option<SpecView> {
    match content {
        Content::Text(version) => Some(SpecView::Simple(version)),
        Content::Table(fields) => Some(
            SpecView::Detailed {
                version: text_at(fields, "version"@),
                workspace: flag_at(fields, "workspace"@),
            },
        ),
        _ => None,
    }
}

/// The declarations that the entries of a dependency table make, or `None`
/// where one of them is no declaration.
pub open spec fn declared_of(items: Seq<(Seq<char>, Content)>) -> Option<Seq<DeclaredView>>
    decreases items.len(),
{
    if items.len() == 0 {
        Some(Seq::empty())
    } else {
        match (declared_of(items.drop_last()), spec_of(items.last().1)) {
            (Some(before), Some(spec)) => Some(
                before.push(DeclaredView { name: items.last().0, spec }),
            ),
            _ => None,
        }
    }
}

/// The declarations of the table under `key`: none where the document has
/// no such entry, and `None` where the entry is no table of declarations.
pub open spec fn section_of(doc: Seq<(Seq<char>, Content)>, key: Seq<char>) -> Option<
    Seq<DeclaredView>,
> {
    match content_at(doc, key) {
        None => Some(Seq::empty()),
        Some(Content::Table(items)) => declared_of(items),
        Some(_) => None,
    }
}

/// The manifest that a document holds, or `None` where one of its
/// dependency tables does not have the expected shape.
pub open spec fn manifest_of(doc: Seq<(Seq<char>, Content)>) -> Option<ManifestView> {
    match (
        section_of(doc, RUNTIME_TABLE@),
        section_of(doc, DEV_TABLE@),
        section_of(doc, BUILD_TABLE@),
    ) {
        (Some(dependencies), Some(dev_dependencies), Some(build_dependencies)) => Some(
            ManifestView { dependencies, dev_dependencies, build_dependencies },
        ),
        _ => None,
    }
}

/// The manifest that `text` holds, or `None` where `text` is no manifest.
pub open spec fn manifest_in(text: Seq<char>) -> Option<ManifestView> {
    match document(text) {
        Ok(doc) => manifest_of(doc),
        Err(_) => None,
    }
}

/// What is wrong with the entries of a dependency table that hold no
/// declarations: the first of them that is no declaration is named.
pub open spec fn entry_fault(items: Seq<(Seq<char>, Content)>) -> Seq<char>
    decreases items.len(),
{
    if items.len() == 0 {
        Seq::empty()
    } else if declared_of(items.drop_last()) is None {
        entry_fault(items.drop_last())
    } else {
        "dependency `"@ + items.last().0 + "` is neither a version string nor a table"@
    }
}

/// What is wrong with the table under `key`, where it holds no
/// declarations: it is no table, or one of its entries is no declaration.
pub open spec fn section_fault(doc: Seq<(Seq<char>, Content)>, key: Seq<char>) -> Seq<char> {
    match content_at(doc, key) {
        Some(Content::Table(items)) => entry_fault(items),
        _ => "`"@ + key + "` is not a table"@,
    }
}

/// What is wrong with a document that holds no manifest: the fault of the
/// first of its dependency tables that has one, runtime first, then
/// development, then build.
pub open spec fn manifest_fault(doc: Seq<(Seq<char>, Content)>) -> Seq<char> {
    if section_of(doc, RUNTIME_TABLE@) is None {
        section_fault(doc, RUNTIME_TABLE@)
    } else if section_of(doc, DEV_TABLE@) is None {
        section_fault(doc, DEV_TABLE@)
    } else {
        section_fault(doc, BUILD_TABLE@)
    }
}

/// Why `text` is no manifest: the parser's message where it is no TOML,
/// else what is wrong with its dependency tables.
pub open spec fn manifest_failure(text: Seq<char>) -> Seq<char> {
    match document(text) {
        Ok(doc) => manifest_fault(doc),
        Err(message) => message,
    }
}

/// A declaration with `workspace = true` stands for the version text
/// `workspace`, whatever version it states.
pub proof fn lemma_workspace_flag_wins(version: Option<Seq<char>>)
    ensures
        version_text(SpecView::Detailed { version, workspace: true }) == WORKSPACE_VERSION@,
{
}

/// A table entry whose `workspace` field is `true` declares the version
/// text `workspace`, whatever other fields the table holds.
pub proof fn lemma_workspace_entry(fields: Seq<(Seq<char>, Content)>)
    requires
        content_at(fields, "workspace"@) == Some(Content::Flag(true)),
    ensures
        spec_of(Content::Table(fields)) matches Some(spec) && version_text(spec)
            == WORKSPACE_VERSION@,
{
}

/// A table entry with neither `workspace = true` nor a `version` string
/// declares the version text `*`.
pub proof fn lemma_unspecified_entry(fields: Seq<(Seq<char>, Content)>)
    requires
        !flag_at(fields, "workspace"@),
        text_at(fields, "version"@) is None,
    ensures
        spec_of(Content::Table(fields)) matches Some(spec) && version_text(spec) == ANY_VERSION@,
{
}

/// Once an entry is no declaration, the table is none, however it goes
/// on, and its fault stays the same.
pub proof fn lemma_malformed_is_final(items: Seq<(Seq<char>, Content)>, n: int)
    requires
        0 <= n <= items.len(),
        declared_of(items.take(n)) is None,
    ensures
        declared_of(items) is None,
        entry_fault(items) == entry_fault(items.take(n)),
    decreases items.len() - n,
{
    if n < items.len() {
        assert(items.take(n + 1).drop_last() == items.take(n));
        lemma_malformed_is_final(items, n + 1);
    } else {
        assert(items.take(n) == items);
    }
}

/// The version text that `spec` stands for.
pub fn extract_version_from_spec(spec: &DepSpec) -> (r: String)
    ensures
        r@ == version_text(spec@),
        spec matches DepSpec::Detailed { workspace: true, .. } ==> r@ == WORKSPACE_VERSION@,
        spec matches DepSpec::Detailed { workspace: false, version: None } ==> r@ == ANY_VERSION@,
{
    match spec {
        DepSpec::Simple(version) => version.clone(),
        DepSpec::Detailed { version, workspace } => {
            if *workspace {
                WORKSPACE_VERSION.to_owned()
            } else {
                match version {
                    Some(v) => v.clone(),
                    None => ANY_VERSION.to_owned(),
                }
            }
        },
    }
}

/// Adds the dependencies that `entries` declare to `deps`.
fn extract_table(entries: &Vec<Declared>, deps: &mut DependencyCollection)
    ensures
        final(deps)@ == old(deps)@ + extracted_from(views(entries@)),
{
    let mut i: usize = 0;
    let ghost all = extracted_from(views(entries@));
    assert(old(deps)@ + all.take(0) == old(deps)@);
    while i < entries.len()
        invariant
            i <= entries.len(),
            all == extracted_from(views(entries@)),
            deps@ == old(deps)@ + all.take(i as int),
        decreases entries.len() - i,
    {
        let version = extract_version_from_spec(&entries[i].spec);
        let dep = Dependency::new(entries[i].name.as_str(), version.as_str());
        assert(dep@ == all[i as int]);
        deps.add(dep);
        assert(old(deps)@ + all.take(i as int + 1) == (old(deps)@ + all.take(i as int)).push(
            all[i as int],
        ));
        i += 1;
    }
    assert(all.take(i as int) == all);
}

/// The dependencies that a manifest declares: one for each entry of its
/// three tables, runtime first, then development, then build.
pub fn extract_dependencies(record: &ManifestRecord) -> (deps: DependencyCollection)
    ensures
        deps@ == extracted(record@),
{
    let mut deps = DependencyCollection::new();
    extract_table(&record.dependencies, &mut deps);
    extract_table(&record.dev_dependencies, &mut deps);
    extract_table(&record.build_dependencies, &mut deps);
    assert(deps@ == extracted(record@));
    deps
}

/// Reads how one entry of a dependency table states its version.
pub fn read_spec(value: &toml::Value) -> (r: Option<DepSpec>)
    ensures
        match r {
            Some(spec) => spec_of(value_content(*value)) == Some(spec@),
            None => spec_of(value_content(*value)) is None,
        },
{
    match value.as_str() {
        Some(version) => Some(DepSpec::Simple(version.to_owned())),
        None => match value.as_table() {
            Some(table) => {
                let fields = entries_of(table);
                let workspace = find_flag(&fields, "workspace");
                let version = find_text(&fields, "version");
                Some(DepSpec::Detailed { version, workspace })
            },
            None => None,
        },
    }
}

/// Reads the declarations of the table under `key`. On failure, says what
/// is wrong with it.
fn read_section(doc: &Vec<(&String, &toml::Value)>, key: &str) -> (r: Result<
    Vec<Declared>,
    String,
>)
    ensures
        match r {
            Ok(entries) => section_of(items_content(doc@), key@) == Some(views(entries@)),
            Err(cause) => section_of(items_content(doc@), key@) is None && cause@ == section_fault(
                items_content(doc@),
                key@,
            ),
        },
{
    let mut entries: Vec<Declared> = Vec::new();
    let table = match find_value(doc, key) {
        None => {
            assert(views(entries@) == Seq::<DeclaredView>::empty());
            return Ok(entries);
        },
        Some(value) => match value.as_table() {
            Some(table) => table,
            None => {
                return Err(joined3("`", key, "` is not a table"));
            },
        },
    };
    let items = entries_of(table);
    let ghost all = items_content(items@);
    let mut i: usize = 0;
    assert(all.take(0) == Seq::<(Seq<char>, Content)>::empty());
    assert(views(entries@) == Seq::<DeclaredView>::empty());
    assert(section_of(items_content(doc@), key@) == declared_of(all));
    assert(section_fault(items_content(doc@), key@) == entry_fault(all));
    while i < items.len()
        invariant
            i <= items.len(),
            all == items_content(items@),
            section_of(items_content(doc@), key@) == declared_of(all),
            section_fault(items_content(doc@), key@) == entry_fault(all),
            declared_of(all.take(i as int)) == Some(views(entries@)),
        decreases items.len() - i,
    {
        let item = items[i];
        assert(all.take(i as int + 1).drop_last() == all.take(i as int));
        assert(all.take(i as int + 1).last() == (item.0@, value_content(*item.1)));
        match read_spec(item.1) {
            Some(spec) => {
                let ghost before = views(entries@);
                let entry = Declared { name: item.0.clone(), spec };
                let ghost added = entry@;
                entries.push(entry);
                assert(views(entries@) == before.push(added));
            },
            None => {
                proof {
                    lemma_malformed_is_final(all, i as int + 1);
                }
                return Err(
                    joined3(
                        "dependency `",
                        item.0.as_str(),
                        "` is neither a version string nor a table",
                    ),
                );
            },
        }
        i += 1;
    }
    assert(all.take(i as int) == all);
    Ok(entries)
}

/// Reads the manifest that a parsed document holds. On failure, says which
/// dependency table does not have the expected shape.
pub fn read_manifest(table: &toml::map::Map<String, toml::Value>) -> (r: Result<
    ManifestRecord,
    String,
>)
    ensures
        match r {
            Ok(record) => manifest_of(table_content(*table)) == Some(record@),
            Err(cause) => manifest_of(table_content(*table)) is None && cause@ == manifest_fault(
                table_content(*table),
            ),
        },
{
    let doc = entries_of(table);
    let dependencies = match read_section(&doc, RUNTIME_TABLE) {
        Ok(entries) => entries,
        Err(cause) => {
            return Err(cause);
        },
    };
    let dev_dependencies = match read_section(&doc, DEV_TABLE) {
        Ok(entries) => entries,
        Err(cause) => {
            return Err(cause);
        },
    };
    let build_dependencies = match read_section(&doc, BUILD_TABLE) {
        Ok(entries) => entries,
        Err(cause) => {
            return Err(cause);
        },
    };
    Ok(ManifestRecord { dependencies, dev_dependencies, build_dependencies })
}

/// Parses the text of a manifest. On failure, says why `text` is no
/// manifest.
pub fn parse_manifest(text: &str) -> (r: Result<ManifestRecord, String>)
    ensures
        match r {
            Ok(record) => manifest_in(text@) == Some(record@),
            Err(cause) => manifest_in(text@) is None && cause@ == manifest_failure(text@),
        },
{
    match parse_document(text) {
        Ok(table) => read_manifest(&table),
        Err(cause) => Err(cause),
    }
}

/// The manifest that was read at a path, or `None` where the file could not
/// be read or holds no manifest.
pub open spec fn manifest_at(content: FileContent) -> Option<ManifestView> {
    match content {
        FileContent::Text(text) => manifest_in(text@),
        _ => None,
    }
}

/// The text of the cause where a missing file is asked for its manifest.
pub const MISSING_FILE: &'static str = "the file does not exist";

/// Why no manifest was had at a path: the file is missing, or it could not
/// be read, for the reason that was given, or its text is no manifest.
pub open spec fn load_failure(content: FileContent) -> Seq<char> {
    match content {
        FileContent::Missing => MISSING_FILE@,
        FileContent::Unreadable(cause) => cause@,
        FileContent::Text(text) => manifest_failure(text@),
    }
}

/// Reads the manifest at `cargo_toml_path`, given what the caller found
/// there. Fails with `ParseError` where the file is missing, could not be
/// read, or holds no manifest; the failure names the path and keeps the
/// cause.
pub fn load_manifest(cargo_toml_path: &str, manifest: &FileContent) -> (r: Result<
    ManifestRecord,
    DepError,
>)
    ensures
        match r {
            Ok(record) => manifest_at(*manifest) == Some(record@),
            Err(e) => manifest_at(*manifest) is None && e.kind == ErrorKind::ParseError && e.path@
                == cargo_toml_path@ && e.cause@ == load_failure(*manifest),
        },
{
    match manifest {
        FileContent::Missing => Err(DepError::parse(cargo_toml_path, MISSING_FILE)),
        FileContent::Unreadable(cause) => Err(DepError::parse(cargo_toml_path, cause.as_str())),
        FileContent::Text(text) => parsed_at(cargo_toml_path, parse_manifest(text.as_str())),
    }
}

/// The dependencies that the manifest at `cargo_toml_path` declares, given
/// what the caller found there: one for each entry of its three tables,
/// with no entry merged or dropped.
///
/// Fails with `ParseError` where the file is missing, could not be read,
/// or holds no manifest; the failure names the path and keeps the cause.
/// No part of the dependencies is returned then.
pub fn extract_dependency_info(cargo_toml_path: &str, manifest: &FileContent) -> (r: Result<
    DependencyCollection,
    DepError,
>)
    ensures
        match r {
            Ok(deps) => manifest_at(*manifest) matches Some(m) && deps@ == extracted(m),
            Err(e) => manifest_at(*manifest) is None && e.kind == ErrorKind::ParseError && e.path@
                == cargo_toml_path@ && e.cause@ == load_failure(*manifest),
        },
{
    match load_manifest(cargo_toml_path, manifest) {
        Ok(record) => Ok(extract_dependencies(&record)),
        Err(e) => Err(e),
    }
}

/// The dependencies of the first `n` of `files`, one manifest after the
/// other, or `None` where one of those manifests cannot be had.
pub open spec fn gathered(files: Seq<ManifestFile>, n: int) -> Option<Seq<DepView>>
    decreases n,
{
    if n <= 0 {
        Some(Seq::empty())
    } else {
        match (gathered(files, n - 1), manifest_at(files[n - 1].content)) {
            (Some(before), Some(manifest)) => Some(before + extracted(manifest)),
            _ => None,
        }
    }
}

/// The file at `i` is the first whose manifest cannot be had.
pub open spec fn is_first_failure(files: Seq<ManifestFile>, i: int) -> bool {
    &&& 0 <= i < files.len()
    &&& manifest_at(files[i].content) is None
    &&& forall|j: int| 0 <= j < i ==> manifest_at((#[trigger] files[j]).content) is Some
}

/// The names of `deps`, each once, in the order in which they first occur.
pub open spec fn unique_names(deps: Seq<DepView>) -> Seq<Seq<char>>
    decreases deps.len(),
{
    if deps.len() == 0 {
        Seq::empty()
    } else {
        let before = unique_names(deps.drop_last());
        if before.contains(deps.last().name) {
            before
        } else {
            before.push(deps.last().name)
        }
    }
}

/// Once a manifest cannot be had, no longer run of files gives dependencies.
pub proof fn lemma_gather_failure_is_final(files: Seq<ManifestFile>, n: int, m: int)
    requires
        0 <= n <= m,
        gathered(files, n) is None,
    ensures
        gathered(files, m) is None,
    decreases m - n,
{
    if n < m {
        lemma_gather_failure_is_final(files, n, m - 1);
    }
}

/// The dependencies of all of `manifests`, one manifest after the other.
/// What two manifests both declare is there twice.
///
/// Fails with `ParseError` for the first manifest that is missing, could
/// not be read, or holds no manifest.
pub fn gather_dependencies(manifests: &Vec<ManifestFile>) -> (r: Result<
    DependencyCollection,
    DepError,
>)
    ensures
        match r {
            Ok(deps) => gathered(manifests@, manifests@.len() as int) == Some(deps@),
            Err(e) => gathered(manifests@, manifests@.len() as int) is None && e.kind
                == ErrorKind::ParseError && exists|i: int| #[trigger]
                is_first_failure(manifests@, i) && e.path@ == manifests@[i].path@ && e.cause@
                    == load_failure(manifests@[i].content),
        },
{
    let mut deps = DependencyCollection::new();
    let mut i: usize = 0;
    while i < manifests.len()
        invariant
            i <= manifests.len(),
            gathered(manifests@, i as int) == Some(deps@),
            forall|j: int| 0 <= j < i ==> manifest_at((#[trigger] manifests@[j]).content) is Some,
        decreases manifests.len() - i,
    {
        let file = &manifests[i];
        match extract_dependency_info(file.path.as_str(), &file.content) {
            Ok(found) => {
                deps.extend(&found);
            },
            Err(e) => {
                proof {
                    lemma_gather_failure_is_final(
                        manifests@,
                        i as int + 1,
                        manifests@.len() as int,
                    );
                    assert(is_first_failure(manifests@, i as int));
                }
                return Err(e);
            },
        }
        i += 1;
    }
    Ok(deps)
}

/// The names of `deps`, each once, in the order in which they first occur.
pub fn names_of(deps: &DependencyCollection) -> (names: Vec<String>)
    ensures
        views(names@) == unique_names(deps@),
{
    let all = deps.as_slice();
    let mut names: Vec<String> = Vec::new();
    let mut i: usize = 0;
    assert(deps@.take(0) == Seq::<DepView>::empty());
    assert(views(names@) == Seq::<Seq<char>>::empty());
    while i < all.len()
        invariant
            i <= all.len(),
            views(all@) == deps@,
            views(names@) == unique_names(deps@.take(i as int)),
        decreases all.len() - i,
    {
        assert(deps@.take(i as int + 1).drop_last() == deps@.take(i as int));
        assert(deps@.take(i as int + 1).last() == all[i as int]@);
        if !contains_text(&names, all[i].name.as_str()) {
            let ghost before = views(names@);
            names.push(all[i].name.clone());
            assert(views(names@) == before.push(all[i as int].name@));
        }
        i += 1;
    }
    assert(deps@.take(i as int) == deps@);
    names
}

/// The names of the dependencies that `manifests` declare, each once, in
/// the order in which they first occur.
///
/// Fails as `gather_dependencies` does.
pub fn collect_dependencies(manifests: &Vec<ManifestFile>) -> (r: Result<Vec<String>, DepError>)
    ensures
        match r {
            Ok(names) => gathered(manifests@, manifests@.len() as int) matches Some(deps)
                && views(names@) == unique_names(deps),
            Err(e) => gathered(manifests@, manifests@.len() as int) is None && e.kind
                == ErrorKind::ParseError && exists|i: int| #[trigger]
                is_first_failure(manifests@, i) && e.path@ == manifests@[i].path@ && e.cause@
                    == load_failure(manifests@[i].content),
        },
{
    match gather_dependencies(manifests) {
        Ok(deps) => Ok(names_of(&deps)),
        Err(e) => Err(e),
    }
}

} // verus!
