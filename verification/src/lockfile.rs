//! Lockfiles: the exact versions that a project is pinned to.

use vstd::prelude::*;
use crate::collection::distinct_names;
use crate::collection::DependencyCollection;
use crate::dependency::DepView;
use crate::dependency::Dependency;
use crate::error::parsed_at;
use crate::error::DepError;
use crate::error::ErrorKind;
use crate::path::join_path;
use crate::path::lemma_parent_is_shorter;
use crate::path::parent_dir;
use crate::path::path_join;
use crate::path::path_parent;
use crate::reading::content_at;
use crate::reading::entries_of;
use crate::reading::find_text;
use crate::reading::find_value;
use crate::reading::items_content;
use crate::reading::text_at;
use crate::snapshot::FileContent;
use crate::text::contains_text;
use crate::text::views;
use crate::toml_doc::document;
use crate::toml_doc::parse_document;
use crate::toml_doc::table_content;
use crate::toml_doc::value_content;
use crate::toml_doc::Content;

verus! {

/// The file name of a lockfile.
pub const LOCKFILE_NAME: &'static str = "Cargo.lock";

/// The key under which a lockfile lists its packages.
pub const PACKAGE_LIST: &'static str = "package";

/// One package of a lockfile.
#[derive(Debug)]
pub struct LockedPackage {
    pub name: String,
    pub version: String,
    /// Where the package comes from. It is read and not interpreted.
    pub source: Option<String>,
}

/// A `LockedPackage` as the contracts see it.
pub struct PackageView {
    pub name: Seq<char>,
    pub version: Seq<char>,
    pub source: Option<Seq<char>>,
}

impl View for LockedPackage {
    type V = PackageView;

    open spec fn view(&self) -> PackageView {
        PackageView {
            name: self.name@,
            version: self.version@,
            source: match self.source {
                Some(s) => Some(s@),
                None => None,
            },
        }
    }
}

/// The packages of a lockfile, in the order in which it lists them. A name
/// may occur more than once, with different versions.
#[derive(Debug)]
pub struct LockfileRecord {
    pub packages: Vec<LockedPackage>,
}

impl View for LockfileRecord {
    type V = Seq<PackageView>;

    open spec fn view(&self) -> Seq<PackageView> {
        views(self.packages@)
    }
}

/// The package that an item of the package list holds: a table with a
/// `name` and a `version` that are strings, and with a `source` that is a
/// string where it has one. Anything else is no package.
pub open spec fn package_of(content: Content) -> Option<PackageView> {
    match content {
        Content::Table(fields) => match (
            text_at(fields, "name"@),
            text_at(fields, "version"@),
            content_at(fields, "source"@),
        ) {
            (Some(name), Some(version), None) => Some(PackageView { name, version, source: None }),
            (Some(name), Some(version), Some(Content::Text(source))) => Some(
                PackageView { name, version, source: Some(source) },
            ),
            _ => None,
        },
        _ => None,
    }
}

/// The packages that the items of a package list hold, or `None` where one
/// of them is no package.
pub open spec fn packages_of(items: Seq<Content>) -> Option<Seq<PackageView>>
    decreases items.len(),
{
    if items.len() == 0 {
        Some(Seq::empty())
    } else {
        match (packages_of(items.drop_last()), package_of(items.last())) {
            (Some(before), Some(package)) => Some(before.push(package)),
            _ => None,
        }
    }
}

/// The packages of the lockfile that a document holds: none where it lists
/// none, and `None` where its list does not have the expected shape.
pub open spec fn lockfile_of(doc: Seq<(Seq<char>, Content)>) -> Option<Seq<PackageView>> {
    match content_at(doc, PACKAGE_LIST@) {
        None => Some(Seq::empty()),
        Some(Content::List(items)) => packages_of(items),
        Some(_) => None,
    }
}

/// The packages of the lockfile that `text` holds, or `None` where `text`
/// is no lockfile.
pub open spec fn lockfile_in(text: Seq<char>) -> Option<Seq<PackageView>> {
    match document(text) {
        Ok(doc) => lockfile_of(doc),
        Err(_) => None,
    }
}

/// The text of the cause where the package list is no array.
pub const NO_PACKAGE_ARRAY: &'static str = "`package` is not an array";

/// The text of the cause where an item of the package list is no package.
pub const NO_PACKAGE: &'static str =
    "an item of `package` is no table with a name and a version";

/// What is wrong with a document that holds no lockfile: its package list
/// is no array, or one of the items is no package.
pub open spec fn lockfile_fault(doc: Seq<(Seq<char>, Content)>) -> Seq<char> {
    match content_at(doc, PACKAGE_LIST@) {
        Some(Content::List(_)) => NO_PACKAGE@,
        _ => NO_PACKAGE_ARRAY@,
    }
}

/// Why `text` is no lockfile: the parser's message where it is no TOML,
/// else what is wrong with its package list.
pub open spec fn lockfile_failure(text: Seq<char>) -> Seq<char> {
    match document(text) {
        Ok(doc) => lockfile_fault(doc),
        Err(message) => message,
    }
}

/// The version that `packages` pin `name` to: that of the last package of
/// that name, however its versions compare.
pub open spec fn locked_version(packages: Seq<PackageView>, name: Seq<char>) -> Option<Seq<char>>
    decreases packages.len(),
{
    if packages.len() == 0 {
        None
    } else if packages.last().name == name {
        Some(packages.last().version)
    } else {
        locked_version(packages.drop_last(), name)
    }
}

/// Whether the name of `requested[n]` was requested before it.
pub open spec fn asked_before(requested: Seq<DepView>, n: int) -> bool {
    exists|i: int| 0 <= i < n && (#[trigger] requested[i]).name == requested[n].name
}

/// What the first `n` of `requested` resolve to: for each name, where it is
/// first requested, the version that `packages` pin it to. A name that
/// `packages` do not list is left out.
pub open spec fn resolved(packages: Seq<PackageView>, requested: Seq<DepView>, n: int) -> Seq<
    DepView,
>
    decreases n,
{
    if n <= 0 {
        Seq::empty()
    } else {
        let before = resolved(packages, requested, n - 1);
        let name = requested[n - 1].name;
        if asked_before(requested, n - 1) {
            before
        } else {
            match locked_version(packages, name) {
                Some(version) => before.push(DepView { name, version }),
                None => before,
            }
        }
    }
}

/// Of several packages with one name, the one listed last gives the
/// version, and a request for that name resolves to it alone.
pub proof fn lemma_last_listed_version_wins(
    packages: Seq<PackageView>,
    j: int,
    requested_version: Seq<char>,
)
    requires
        0 <= j < packages.len(),
        forall|i: int| j < i < packages.len() ==> (#[trigger] packages[i]).name != packages[j].name,
    ensures
        locked_version(packages, packages[j].name) == Some(packages[j].version),
        resolved(
            packages,
            seq![DepView { name: packages[j].name, version: requested_version }],
            1,
        ) == seq![DepView { name: packages[j].name, version: packages[j].version }],
    decreases packages.len(),
{
    let name = packages[j].name;
    if j < packages.len() - 1 {
        let head = packages.drop_last();
        assert(packages[packages.len() - 1].name != name);
        assert forall|i: int| j < i < head.len() implies (#[trigger] head[i]).name
            != head[j].name by {
            assert(head[i] == packages[i]);
        }
        lemma_last_listed_version_wins(head, j, requested_version);
    }
    let request = seq![DepView { name, version: requested_version }];
    assert(resolved(packages, request, 0) == Seq::<DepView>::empty());
    assert(!asked_before(request, 0));
    assert(resolved(packages, request, 1) =~= seq![
        DepView { name, version: packages[j].version },
    ]);
}

/// A name that no package has is pinned to no version, and a request for
/// it resolves to nothing.
pub proof fn lemma_unlisted_is_left_out(
    packages: Seq<PackageView>,
    name: Seq<char>,
    requested_version: Seq<char>,
)
    requires
        forall|i: int| 0 <= i < packages.len() ==> (#[trigger] packages[i]).name != name,
    ensures
        locked_version(packages, name) is None,
        resolved(packages, seq![DepView { name, version: requested_version }], 1)
            == Seq::<DepView>::empty(),
    decreases packages.len(),
{
    if packages.len() > 0 {
        let head = packages.drop_last();
        assert(packages[packages.len() - 1].name != name);
        assert forall|i: int| 0 <= i < head.len() implies (#[trigger] head[i]).name != name by {
            assert(head[i] == packages[i]);
        }
        lemma_unlisted_is_left_out(head, name, requested_version);
    }
    let request = seq![DepView { name, version: requested_version }];
    assert(resolved(packages, request, 0) == Seq::<DepView>::empty());
}

/// What is resolved holds each name once, and only names that were
/// requested.
pub proof fn lemma_resolved_names(packages: Seq<PackageView>, requested: Seq<DepView>, n: int)
    requires
        0 <= n <= requested.len(),
    ensures
        distinct_names(resolved(packages, requested, n)),
        resolved(packages, requested, n).len() <= n,
        forall|k: int|
            0 <= k < resolved(packages, requested, n).len() ==> exists|i: int|
                0 <= i < n && (#[trigger] requested[i]).name == (#[trigger] resolved(
                    packages,
                    requested,
                    n,
                )[k]).name,
    decreases n,
{
    if n > 0 {
        lemma_resolved_names(packages, requested, n - 1);
        let before = resolved(packages, requested, n - 1);
        let after = resolved(packages, requested, n);
        let name = requested[n - 1].name;
        if after.len() == before.len() + 1 {
            assert(!asked_before(requested, n - 1));
            assert forall|k: int| 0 <= k < after.len() implies exists|i: int|
                0 <= i < n && (#[trigger] requested[i]).name == (#[trigger] after[k]).name by {
                if k < before.len() {
                    assert(after[k] == before[k]);
                    let i = choose|i: int|
                        0 <= i < n - 1 && (#[trigger] requested[i]).name == before[k].name;
                    assert(requested[i].name == after[k].name);
                } else {
                    assert(requested[n - 1].name == after[k].name);
                }
            }
            assert forall|a: int, b: int|
                0 <= a < after.len() && 0 <= b < after.len() && a != b implies (
            #[trigger] after[a]).name != (#[trigger] after[b]).name by {
                if a < before.len() && b < before.len() {
                    assert(after[a] == before[a] && after[b] == before[b]);
                } else {
                    let old_index = if a < before.len() {
                        a
                    } else {
                        b
                    };
                    assert(after[old_index] == before[old_index]);
                    let i = choose|i: int|
                        0 <= i < n - 1 && (#[trigger] requested[i]).name == before[old_index].name;
                    assert(requested[i].name != name);
                }
            }
        } else {
            assert(after == before);
            assert forall|k: int| 0 <= k < after.len() implies exists|i: int|
                0 <= i < n && (#[trigger] requested[i]).name == (#[trigger] after[k]).name by {
                let i = choose|i: int|
                    0 <= i < n - 1 && (#[trigger] requested[i]).name == before[k].name;
                assert(requested[i].name == after[k].name);
            }
        }
    }
}

/// Once an item is no package, the list is none, however it goes on.
pub proof fn lemma_bad_package_is_final(items: Seq<Content>, n: int)
    requires
        0 <= n <= items.len(),
        packages_of(items.take(n)) is None,
    ensures
        packages_of(items) is None,
    decreases items.len() - n,
{
    if n < items.len() {
        assert(items.take(n + 1).drop_last() == items.take(n));
        lemma_bad_package_is_final(items, n + 1);
    } else {
        assert(items.take(n) == items);
    }
}

/// The version of the last of `packages` that is named `name`.
fn find_locked_version<'a>(packages: &'a Vec<LockedPackage>, name: &String) -> (r: Option<
    &'a String,
>)
    ensures
        match r {
            Some(version) => locked_version(views(packages@), name@) == Some(version@),
            None => locked_version(views(packages@), name@) is None,
        },
{
    let ghost all = views(packages@);
    let mut n: usize = packages.len();
    assert(all.take(n as int) == all);
    while n > 0
        invariant
            n <= packages.len(),
            all == views(packages@),
            locked_version(all, name@) == locked_version(all.take(n as int), name@),
        decreases n,
    {
        assert(all.take(n as int).last() == packages[n as int - 1]@);
        if packages[n - 1].name == *name {
            return Some(&packages[n - 1].version);
        }
        assert(all.take(n as int).drop_last() == all.take(n as int - 1));
        n -= 1;
    }
    None
}

/// Whether the name of `requested[n]` occurs before it.
fn requested_before(requested: &[Dependency], n: usize) -> (r: bool)
    requires
        n < requested.len(),
    ensures
        r == asked_before(views(requested@), n as int),
{
    let mut i: usize = 0;
    while i < n
        invariant
            i <= n < requested.len(),
            forall|j: int| 0 <= j < i ==> (#[trigger] views(requested@)[j]).name != views(
                requested@,
            )[n as int].name,
        decreases n - i,
    {
        if requested[i].name == requested[n].name {
            assert(views(requested@)[i as int].name == views(requested@)[n as int].name);
            return true;
        }
        assert(views(requested@)[i as int].name != views(requested@)[n as int].name);
        i += 1;
    }
    false
}

/// Resolves each requested name to the version that `lock` pins it to: the
/// one of the package of that name that the lockfile lists last. A name is
/// looked up once, where it is first requested; a name that the lockfile
/// does not list is left out.
pub fn resolve_versions(lock: &LockfileRecord, requested: &DependencyCollection) -> (r:
    DependencyCollection)
    ensures
        r@ == resolved(lock@, requested@, requested@.len() as int),
        distinct_names(r@),
        r@.len() <= requested@.len(),
{
    let asked = requested.as_slice();
    let mut found = DependencyCollection::new();
    let mut i: usize = 0;
    while i < asked.len()
        invariant
            i <= asked.len(),
            views(asked@) == requested@,
            found@ == resolved(lock@, requested@, i as int),
        decreases asked.len() - i,
    {
        if !requested_before(asked, i) {
            match find_locked_version(&lock.packages, &asked[i].name) {
                Some(version) => {
                    found.add(Dependency::new(asked[i].name.as_str(), version.as_str()));
                },
                None => {},
            }
        }
        i += 1;
    }
    proof {
        lemma_resolved_names(lock@, requested@, requested@.len() as int);
    }
    found
}

/// Reads one item of the package list.
pub fn read_package(value: &toml::Value) -> (r: Option<LockedPackage>)
    ensures
        match r {
            Some(package) => package_of(value_content(*value)) == Some(package@),
            None => package_of(value_content(*value)) is None,
        },
{
    let table = match value.as_table() {
        Some(table) => table,
        None => {
            return None;
        },
    };
    let fields = entries_of(table);
    let name = match find_text(&fields, "name") {
        Some(name) => name,
        None => {
            return None;
        },
    };
    let version = match find_text(&fields, "version") {
        Some(version) => version,
        None => {
            return None;
        },
    };
    let source = match find_value(&fields, "source") {
        None => None,
        Some(value) => match value.as_str() {
            Some(source) => Some(source.to_owned()),
            None => {
                return None;
            },
        },
    };
    Some(LockedPackage { name, version, source })
}

/// Reads the lockfile that a parsed document holds. On failure, says what
/// is wrong with its package list.
pub fn read_lockfile(table: &toml::map::Map<String, toml::Value>) -> (r: Result<
    LockfileRecord,
    String,
>)
    ensures
        match r {
            Ok(record) => lockfile_of(table_content(*table)) == Some(record@),
            Err(cause) => lockfile_of(table_content(*table)) is None && cause@ == lockfile_fault(
                table_content(*table),
            ),
        },
{
    let doc = entries_of(table);
    let mut packages: Vec<LockedPackage> = Vec::new();
    assert(views(packages@) == Seq::<PackageView>::empty());
    let items = match find_value(&doc, PACKAGE_LIST) {
        None => {
            return Ok(LockfileRecord { packages });
        },
        Some(value) => match value.as_array() {
            Some(items) => items,
            None => {
                return Err(NO_PACKAGE_ARRAY.to_owned());
            },
        },
    };
    let ghost all = items@.map_values(|item: toml::Value| value_content(item));
    let mut i: usize = 0;
    assert(all.take(0) == Seq::<Content>::empty());
    assert(lockfile_of(table_content(*table)) == packages_of(all));
    assert(lockfile_fault(table_content(*table)) == NO_PACKAGE@);
    while i < items.len()
        invariant
            i <= items.len(),
            all == items@.map_values(|item: toml::Value| value_content(item)),
            lockfile_of(table_content(*table)) == packages_of(all),
            lockfile_fault(table_content(*table)) == NO_PACKAGE@,
            packages_of(all.take(i as int)) == Some(views(packages@)),
        decreases items.len() - i,
    {
        assert(all.take(i as int + 1).drop_last() == all.take(i as int));
        assert(all.take(i as int + 1).last() == value_content(items[i as int]));
        match read_package(&items[i]) {
            Some(package) => {
                let ghost before = views(packages@);
                let ghost added = package@;
                packages.push(package);
                assert(views(packages@) == before.push(added));
            },
            None => {
                proof {
                    lemma_bad_package_is_final(all, i as int + 1);
                }
                return Err(NO_PACKAGE.to_owned());
            },
        }
        i += 1;
    }
    assert(all.take(i as int) == all);
    Ok(LockfileRecord { packages })
}

/// Parses the text of a lockfile. On failure, says why `text` is no
/// lockfile.
pub fn parse_lockfile(text: &str) -> (r: Result<LockfileRecord, String>)
    ensures
        match r {
            Ok(record) => lockfile_in(text@) == Some(record@),
            Err(cause) => lockfile_in(text@) is None && cause@ == lockfile_failure(text@),
        },
{
    match parse_document(text) {
        Ok(table) => read_lockfile(&table),
        Err(cause) => Err(cause),
    }
}

/// Resolves `dependencies` against the lockfile at `cargo_lock_path`, given
/// what the caller found there: each requested name, once, with the
/// version of the package of that name that the lockfile lists last.
///
/// Fails with `NotFound` where the lockfile is missing, with `IoError`
/// where it could not be read, and with `ParseError` where it holds no
/// lockfile; the failure names the path and keeps the cause.
pub fn resolve_dependency_versions(
    cargo_lock_path: &str,
    lockfile: &FileContent,
    dependencies: &DependencyCollection,
) -> (r: Result<DependencyCollection, DepError>)
    ensures
        match r {
            Ok(deps) => lockfile matches FileContent::Text(text) && lockfile_in(text@) matches Some(
                packages,
            ) && deps@ == resolved(packages, dependencies@, dependencies@.len() as int),
            Err(e) => e.path@ == cargo_lock_path@ && match lockfile {
                FileContent::Missing => e.kind == ErrorKind::NotFound && e.cause@.len() == 0,
                FileContent::Unreadable(cause) => e.kind == ErrorKind::IoError && e.cause@
                    == cause@,
                FileContent::Text(text) => e.kind == ErrorKind::ParseError && lockfile_in(text@)
                    is None && e.cause@ == lockfile_failure(text@),
            },
        },
{
    match lockfile {
        FileContent::Missing => Err(DepError::not_found(cargo_lock_path)),
        FileContent::Unreadable(cause) => Err(DepError::io(cargo_lock_path, cause.as_str())),
        FileContent::Text(text) => match parsed_at(cargo_lock_path, parse_lockfile(text.as_str())) {
            Ok(record) => Ok(resolve_versions(&record, dependencies)),
            Err(e) => Err(e),
        },
    }
}

/// Where a lockfile for `start` may lie: in `start` itself, then in each
/// directory above it, nearest first.
pub open spec fn lock_candidates(start: Seq<char>) -> Seq<Seq<char>>
    decreases start.len(),
    via lock_candidates_decreases
{
    let here = seq![path_join(start, LOCKFILE_NAME@)];
    match path_parent(start) {
        Some(parent) => here + lock_candidates(parent),
        None => here,
    }
}

#[via_fn]
proof fn lock_candidates_decreases(start: Seq<char>) {
    lemma_parent_is_shorter(start);
}

/// The first of `candidates` that is among `existing`, if any.
pub open spec fn first_existing(candidates: Seq<Seq<char>>, existing: Seq<Seq<char>>) -> Option<
    Seq<char>,
>
    decreases candidates.len(),
{
    if candidates.len() == 0 {
        None
    } else if existing.contains(candidates[0]) {
        Some(candidates[0])
    } else {
        first_existing(candidates.drop_first(), existing)
    }
}

/// The paths at which a lockfile for `start_dir` is looked for, nearest
/// first.
pub fn lockfile_candidates(start_dir: &str) -> (r: Vec<String>)
    ensures
        views(r@) == lock_candidates(start_dir@),
{
    let mut found: Vec<String> = Vec::new();
    let mut current = start_dir.to_owned();
    assert(views(found@) + lock_candidates(current@) == lock_candidates(start_dir@));
    loop
        invariant
            views(found@) + lock_candidates(current@) == lock_candidates(start_dir@),
        decreases current@.len(),
    {
        let ghost before = views(found@);
        let ghost here = path_join(current@, LOCKFILE_NAME@);
        found.push(join_path(current.as_str(), LOCKFILE_NAME));
        assert(views(found@) == before.push(here));
        match parent_dir(current.as_str()) {
            Some(parent) => {
                proof {
                    lemma_parent_is_shorter(current@);
                    assert(before + (seq![here] + lock_candidates(parent@)) == before.push(here)
                        + lock_candidates(parent@));
                }
                current = parent;
            },
            None => {
                assert(before + seq![here] == before.push(here));
                return found;
            },
        }
    }
}

/// Finds the lockfile for `start_dir`: the first of its candidates that is
/// among `existing`, the paths that the caller found to exist.
///
/// Fails with `NotFound` where none of the candidates exists.
pub fn find_cargo_lock(start_dir: &str, existing: &Vec<String>) -> (r: Result<String, DepError>)
    ensures
        match r {
            Ok(path) => first_existing(lock_candidates(start_dir@), views(existing@)) == Some(
                path@,
            ),
            Err(e) => first_existing(lock_candidates(start_dir@), views(existing@)) is None
                && e.kind == ErrorKind::NotFound && e.path@ == path_join(
                start_dir@,
                LOCKFILE_NAME@,
            ),
        },
{
    let candidates = lockfile_candidates(start_dir);
    let ghost all = views(candidates@);
    let mut i: usize = 0;
    assert(all.skip(0) == all);
    while i < candidates.len()
        invariant
            i <= candidates.len(),
            all == views(candidates@),
            all == lock_candidates(start_dir@),
            first_existing(all, views(existing@)) == first_existing(
                all.skip(i as int),
                views(existing@),
            ),
        decreases candidates.len() - i,
    {
        assert(all.skip(i as int)[0] == candidates[i as int]@);
        if contains_text(existing, candidates[i].as_str()) {
            return Ok(candidates[i].clone());
        }
        assert(all.skip(i as int).drop_first() == all.skip(i as int + 1));
        i += 1;
    }
    assert(all.skip(i as int).len() == 0);
    let first = join_path(start_dir, LOCKFILE_NAME);
    Err(DepError::not_found(first.as_str()))
}

} // verus!
