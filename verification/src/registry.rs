//! The local package cache: where it lies, and what it holds.

use vstd::prelude::*;
use crate::dependency::dependency_dir;
use crate::dependency::dependency_dir_name;
use crate::dependency::Dependency;
use crate::error::DepError;
use crate::error::ErrorKind;
use crate::path::join_path;
use crate::path::path_join;
use crate::name_map::lemma_position;
use crate::name_map::position;
use crate::name_map::NameMap;
use crate::snapshot::DirEntry;

verus! {

/// One entry of the directory that holds the registry's source indices.
#[derive(Debug)]
pub struct IndexDir {
    /// The file name of the entry.
    pub name: String,
    /// Whether the entry is a directory.
    pub is_dir: bool,
    /// When the entry was last modified, in nanoseconds since the Unix
    /// epoch; `None` where that could not be read.
    pub modified: Option<i128>,
}

/// What the caller found at the directory of source indices.
#[derive(Debug)]
pub enum SourceDir {
    /// The directory does not exist.
    Missing,
    /// The directory exists but could not be read, for the given reason.
    Unreadable(String),
    /// The entries of the directory, in the order they were enumerated.
    Entries(Vec<IndexDir>),
}

/// The directory below the home directory that holds the source indices.
pub open spec fn registry_source_path(home: Seq<char>) -> Seq<char> {
    path_join(path_join(path_join(home, ".cargo"@), "registry"@), "src"@)
}

/// An entry that can be chosen: a directory whose modification time is known.
pub open spec fn is_candidate(entry: IndexDir) -> bool {
    entry.is_dir && entry.modified is Some
}

/// Entry `j` is the one to choose among the first `n`: no candidate there is
/// newer, and every candidate before it is older.
pub open spec fn is_latest_among(entries: Seq<IndexDir>, n: int, j: int) -> bool {
    &&& 0 <= j < n <= entries.len()
    &&& is_candidate(entries[j])
    &&& forall|i: int|
        0 <= i < n && is_candidate(#[trigger] entries[i]) ==> entries[i].modified->0
            <= entries[j].modified->0
    &&& forall|i: int|
        0 <= i < j && is_candidate(#[trigger] entries[i]) ==> entries[i].modified->0
            < entries[j].modified->0
}

/// Entry `j` is the most recently modified candidate, and the first of
/// those that share its time.
pub open spec fn is_latest(entries: Seq<IndexDir>, j: int) -> bool {
    is_latest_among(entries, entries.len() as int, j)
}

/// At most one entry is the latest.
pub proof fn lemma_latest_is_unique(entries: Seq<IndexDir>, j: int, k: int)
    requires
        is_latest(entries, j),
        is_latest(entries, k),
    ensures
        j == k,
{
    if j < k {
        assert(is_candidate(entries[j]));
    } else if k < j {
        assert(is_candidate(entries[k]));
    }
}

/// The directory below `home` that holds the source indices.
pub fn registry_source_dir(home: &str) -> (r: String)
    ensures
        r@ == registry_source_path(home@),
{
    let cargo = join_path(home, ".cargo");
    let registry = join_path(cargo.as_str(), "registry");
    join_path(registry.as_str(), "src")
}

/// Chooses among `entries` the directory that was modified last; of several
/// with the same time, the first.
pub fn select_latest(entries: &Vec<IndexDir>) -> (r: Option<usize>)
    ensures
        match r {
            Some(j) => is_latest(entries@, j as int),
            None => forall|i: int| 0 <= i < entries.len() ==> !is_candidate(#[trigger] entries[i]),
        },
{
    let mut best: Option<(usize, i128)> = None;
    let mut n: usize = 0;
    while n < entries.len()
        invariant
            n <= entries.len(),
            match best {
                Some((j, t)) => is_latest_among(entries@, n as int, j as int) && entries[j as int].modified
                    == Some(t),
                None => forall|i: int| 0 <= i < n ==> !is_candidate(#[trigger] entries[i]),
            },
        decreases entries.len() - n,
    {
        if entries[n].is_dir {
            match entries[n].modified {
                Some(t) => {
                    match best {
                        Some((_, latest)) => {
                            if t > latest {
                                best = Some((n, t));
                            }
                        },
                        None => {
                            best = Some((n, t));
                        },
                    }
                },
                None => {},
            }
        }
        n += 1;
    }
    match best {
        Some((j, _)) => Some(j),
        None => None,
    }
}

/// Locates the registry's source directory: the most recently modified
/// index directory below `home`'s cache.
///
/// Fails with `NotFound` where the home directory is unknown, where the
/// directory of indices is missing, or where it holds no directory whose
/// modification time is known; with `IoError` where it could not be read.
pub fn resolve_registry_path(home: Option<&str>, source: &SourceDir) -> (r: Result<String, DepError>)
    ensures
        match r {
            Ok(p) => home matches Some(h) && source matches SourceDir::Entries(entries)
                && exists|j: int| #[trigger]
                is_latest(entries@, j) && p@ == path_join(
                    registry_source_path(h@),
                    entries@[j].name@,
                ),
            Err(e) => match home {
                None => e.kind == ErrorKind::NotFound && e.path@ == "~"@,
                Some(h) => e.path@ == registry_source_path(h@) && match source {
                    SourceDir::Missing => e.kind == ErrorKind::NotFound,
                    SourceDir::Unreadable(cause) => e.kind == ErrorKind::IoError && e.cause@
                        == cause@,
                    SourceDir::Entries(entries) => e.kind == ErrorKind::NotFound && forall|i: int|
                        0 <= i < entries.len() ==> !is_candidate(#[trigger] entries[i]),
                },
            },
        },
{
    let home_dir = match home {
        Some(h) => h,
        None => {
            return Err(DepError::not_found("~"));
        },
    };
    let registry_dir = registry_source_dir(home_dir);
    match source {
        SourceDir::Missing => Err(DepError::not_found(registry_dir.as_str())),
        SourceDir::Unreadable(cause) => Err(DepError::io(registry_dir.as_str(), cause.as_str())),
        SourceDir::Entries(entries) => {
            match select_latest(entries) {
                Some(j) => Ok(join_path(registry_dir.as_str(), entries[j].name.as_str())),
                None => Err(DepError::not_found(registry_dir.as_str())),
            }
        },
    }
}

/// The base path of a registry together with the entries found directly
/// below it. The sources of a dependency lie at the path that
/// `construct_dependency_path` gives; they are there where the registry
/// holds a directory of that name.
#[derive(Debug)]
pub struct Registry {
    /// The path of the registry's source directory.
    pub base_path: String,
    /// The entries of that directory; empty where it does not exist.
    pub entries: Vec<DirEntry>,
}

/// Whether `entries` hold a directory named `dir`.
pub open spec fn holds_dir(entries: Seq<DirEntry>, dir: Seq<char>) -> bool {
    exists|i: int| 0 <= i < entries.len() && is_dir_named(#[trigger] entries[i], dir)
}

/// Whether `entry` is a directory named `dir`.
pub open spec fn is_dir_named(entry: DirEntry, dir: Seq<char>) -> bool {
    entry.name@ == dir && entry.node is Directory
}

impl Registry {
    /// A registry at `base_path` that holds `entries`.
    pub fn new(base_path: &str, entries: Vec<DirEntry>) -> (r: Registry)
        ensures
            r.base_path@ == base_path@,
            r.entries == entries,
    {
        Registry { base_path: base_path.to_owned(), entries }
    }

    /// Whether the sources of `name` at `version` lie in this registry.
    pub open spec fn has(&self, name: Seq<char>, version: Seq<char>) -> bool {
        holds_dir(self.entries@, dependency_dir(name, version))
    }

    /// Whether this registry holds a directory named `dir`.
    pub fn contains_dir(&self, dir: &str) -> (r: bool)
        ensures
            r == holds_dir(self.entries@, dir@),
    {
        let key = dir.to_owned();
        let mut i: usize = 0;
        while i < self.entries.len()
            invariant
                i <= self.entries.len(),
                key@ == dir@,
                forall|j: int| 0 <= j < i ==> !is_dir_named(#[trigger] self.entries[j], dir@),
            decreases self.entries.len() - i,
        {
            if self.entries[i].name == key && self.entries[i].node.is_dir() {
                assert(is_dir_named(self.entries[i as int], dir@));
                return true;
            }
            i += 1;
        }
        false
    }
}

/// The path of a dependency's sources below `registry_path`:
/// the directory named by the name, a hyphen and the version.
pub fn construct_dependency_path(
    registry_path: &str,
    dependency_name: &str,
    dependency_version: &str,
) -> (r: String)
    ensures
        r@ == path_join(registry_path@, dependency_dir(dependency_name@, dependency_version@)),
{
    let dir = dependency_dir_name(dependency_name, dependency_version);
    join_path(registry_path, dir.as_str())
}

/// Whether the sources of `dependency` lie in `registry`. A dependency
/// that is absent gives `false`, never a failure.
pub fn is_dependency_available(registry: &Registry, dependency: &Dependency) -> (r: bool)
    ensures
        r == registry.has(dependency@.name, dependency@.version),
{
    dependency.is_available_in_registry(registry)
}

/// Whether the sources of the dependency `dependency_name` at
/// `dependency_version` lie in `registry`.
pub fn is_dependency_available_by_parts(
    registry: &Registry,
    dependency_name: &str,
    dependency_version: &str,
) -> (r: bool)
    ensures
        r == registry.has(dependency_name@, dependency_version@),
{
    let dependency = Dependency::new(dependency_name, dependency_version);
    is_dependency_available(registry, &dependency)
}

impl Dependency {
    /// Whether this dependency's sources lie in `registry`.
    pub fn is_available_in_registry(&self, registry: &Registry) -> (r: bool)
        ensures
            r == registry.has(self@.name, self@.version),
    {
        let dir = dependency_dir_name(self.name.as_str(), self.version.as_str());
        registry.contains_dir(dir.as_str())
    }
}

/// The paths of those of the first `n` of `entries` whose sources lie
/// among `listing`, below `base`: each name with the path of its directory.
pub open spec fn paths_of(
    entries: Seq<(Seq<char>, Seq<char>)>,
    base: Seq<char>,
    listing: Seq<DirEntry>,
    n: int,
) -> Seq<(Seq<char>, Seq<char>)>
    decreases n,
{
    if n <= 0 {
        Seq::empty()
    } else {
        let before = paths_of(entries, base, listing, n - 1);
        let (name, version) = entries[n - 1];
        if holds_dir(listing, dependency_dir(name, version)) {
            before.push((name, path_join(base, dependency_dir(name, version))))
        } else {
            before
        }
    }
}

/// Every name among the paths is one of the names that were asked for.
pub proof fn lemma_paths_names(
    entries: Seq<(Seq<char>, Seq<char>)>,
    base: Seq<char>,
    listing: Seq<DirEntry>,
    n: int,
)
    requires
        0 <= n <= entries.len(),
    ensures
        forall|k: int|
            0 <= k < paths_of(entries, base, listing, n).len() ==> exists|j: int|
                0 <= j < n && (#[trigger] entries[j]).0 == (#[trigger] paths_of(
                    entries,
                    base,
                    listing,
                    n,
                )[k]).0,
    decreases n,
{
    if n > 0 {
        lemma_paths_names(entries, base, listing, n - 1);
        let before = paths_of(entries, base, listing, n - 1);
        let after = paths_of(entries, base, listing, n);
        assert forall|k: int| 0 <= k < after.len() implies exists|j: int|
            0 <= j < n && (#[trigger] entries[j]).0 == (#[trigger] after[k]).0 by {
            if k < before.len() {
                assert(after[k] == before[k]);
                let j = choose|j: int| 0 <= j < n - 1 && (#[trigger] entries[j]).0 == before[k].0;
                assert(entries[j].0 == after[k].0);
            } else {
                assert(entries[n - 1].0 == after[k].0);
            }
        }
    }
}

/// The path of each of `dependencies` whose sources lie in `registry`. A
/// dependency that is absent is left out; that is no failure.
pub fn resolve_dependency_paths(dependencies: &NameMap<String>, registry: &Registry) -> (r: NameMap<
    String,
>)
    ensures
        r@ == paths_of(
            dependencies@,
            registry.base_path@,
            registry.entries@,
            dependencies@.len() as int,
        ),
{
    let mut paths: NameMap<String> = NameMap::new();
    let n = dependencies.len();
    let mut i: usize = 0;
    while i < n
        invariant
            i <= n,
            n == dependencies@.len(),
            crate::name_map::distinct_keys(dependencies@),
            paths@ == paths_of(dependencies@, registry.base_path@, registry.entries@, i as int),
        decreases n - i,
    {
        let name = dependencies.key_at(i);
        let version = dependencies.value_at(i);
        if is_dependency_available_by_parts(registry, name.as_str(), version.as_str()) {
            let path = construct_dependency_path(
                registry.base_path.as_str(),
                name.as_str(),
                version.as_str(),
            );
            proof {
                lemma_paths_names(
                    dependencies@,
                    registry.base_path@,
                    registry.entries@,
                    i as int,
                );
                lemma_position(paths@, name@);
                if position(paths@, name@) is Some {
                    let p = position(paths@, name@)->0;
                    let j = choose|j: int|
                        0 <= j < i && (#[trigger] dependencies@[j]).0 == paths@[p].0;
                    assert(dependencies@[j].0 == dependencies@[i as int].0);
                }
            }
            paths.insert(name.as_str(), path);
        }
        i += 1;
    }
    paths
}

} // verus!
