//! Finding the manifests below a root directory.

use vstd::prelude::*;
use vstd::string::StrSliceExecFns;
use crate::error::DepError;
use crate::error::ErrorKind;
use crate::path::join_path;
use crate::path::path_join;
use crate::snapshot::DirEntry;
use crate::snapshot::DirListing;
use crate::snapshot::FsNode;
use crate::text::same_text;
use crate::text::views;

verus! {

/// The file name of a manifest.
pub const MANIFEST_FILE_NAME: &'static str = "Cargo.toml";

/// A name that marks a directory as hidden: one that starts with a dot.
pub open spec fn is_hidden(name: Seq<char>) -> bool {
    name.len() > 0 && name[0] == '.'
}

/// The name of a manifest.
pub open spec fn is_manifest(name: Seq<char>) -> bool {
    name == MANIFEST_FILE_NAME@
}

/// A directory that the scan passes over: a hidden one.
pub open spec fn is_pruned(entry: DirEntry) -> bool {
    entry.node is Directory && is_hidden(entry.name@)
}

/// A directory that could not be read, and why.
pub struct ScanFailure {
    pub path: Seq<char>,
    pub cause: Seq<char>,
}

/// The manifests found below the directory `dir` with the given listing,
/// in the order of a depth-first walk; or the first directory on that walk
/// that could not be read.
pub open spec fn scan_listing(dir: Seq<char>, listing: DirListing) -> Result<
    Seq<Seq<char>>,
    ScanFailure,
>
    decreases listing, 0int,
{
    match listing {
        DirListing::Unvisited => Ok(Seq::empty()),
        DirListing::Unreadable(cause) => Err(ScanFailure { path: dir, cause: cause@ }),
        DirListing::Entries(entries) => scan_entries(dir, entries@, entries@.len() as int),
    }
}

/// The manifests found by walking the first `n` of the `entries` of `dir`.
///
/// A hidden directory is passed over. Any other entry named like a manifest
/// is collected, and any other directory is walked in turn.
pub open spec fn scan_entries(dir: Seq<char>, entries: Seq<DirEntry>, n: int) -> Result<
    Seq<Seq<char>>,
    ScanFailure,
>
    decreases entries, n,
{
    if n <= 0 || n > entries.len() {
        Ok(Seq::empty())
    } else {
        match scan_entries(dir, entries, n - 1) {
            Err(failure) => Err(failure),
            Ok(before) => {
                let entry = entries[n - 1];
                let path = path_join(dir, entry.name@);
                if is_pruned(entry) {
                    Ok(before)
                } else {
                    let here = if is_manifest(entry.name@) {
                        before.push(path)
                    } else {
                        before
                    };
                    match entry.node {
                        FsNode::Directory(listing) => match scan_listing(path, listing) {
                            Err(failure) => Err(failure),
                            Ok(below) => Ok(here + below),
                        },
                        _ => Ok(here),
                    }
                }
            },
        }
    }
}

/// Whether a walk of the first `n` of the `entries` of `dir` comes to a
/// manifest at `path` without entering a hidden directory.
pub open spec fn reaches(dir: Seq<char>, entries: Seq<DirEntry>, n: int, path: Seq<char>) -> bool
    decreases entries, n,
{
    if n <= 0 || n > entries.len() {
        false
    } else {
        let entry = entries[n - 1];
        let here = path_join(dir, entry.name@);
        reaches(dir, entries, n - 1, path) || (!is_pruned(entry) && ((is_manifest(entry.name@)
            && path == here) || (entry.node matches FsNode::Directory(DirListing::Entries(children))
            && reaches(here, children@, children@.len() as int, path))))
    }
}

/// A walk that succeeds finds exactly the manifests that can be reached
/// without entering a hidden directory: it omits none of them, and it
/// reports nothing else.
pub proof fn lemma_scan_finds_what_is_reachable(
    dir: Seq<char>,
    entries: Seq<DirEntry>,
    n: int,
    path: Seq<char>,
)
    requires
        0 <= n <= entries.len(),
        scan_entries(dir, entries, n) is Ok,
    ensures
        scan_entries(dir, entries, n)->Ok_0.contains(path) <==> reaches(dir, entries, n, path),
    decreases entries, n,
{
    if n > 0 {
        let before = scan_entries(dir, entries, n - 1)->Ok_0;
        lemma_scan_finds_what_is_reachable(dir, entries, n - 1, path);
        let entry = entries[n - 1];
        let here_path = path_join(dir, entry.name@);
        let found = scan_entries(dir, entries, n)->Ok_0;
        if !is_pruned(entry) {
            let here = if is_manifest(entry.name@) {
                before.push(here_path)
            } else {
                before
            };
            assert(here.contains(path) <==> before.contains(path) || (is_manifest(entry.name@)
                && path == here_path)) by {
                if before.contains(path) {
                    let i = choose|i: int| 0 <= i < before.len() && before[i] == path;
                    assert(here[i] == path);
                }
                if is_manifest(entry.name@) && path == here_path {
                    assert(here[here.len() - 1] == path);
                }
            }
            match entry.node {
                FsNode::Directory(listing) => {
                    let below = scan_listing(here_path, listing)->Ok_0;
                    assert(found == here + below);
                    match listing {
                        DirListing::Entries(children) => {
                            lemma_scan_finds_what_is_reachable(
                                here_path,
                                children@,
                                children@.len() as int,
                                path,
                            );
                        },
                        _ => {
                            assert(below.len() == 0);
                        },
                    }
                    assert(found.contains(path) <==> here.contains(path) || below.contains(path))
                        by {
                        if here.contains(path) {
                            let i = choose|i: int| 0 <= i < here.len() && here[i] == path;
                            assert(found[i] == path);
                        }
                        if below.contains(path) {
                            let i = choose|i: int| 0 <= i < below.len() && below[i] == path;
                            assert(found[here.len() + i] == path);
                        }
                        if found.contains(path) {
                            let i = choose|i: int| 0 <= i < found.len() && found[i] == path;
                            if i < here.len() {
                                assert(here[i] == path);
                            } else {
                                assert(below[i - here.len()] == path);
                            }
                        }
                    }
                },
                _ => {},
            }
        }
    }
}

/// The number of entries named like a manifest that a walk of the first
/// `n` of `entries` comes to without entering a hidden directory.
pub open spec fn manifest_count(entries: Seq<DirEntry>, n: int) -> nat
    decreases entries, n,
{
    if n <= 0 || n > entries.len() {
        0
    } else {
        let entry = entries[n - 1];
        let before = manifest_count(entries, n - 1);
        if is_pruned(entry) {
            before
        } else {
            let here: nat = if is_manifest(entry.name@) {
                1
            } else {
                0
            };
            let below = match entry.node {
                FsNode::Directory(DirListing::Entries(children)) => manifest_count(
                    children@,
                    children@.len() as int,
                ),
                _ => 0,
            };
            before + here + below
        }
    }
}

/// A walk that succeeds reports each manifest that it comes to once: it
/// gives as many paths as there are such entries.
pub proof fn lemma_scan_reports_each_once(dir: Seq<char>, entries: Seq<DirEntry>, n: int)
    requires
        0 <= n <= entries.len(),
        scan_entries(dir, entries, n) is Ok,
    ensures
        scan_entries(dir, entries, n)->Ok_0.len() == manifest_count(entries, n),
    decreases entries, n,
{
    if n > 0 {
        assert(scan_entries(dir, entries, n - 1) is Ok);
        lemma_scan_reports_each_once(dir, entries, n - 1);
        let before = scan_entries(dir, entries, n - 1)->Ok_0;
        let entry = entries[n - 1];
        let path = path_join(dir, entry.name@);
        if !is_pruned(entry) {
            let here = if is_manifest(entry.name@) {
                before.push(path)
            } else {
                before
            };
            match entry.node {
                FsNode::Directory(listing) => {
                    assert(scan_listing(path, listing) is Ok);
                    let below = scan_listing(path, listing)->Ok_0;
                    assert(scan_entries(dir, entries, n)->Ok_0 == here + below);
                    match listing {
                        DirListing::Entries(children) => {
                            lemma_scan_reports_each_once(path, children@, children@.len() as int);
                        },
                        _ => {
                            assert(below.len() == 0);
                        },
                    }
                },
                _ => {},
            }
        }
    }
}

/// Two listings that differ at most in what their hidden directories hold.
pub open spec fn alike_listing(a: DirListing, b: DirListing) -> bool
    decreases a, 0int,
{
    match (a, b) {
        (DirListing::Unvisited, DirListing::Unvisited) => true,
        (DirListing::Unreadable(cause_a), DirListing::Unreadable(cause_b)) => cause_a@ == cause_b@,
        (DirListing::Entries(entries_a), DirListing::Entries(entries_b)) => entries_a@.len()
            == entries_b@.len() && alike_entries(entries_a@, entries_b@, entries_a@.len() as int),
        _ => false,
    }
}

/// The first `n` entries of `a` and of `b` have the same names and kinds,
/// and hold the same, but for what lies in hidden directories.
pub open spec fn alike_entries(a: Seq<DirEntry>, b: Seq<DirEntry>, n: int) -> bool
    decreases a, n,
{
    if n <= 0 || n > a.len() || n > b.len() {
        n <= 0
    } else {
        let x = a[n - 1];
        let y = b[n - 1];
        &&& alike_entries(a, b, n - 1)
        &&& x.name@ == y.name@
        &&& match (x.node, y.node) {
            (FsNode::Directory(listing_a), FsNode::Directory(listing_b)) => is_hidden(x.name@)
                || alike_listing(listing_a, listing_b),
            (FsNode::Directory(_), _) => false,
            (_, FsNode::Directory(_)) => false,
            _ => true,
        }
    }
}

/// The walk never enters a hidden directory, at any depth: two trees that
/// differ only in what their hidden directories hold give the same outcome.
pub proof fn lemma_hidden_contents_are_ignored(
    dir: Seq<char>,
    a: Seq<DirEntry>,
    b: Seq<DirEntry>,
    n: int,
)
    requires
        0 <= n <= a.len(),
        n <= b.len(),
        alike_entries(a, b, n),
    ensures
        scan_entries(dir, a, n) == scan_entries(dir, b, n),
    decreases a, n,
{
    if n > 0 {
        assert(alike_entries(a, b, n - 1));
        lemma_hidden_contents_are_ignored(dir, a, b, n - 1);
        let x = a[n - 1];
        let y = b[n - 1];
        let path = path_join(dir, x.name@);
        assert(x.name@ == y.name@);
        assert(is_pruned(x) == is_pruned(y));
        if !is_pruned(x) {
            match (x.node, y.node) {
                (FsNode::Directory(listing_a), FsNode::Directory(listing_b)) => {
                    assert(alike_listing(listing_a, listing_b));
                    match (listing_a, listing_b) {
                        (DirListing::Entries(entries_a), DirListing::Entries(entries_b)) => {
                            lemma_hidden_contents_are_ignored(
                                path,
                                entries_a@,
                                entries_b@,
                                entries_a@.len() as int,
                            );
                        },
                        _ => {},
                    }
                    assert(scan_listing(path, listing_a) == scan_listing(path, listing_b));
                },
                _ => {},
            }
        }
    }
}

/// Once the walk has failed, walking further entries changes nothing.
pub proof fn lemma_failure_is_final(dir: Seq<char>, entries: Seq<DirEntry>, n: int, m: int)
    requires
        0 <= n <= m <= entries.len(),
        scan_entries(dir, entries, n) is Err,
    ensures
        scan_entries(dir, entries, m) == scan_entries(dir, entries, n),
    decreases m - n,
{
    if n < m {
        lemma_failure_is_final(dir, entries, n, m - 1);
    }
}

/// Whether the scan walks into a directory of this name.
pub fn descends_into(name: &str) -> (r: bool)
    ensures
        r == !is_hidden(name@),
{
    let n = name.unicode_len();
    !(n > 0 && name.get_char(0) == '.')
}

/// Walks the entries of `dir`.
fn scan_directory(dir: &str, entries: &Vec<DirEntry>) -> (r: Result<Vec<String>, DepError>)
    ensures
        match r {
            Ok(found) => scan_entries(dir@, entries@, entries@.len() as int) == Ok::<
                Seq<Seq<char>>,
                ScanFailure,
            >(views(found@)),
            Err(e) => scan_entries(dir@, entries@, entries@.len() as int) matches Err(failure)
                && e.kind == ErrorKind::IoError && e.path@ == failure.path && e.cause@
                == failure.cause,
        },
    decreases entries@,
{
    let mut found: Vec<String> = Vec::new();
    let mut i: usize = 0;
    assert(views(found@) == Seq::<Seq<char>>::empty());
    while i < entries.len()
        invariant
            i <= entries.len(),
            scan_entries(dir@, entries@, i as int) == Ok::<Seq<Seq<char>>, ScanFailure>(
                views(found@),
            ),
        decreases entries.len() - i,
    {
        let entry = &entries[i];
        let ghost before = views(found@);
        let ghost step = scan_entries(dir@, entries@, i as int + 1);
        let path = join_path(dir, entry.name.as_str());
        if entry.node.is_dir() && !descends_into(entry.name.as_str()) {
            assert(step == Ok::<Seq<Seq<char>>, ScanFailure>(before));
        } else {
            if same_text(entry.name.as_str(), MANIFEST_FILE_NAME) {
                found.push(path.clone());
                assert(views(found@) == before.push(path@));
            }
            let ghost here = views(found@);
            match &entry.node {
                FsNode::Directory(DirListing::Entries(children)) => {
                    assert(scan_listing(path@, entry.node->Directory_0) == scan_entries(
                        path@,
                        children@,
                        children@.len() as int,
                    ));
                    match scan_directory(path.as_str(), children) {
                        Err(e) => {
                            proof {
                                lemma_failure_is_final(
                                    dir@,
                                    entries@,
                                    i as int + 1,
                                    entries@.len() as int,
                                );
                            }
                            return Err(e);
                        },
                        Ok(mut below) => {
                            let ghost below_texts = views(below@);
                            found.append(&mut below);
                            assert(views(found@) == here + below_texts);
                        },
                    }
                },
                FsNode::Directory(DirListing::Unreadable(cause)) => {
                    proof {
                        lemma_failure_is_final(dir@, entries@, i as int + 1, entries@.len() as int);
                    }
                    return Err(DepError::io(path.as_str(), cause.as_str()));
                },
                FsNode::Directory(DirListing::Unvisited) => {
                    assert(here + Seq::<Seq<char>>::empty() == here);
                },
                _ => {},
            }
        }
        assert(step == Ok::<Seq<Seq<char>>, ScanFailure>(views(found@)));
        i += 1;
    }
    Ok(found)
}

/// Finds every manifest below `root_dir`, given what the caller found
/// there, in the order of a depth-first walk.
///
/// Fails with `NotFound` where the root is missing, with `NotADirectory`
/// where it is no directory, and with `IoError` for the first directory on
/// the walk that could not be read.
pub fn find_cargo_toml_files(root_dir: &str, root: &FsNode) -> (r: Result<Vec<String>, DepError>)
    ensures
        match r {
            Ok(found) => root matches FsNode::Directory(listing) && scan_listing(
                root_dir@,
                *listing,
            ) == Ok::<Seq<Seq<char>>, ScanFailure>(views(found@)),
            Err(e) => match root {
                FsNode::Missing => e.kind == ErrorKind::NotFound && e.path@ == root_dir@,
                FsNode::File => e.kind == ErrorKind::NotADirectory && e.path@ == root_dir@,
                FsNode::Directory(listing) => scan_listing(root_dir@, *listing) matches Err(failure)
                    && e.kind == ErrorKind::IoError && e.path@ == failure.path && e.cause@
                    == failure.cause,
            },
        },
{
    match root {
        FsNode::Missing => Err(DepError::not_found(root_dir)),
        FsNode::File => Err(DepError::not_a_directory(root_dir)),
        FsNode::Directory(DirListing::Unvisited) => {
            let found: Vec<String> = Vec::new();
            assert(views(found@) == Seq::<Seq<char>>::empty());
            Ok(found)
        },
        FsNode::Directory(DirListing::Unreadable(cause)) => Err(
            DepError::io(root_dir, cause.as_str()),
        ),
        FsNode::Directory(DirListing::Entries(entries)) => scan_directory(root_dir, entries),
    }
}

} // verus!
