//! Token counts of files.
//!
//! Counting tokens is the work of an outside tokenizer, which the caller
//! runs. The library chooses the files, says what each count or failure
//! amounts to, and gathers the statistics.

use vstd::prelude::*;
use crate::error::DepError;
use crate::error::ErrorKind;
use crate::name_map::put;
use crate::name_map::NameMap;
use crate::path::file_extension;
use crate::path::file_stem;
use crate::path::join_path;
use crate::path::path_join;
use crate::path::split_extension;
use crate::snapshot::DirEntry;
use crate::snapshot::DirListing;
use crate::snapshot::FsNode;
use crate::text::same_text;
use crate::text::views;

verus! {

/// The statistics of one file.
#[derive(Debug)]
pub struct FileStats {
    pub path: String,
    pub size_bytes: usize,
    pub token_count: usize,
}

/// A `FileStats` as the contracts see it.
pub struct FileStatsView {
    pub path: Seq<char>,
    pub size_bytes: usize,
    pub token_count: usize,
}

impl View for FileStats {
    type V = FileStatsView;

    open spec fn view(&self) -> FileStatsView {
        FileStatsView {
            path: self.path@,
            size_bytes: self.size_bytes,
            token_count: self.token_count,
        }
    }
}

/// A file that was chosen for counting: the name it is listed under, which
/// is its file name without the extension, and its path.
#[derive(Debug)]
pub struct TokenFile {
    pub name: String,
    pub path: String,
}

/// A `TokenFile` as the contracts see it.
pub struct TokenFileView {
    pub name: Seq<char>,
    pub path: Seq<char>,
}

impl View for TokenFile {
    type V = TokenFileView;

    open spec fn view(&self) -> TokenFileView {
        TokenFileView { name: self.name@, path: self.path@ }
    }
}

/// What reading a chosen file and counting its tokens gave.
#[derive(Debug)]
pub enum TokenReading {
    /// The file does not exist.
    Missing,
    /// The file could not be read, for the given reason.
    Unreadable(String),
    /// The file was read, and the tokenizer failed on its text, for the
    /// given reason.
    Failed(String),
    /// The file was read, and the tokenizer split its text into this many
    /// tokens.
    Counted(usize),
}

/// A chosen file together with its size and what counting its tokens gave.
#[derive(Debug)]
pub struct CountedFile {
    pub name: String,
    pub path: String,
    pub size_bytes: usize,
    pub reading: TokenReading,
}

/// Whether an entry is counted: it is no directory, and it has the
/// extension that is asked for, where one is.
pub open spec fn is_counted(entry: DirEntry, extension: Option<Seq<char>>) -> bool {
    !(entry.node is Directory) && (extension is None || file_extension(entry.name@) == extension)
}

/// The files chosen among the first `n` of the `entries` of `dir`.
pub open spec fn chosen(
    dir: Seq<char>,
    entries: Seq<DirEntry>,
    extension: Option<Seq<char>>,
    n: int,
) -> Seq<TokenFileView>
    decreases n,
{
    if n <= 0 {
        Seq::empty()
    } else {
        let before = chosen(dir, entries, extension, n - 1);
        let entry = entries[n - 1];
        if is_counted(entry, extension) {
            before.push(
                TokenFileView { name: file_stem(entry.name@), path: path_join(dir, entry.name@) },
            )
        } else {
            before
        }
    }
}

/// The entries of a listing. A directory that was not read counts as empty.
pub open spec fn listed(listing: DirListing) -> Seq<DirEntry> {
    match listing {
        DirListing::Entries(entries) => entries@,
        _ => Seq::empty(),
    }
}

/// Whether `entry` is counted.
fn counts(entry: &DirEntry, extension: Option<&str>) -> (r: (bool, String))
    ensures
        r.0 == is_counted(
            *entry,
            match extension {
                Some(e) => Some(e@),
                None => None,
            },
        ),
        r.1@ == file_stem(entry.name@),
{
    let (stem, found) = split_extension(entry.name.as_str());
    if entry.node.is_dir() {
        return (false, stem);
    }
    let wanted = match extension {
        None => true,
        Some(ext) => match found {
            Some(have) => same_text(have.as_str(), ext),
            None => false,
        },
    };
    (wanted, stem)
}

/// Chooses the files of the directory at `dir_path` whose tokens are
/// counted, given what the caller found there: every entry that is no
/// directory and, where `extension` is given, has that extension.
///
/// Fails with `NotFound` where the directory is missing, with
/// `NotADirectory` where it is none, and with `IoError` where it could not
/// be read.
pub fn select_token_files(dir_path: &str, dir: &FsNode, extension: Option<&str>) -> (r: Result<
    Vec<TokenFile>,
    DepError,
>)
    ensures
        match r {
            Ok(files) => dir matches FsNode::Directory(listing) && !(listing is Unreadable)
                && views(files@) == chosen(
                dir_path@,
                listed(*listing),
                match extension {
                    Some(e) => Some(e@),
                    None => None,
                },
                listed(*listing).len() as int,
            ),
            Err(e) => e.path@ == dir_path@ && match dir {
                FsNode::Missing => e.kind == ErrorKind::NotFound,
                FsNode::File => e.kind == ErrorKind::NotADirectory,
                FsNode::Directory(listing) => listing matches DirListing::Unreadable(cause)
                    && e.kind == ErrorKind::IoError && e.cause@ == cause@,
            },
        },
{
    let mut files: Vec<TokenFile> = Vec::new();
    assert(views(files@) == Seq::<TokenFileView>::empty());
    let entries = match dir {
        FsNode::Missing => {
            return Err(DepError::not_found(dir_path));
        },
        FsNode::File => {
            return Err(DepError::not_a_directory(dir_path));
        },
        FsNode::Directory(DirListing::Unreadable(cause)) => {
            return Err(DepError::io(dir_path, cause.as_str()));
        },
        FsNode::Directory(DirListing::Unvisited) => {
            return Ok(files);
        },
        FsNode::Directory(DirListing::Entries(entries)) => entries,
    };
    let ghost wanted = match extension {
        Some(e) => Some(e@),
        None => None,
    };
    let mut i: usize = 0;
    while i < entries.len()
        invariant
            i <= entries.len(),
            wanted == match extension {
                Some(e) => Some(e@),
                None => None,
            },
            views(files@) == chosen(dir_path@, entries@, wanted, i as int),
        decreases entries.len() - i,
    {
        let (counted, stem) = counts(&entries[i], extension);
        if counted {
            let ghost before = views(files@);
            let file = TokenFile { name: stem, path: join_path(dir_path, entries[i].name.as_str()) };
            let ghost added = file@;
            files.push(file);
            assert(views(files@) == before.push(added));
        }
        i += 1;
    }
    Ok(files)
}

/// The kind and the cause of the failure that a reading amounts to, or
/// `None` for a count.
pub open spec fn reading_failure(reading: TokenReading) -> Option<(ErrorKind, Seq<char>)> {
    match reading {
        TokenReading::Missing => Some((ErrorKind::NotFound, Seq::empty())),
        TokenReading::Unreadable(cause) => Some((ErrorKind::IoError, cause@)),
        TokenReading::Failed(cause) => Some((ErrorKind::Collaborator, cause@)),
        TokenReading::Counted(_) => None,
    }
}

impl TokenReading {
    /// Whether the reading is a count. Any other reading ends the count of
    /// a directory.
    pub fn is_counted(&self) -> (r: bool)
        ensures
            r == (self is Counted),
    {
        match self {
            TokenReading::Counted(_) => true,
            _ => false,
        }
    }
}

/// What the tokenizer's answer for a text amounts to: the count it gave,
/// or a `Collaborator` failure that keeps its message and names no path.
pub fn calculate_tokens(counted: Result<usize, String>) -> (r: Result<usize, DepError>)
    ensures
        match (counted, r) {
            (Ok(n), Ok(m)) => n == m,
            (Err(cause), Err(e)) => e.kind == ErrorKind::Collaborator && e.path@.len() == 0
                && e.cause@ == cause@,
            _ => false,
        },
{
    match counted {
        Ok(n) => Ok(n),
        Err(cause) => {
            let no_path = String::new();
            Err(DepError::new(ErrorKind::Collaborator, no_path.as_str(), cause.as_str()))
        },
    }
}

/// The number of tokens of the file at `file_path`, given what reading and
/// counting it gave.
///
/// Fails with `NotFound` where the file is missing, with `IoError` where it
/// could not be read, and with `Collaborator` where the tokenizer failed;
/// the failure names the path and keeps the cause.
pub fn calculate_file_tokens(file_path: &str, reading: &TokenReading) -> (r: Result<
    usize,
    DepError,
>)
    ensures
        match r {
            Ok(n) => *reading == TokenReading::Counted(n),
            Err(e) => e.path@ == file_path@ && reading_failure(*reading) == Some(
                (e.kind, e.cause@),
            ),
        },
{
    match reading {
        TokenReading::Missing => Err(DepError::not_found(file_path)),
        TokenReading::Unreadable(cause) => Err(DepError::io(file_path, cause.as_str())),
        TokenReading::Failed(cause) => Err(
            DepError::new(ErrorKind::Collaborator, file_path, cause.as_str()),
        ),
        TokenReading::Counted(n) => Ok(*n),
    }
}

/// The statistics after the first `n` of `files`, all of them counted:
/// each name with the path, size and token count of the last file of that
/// name.
pub open spec fn stats_after(files: Seq<CountedFile>, n: int) -> Seq<(Seq<char>, FileStatsView)>
    decreases n,
{
    if n <= 0 {
        Seq::empty()
    } else {
        let file = files[n - 1];
        put(
            stats_after(files, n - 1),
            file.name@,
            FileStatsView {
                path: file.path@,
                size_bytes: file.size_bytes,
                token_count: file.reading->Counted_0,
            },
        )
    }
}

/// Every file before the one at `i` was counted.
pub open spec fn counted_before(files: Seq<CountedFile>, i: int) -> bool {
    &&& 0 <= i <= files.len()
    &&& forall|j: int| 0 <= j < i ==> (#[trigger] files[j]).reading is Counted
}

/// The file at `i` is the first that was not counted.
pub open spec fn is_first_uncounted(files: Seq<CountedFile>, i: int) -> bool {
    &&& counted_before(files, i)
    &&& i < files.len()
    &&& !(files[i].reading is Counted)
}

/// The statistics of the chosen files of a directory, by name: for each its
/// path, its size and its token count.
///
/// Fails at the first file that was not counted: with `NotFound` where it
/// is missing, with `IoError` where it could not be read, and with
/// `Collaborator` where the tokenizer failed. The failure names the file
/// and keeps the cause; what comes after that file plays no part.
pub fn calculate_directory_tokens(files: &Vec<CountedFile>) -> (r: Result<
    NameMap<FileStats>,
    DepError,
>)
    ensures
        match r {
            Ok(stats) => counted_before(files@, files@.len() as int) && stats@ == stats_after(
                files@,
                files@.len() as int,
            ),
            Err(e) => exists|i: int| #[trigger]
                is_first_uncounted(files@, i) && e.path@ == files@[i].path@ && reading_failure(
                    files@[i].reading,
                ) == Some((e.kind, e.cause@)),
        },
{
    let mut stats: NameMap<FileStats> = NameMap::new();
    let mut i: usize = 0;
    while i < files.len()
        invariant
            i <= files.len(),
            counted_before(files@, i as int),
            stats@ == stats_after(files@, i as int),
        decreases files.len() - i,
    {
        let file = &files[i];
        match calculate_file_tokens(file.path.as_str(), &file.reading) {
            Ok(token_count) => {
                stats.insert(
                    file.name.as_str(),
                    FileStats {
                        path: file.path.clone(),
                        size_bytes: file.size_bytes,
                        token_count,
                    },
                );
            },
            Err(e) => {
                assert(is_first_uncounted(files@, i as int));
                return Err(e);
            },
        }
        i += 1;
    }
    Ok(stats)
}

} // verus!
