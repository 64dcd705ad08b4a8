//! The failures that discovery and resolution report.

use vstd::prelude::*;
use crate::text::joined;
use crate::text::joined3;

verus! {

/// The kind of a failure.
#[derive(Clone, Copy, Debug, PartialEq, Eq, Structural)]
pub enum ErrorKind {
    /// A root directory, lockfile, registry or home directory is missing.
    NotFound,
    /// The path exists but is not a directory.
    NotADirectory,
    /// A manifest or lockfile does not have the expected format.
    ParseError,
    /// A directory or file could not be read.
    IoError,
    /// An outside collaborator (summarizer, tokenizer) reported a failure.
    Collaborator,
}

/// A failure, with the path it concerns and the underlying cause.
#[derive(Debug)]
pub struct DepError {
    pub kind: ErrorKind,
    pub path: String,
    pub cause: String,
}

/// The words that open the message of each kind.
pub open spec fn kind_label(kind: ErrorKind) -> Seq<char> {
    match kind {
        ErrorKind::NotFound => "not found"@,
        ErrorKind::NotADirectory => "not a directory"@,
        ErrorKind::ParseError => "parse error"@,
        ErrorKind::IoError => "i/o error"@,
        ErrorKind::Collaborator => "collaborator failure"@,
    }
}

/// The message of a failure: its label, its path, and its cause where it has one.
pub open spec fn message_text(kind: ErrorKind, path: Seq<char>, cause: Seq<char>) -> Seq<char> {
    if cause.len() == 0 {
        kind_label(kind) + ": "@ + path
    } else {
        kind_label(kind) + ": "@ + path + ": "@ + cause
    }
}

impl DepError {
    /// A failure of the given kind.
    pub fn new(kind: ErrorKind, path: &str, cause: &str) -> (e: DepError)
        ensures
            e.kind == kind,
            e.path@ == path@,
            e.cause@ == cause@,
    {
        DepError { kind, path: path.to_owned(), cause: cause.to_owned() }
    }

    /// `path` does not exist.
    pub fn not_found(path: &str) -> (e: DepError)
        ensures
            e.kind == ErrorKind::NotFound,
            e.path@ == path@,
            e.cause@.len() == 0,
    {
        DepError { kind: ErrorKind::NotFound, path: path.to_owned(), cause: String::new() }
    }

    /// `path` exists but is no directory.
    pub fn not_a_directory(path: &str) -> (e: DepError)
        ensures
            e.kind == ErrorKind::NotADirectory,
            e.path@ == path@,
            e.cause@.len() == 0,
    {
        DepError { kind: ErrorKind::NotADirectory, path: path.to_owned(), cause: String::new() }
    }

    /// The content at `path` is malformed, for the reason `cause`.
    pub fn parse(path: &str, cause: &str) -> (e: DepError)
        ensures
            e.kind == ErrorKind::ParseError,
            e.path@ == path@,
            e.cause@ == cause@,
    {
        DepError::new(ErrorKind::ParseError, path, cause)
    }

    /// Reading `path` failed, for the reason `cause`.
    pub fn io(path: &str, cause: &str) -> (e: DepError)
        ensures
            e.kind == ErrorKind::IoError,
            e.path@ == path@,
            e.cause@ == cause@,
    {
        DepError::new(ErrorKind::IoError, path, cause)
    }

    /// The label of this failure's kind.
    pub fn label(&self) -> (r: &'static str)
        ensures
            r@ == kind_label(self.kind),
    {
        match self.kind {
            ErrorKind::NotFound => "not found",
            ErrorKind::NotADirectory => "not a directory",
            ErrorKind::ParseError => "parse error",
            ErrorKind::IoError => "i/o error",
            ErrorKind::Collaborator => "collaborator failure",
        }
    }

    /// The message to show for this failure.
    pub fn message(&self) -> (r: String)
        ensures
            r@ == message_text(self.kind, self.path@, self.cause@),
    {
        let head = joined3(self.label(), ": ", self.path.as_str());
        if self.cause.as_str().is_empty() {
            head
        } else {
            joined3(head.as_str(), ": ", self.cause.as_str())
        }
    }
}

/// What a parse of the file at `path` amounts to: what was parsed, or a
/// `ParseError` that names the path and keeps the parser's cause.
pub fn parsed_at<T>(path: &str, parsed: Result<T, String>) -> (r: Result<T, DepError>)
    ensures
        match (parsed, r) {
            (Ok(value), Ok(same)) => value == same,
            (Err(cause), Err(e)) => e.kind == ErrorKind::ParseError && e.path@ == path@ && e.cause@
                == cause@,
            _ => false,
        },
{
    match parsed {
        Ok(value) => Ok(value),
        Err(cause) => Err(DepError::parse(path, cause.as_str())),
    }
}

} // verus!
