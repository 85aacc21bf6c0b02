//! Data shapes of the code viewer around the engine.
//!
//! The viewer lists directories, sizes folders, and reads git history
//! through external process calls; only the records those features exchange
//! are modelled here.  The calls themselves are I/O and live outside the
//! library.

use vstd::prelude::*;

verus! {

/// One entry of a listed directory.
#[derive(Debug)]
pub struct DirectoryEntry {
    pub name: String,
    pub path: String,
    pub is_dir: bool,
}

/// A direct subfolder and its total size in bytes.
#[derive(Debug)]
pub struct SubfolderSize {
    pub name: String,
    pub size: u64,
}

/// Authorship of one line of a file, as git blame reports it.
#[derive(Debug)]
pub struct BlameLine {
    pub author: String,
    pub author_email: String,
    pub timestamp: i64,
    pub line_number: usize,
    pub commit_hash: String,
    pub commit_message: String,
}

/// One commit of a repository's history.
#[derive(Debug)]
pub struct Commit {
    pub hash: String,
    pub author: String,
    pub email: String,
    pub date: String,
    pub message: String,
}

/// One file touched by a commit, with its change counts where numstat
/// reports them.
#[derive(Debug)]
pub struct ChangedFile {
    pub status: String,
    pub path: String,
    pub additions: Option<u32>,
    pub deletions: Option<u32>,
}

/// A commit together with the files it changed.
#[derive(Debug)]
pub struct CommitDetails {
    pub hash: String,
    pub author: String,
    pub email: String,
    pub date: String,
    pub message: String,
    pub files: Vec<ChangedFile>,
    pub stats: String,
}

/// What a repository-wide search turned up: matching file paths and
/// matching commits.
#[derive(Debug)]
pub struct GlobalSearchResult {
    pub files: Vec<String>,
    pub commits: Vec<Commit>,
}

} // verus!
