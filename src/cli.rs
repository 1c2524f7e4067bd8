//! The commands that the program accepts, as plain values.

use vstd::prelude::*;

verus! {

/// One command and its arguments.
#[derive(Debug, Clone, PartialEq, Eq)]
pub enum Command {
    /// Create an empty repository layout.
    Init,
    /// Show an object's content.
    CatFile { blob_sha: String },
    /// Store a file as a blob and print its identifier.
    HashObject { file: String },
    /// List a tree object's entries.
    LsTree { name_only: bool, tree_sha: String },
}

/// The parsed command line.
#[derive(Debug, Clone, PartialEq, Eq)]
pub struct App {
    pub command: Command,
}

} // verus!
