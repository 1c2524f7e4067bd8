//! Error kinds of the object store and of the commands built on it. Where
//! an underlying file operation failed, the variant carries its message.

use vstd::prelude::*;

verus! {

/// Failure while creating a repository layout.
#[derive(Debug, PartialEq, Eq)]
pub enum InitError {
    FileError(String),
}

/// Failure while showing an object.
#[derive(Debug, PartialEq, Eq)]
pub enum CatFileError {
    File(String),
    InvalidObject,
    NotABlob,
}

/// Failure while storing a file as an object.
#[derive(Debug, PartialEq, Eq)]
pub enum HashObjectError {
    File(String),
    InvalidObject,
}

/// Failure while listing a tree.
#[derive(Debug, PartialEq, Eq)]
pub enum LSTreeError {
    File(String),
    InvalidObject,
}

/// Failure of an object-store operation.
#[derive(Debug, PartialEq, Eq)]
pub enum ObjectError {
    /// An underlying file or stream operation failed.
    File(String),
    /// Malformed encoding: header without NUL or space, a bad size, a
    /// payload shorter than declared, or a tree that ends mid-entry.
    InvalidObject,
    /// More than one stored object matches the abbreviated identifier.
    MultipleObjectsFound(String),
    /// The identifier or prefix is not between 2 and 40 characters long.
    InvalidHashLength(String),
    /// No stored object matches the identifier or prefix.
    NotFound(String),
    /// The header names no known kind.
    UnknownObjectKind,
    /// The operation does not apply to objects of this kind.
    Unsupported,
}

/// Any failure of a command.
#[derive(Debug, PartialEq, Eq)]
pub enum GitError {
    CatFileError(CatFileError),
    InitError(InitError),
    HashObjectError(HashObjectError),
    ObjectError(ObjectError),
}

} // verus!
