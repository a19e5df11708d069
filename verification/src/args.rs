//! The resolved invocation options.
//!
//! Command-line parsing itself is an external collaborator; it hands the
//! library these plain values.  Paths are carried as strings with `/` as the
//! separator.

use vstd::prelude::*;

verus! {

/// Options for redacting every file found in a folder.
pub struct FolderOpts {
    /// The directory whose files should be redacted.
    pub path: String,
    /// The requested pattern categories, e.g. `phone` or `emails`.
    pub types: Vec<String>,
    /// Whether subdirectories are redacted recursively as well.
    pub recursive: bool,
}

/// Options for redacting a single file.
pub struct FileOpts {
    /// The file to redact.
    pub path: String,
    /// The requested pattern categories.
    pub types: Vec<String>,
}

/// The two modes of an invocation.
pub enum FileOrFolder {
    /// Redact all files in a folder, optionally recursively.
    Folder(FolderOpts),
    /// Redact one file.
    File(FileOpts),
}

/// A whole invocation.
pub struct Opts {
    /// Which mode to run in, with its options.
    pub cmd: FileOrFolder,
}

} // verus!
