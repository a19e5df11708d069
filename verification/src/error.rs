//! The error kinds of the library.
//!
//! Catalog and pattern errors are fatal to a whole invocation; document
//! errors abort a single file; directory-entry errors are soft and only
//! recorded.

use vstd::prelude::*;

verus! {

/// Everything that can go wrong while redacting.
#[derive(Clone, Copy, Debug, PartialEq, Eq, Structural)]
pub enum RedactError {
    /// The pattern catalog could not be read or was malformed.
    CatalogError,
    /// A pattern in the catalog is not a valid regex.  Fatal: a silently
    /// dropped pattern would mean a missed redaction.
    PatternCompileError,
    /// The file extension selects no document adapter.
    UnsupportedFormat,
    /// The document container could not be loaded.
    DocumentLoadError,
    /// A PDF page or font instruction was missing or unreadable.
    DocumentPageError,
    /// The redacted document or its manifest could not be written.
    DocumentWriteError,
    /// A directory entry could not be read (soft, recorded per entry).
    DirectoryReadError,
    /// The per-directory output folder could not be created.
    OutputDirCreateError,
}

impl RedactError {
    /// The fixed description of this error kind.
    pub open spec fn message_spec(self) -> Seq<char> {
        match self {
            RedactError::CatalogError => "failed to read the pattern catalog"@,
            RedactError::PatternCompileError => "invalid regex pattern"@,
            RedactError::UnsupportedFormat => "extension not implemented"@,
            RedactError::DocumentLoadError => "unable to load the document"@,
            RedactError::DocumentPageError => "missing or unreadable page or font operand"@,
            RedactError::DocumentWriteError => "unable to write the redacted output"@,
            RedactError::DirectoryReadError => "directory entry cannot be read"@,
            RedactError::OutputDirCreateError => "failed to create output folder"@,
        }
    }

    /// A human-readable description, for presentation by the caller.
    pub fn message(&self) -> (r: String)
        ensures
            r@ == self.message_spec(),
    {
        match self {
            RedactError::CatalogError => "failed to read the pattern catalog".to_owned(),
            RedactError::PatternCompileError => "invalid regex pattern".to_owned(),
            RedactError::UnsupportedFormat => "extension not implemented".to_owned(),
            RedactError::DocumentLoadError => "unable to load the document".to_owned(),
            RedactError::DocumentPageError => "missing or unreadable page or font operand".to_owned(),
            RedactError::DocumentWriteError => "unable to write the redacted output".to_owned(),
            RedactError::DirectoryReadError => "directory entry cannot be read".to_owned(),
            RedactError::OutputDirCreateError => "failed to create output folder".to_owned(),
        }
    }
}

} // verus!
