//! The error taxonomy of the library.

use vstd::prelude::*;

verus! {

/// Everything that can go wrong during an install or launch cycle.
///
/// Each variant names one failure surface; no variant is ever swallowed by
/// the library, the caller decides how to present it.
#[derive(Debug, PartialEq, Eq, Structural)]
pub enum DownloadError {
    /// The remote catalog call failed: network error, non-success status, or
    /// a malformed response (including a response whose game id does not
    /// match the requested one).
    CatalogUnavailable,
    /// The game has no upload matching the platform and host filter.
    NoEligibleVariant,
    /// The manifest file exists but is not a well-formed manifest document.
    ManifestCorrupt,
    /// Writing the manifest file failed; in-memory and on-disk state may
    /// now disagree and the operation must be treated as failed.
    PersistenceFailure,
    /// Enumerating a directory failed while searching for the executable.
    FilesystemTraversalError,
    /// The search finished without finding any executable.  Reported when a
    /// launch was requested, unlike the ordinary "none found" result of the
    /// search itself.
    GameNoExecutable,
    /// The delegated transfer or archive extraction failed; the manifest is
    /// never mutated on this path.
    TransferOrExtractFailure,
}

impl Clone for DownloadError {
    fn clone(&self) -> (r: Self)
        ensures
            r == *self,
    {
        match self {
            DownloadError::CatalogUnavailable => DownloadError::CatalogUnavailable,
            DownloadError::NoEligibleVariant => DownloadError::NoEligibleVariant,
            DownloadError::ManifestCorrupt => DownloadError::ManifestCorrupt,
            DownloadError::PersistenceFailure => DownloadError::PersistenceFailure,
            DownloadError::FilesystemTraversalError => DownloadError::FilesystemTraversalError,
            DownloadError::GameNoExecutable => DownloadError::GameNoExecutable,
            DownloadError::TransferOrExtractFailure => DownloadError::TransferOrExtractFailure,
        }
    }
}

} // verus!
