//! Error kinds surfaced by the catalog's operations.

use vstd::prelude::*;

verus! {

/// Why a request was rejected as malformed.
#[derive(Debug, Clone, PartialEq, Eq)]
pub enum BadRequestKind {
    /// The page number was 0; pages are counted from 1.
    InvalidPage,
    /// A platform name in a filter was not recognized; carries the name.
    InvalidPlatform(String),
    /// A version string was not valid semantic-version syntax; carries it.
    InvalidSemver(String),
    /// A submitted version did not compare strictly greater than the
    /// package's most recently submitted version.
    VersionNotGreater { submitted: String, current: String },
    /// A package with this id already exists; carries the id.
    ModAlreadyExists(String),
    /// The developer is already assigned to the package.
    DuplicateDeveloper,
    /// The tag is already attached to the package.
    DuplicateTag,
    /// The owner cannot be unassigned; ownership must be transferred first.
    OwnerUnassign,
}

/// What a lookup failed to find.
#[derive(Debug, Clone, PartialEq, Eq)]
pub enum MissingEntity {
    /// No package with this id.
    Mod(String),
    /// No package with this id that has at least one validated version.
    ValidatedMod(String),
    /// No version with this version string under this package.
    Version { mod_id: String, version: String },
    /// No developer with this internal id.
    Developer(u64),
    /// No tag with this internal id.
    Tag(u64),
    /// The developer is not assigned to the package.
    Assignment { mod_id: String, developer_id: u64 },
}

/// The error kinds the catalog's operations surface to the request layer.
#[derive(Debug, Clone, PartialEq, Eq)]
pub enum ApiError {
    /// A package, version, developer or assignment was absent.
    NotFound(MissingEntity),
    /// A malformed or rejected request, with the reason.
    BadRequest(BadRequestKind),
    /// The caller lacks rights; decided by the request layer, never raised
    /// by the verified operations themselves.
    Forbidden,
    /// An internal invariant was violated (an update matched no row that
    /// was proven to exist); never silently swallowed.
    Internal,
    /// The backing store was unavailable; raised only by the request layer.
    Storage,
}

impl ApiError {
    /// True of errors that report a malformed request.
    pub open spec fn is_bad_request(self) -> bool {
        self is BadRequest
    }

    /// True of errors that report an absent entity.
    pub open spec fn is_not_found(self) -> bool {
        self is NotFound
    }
}

} // verus!
