//! Catalog engine for a package ("mod") index.
//!
//! The catalog stores versioned packages, their release history and derived
//! aggregates (download counters, the "latest version" pointer), and serves
//! filtered, paginated listings over them. Storage is an in-memory store of
//! plain rows; every operation on it is verified. Semantic-version syntax and
//! precedence are supplied by the `semver` crate through a small trusted
//! boundary.

pub mod api;
pub mod downloads;
pub mod error;
pub mod lifecycle;
pub mod listing;
pub mod ownership;
pub mod store;
pub mod text;
pub mod versioning;

pub use error::ApiError;
pub use error::BadRequestKind;
pub use error::MissingEntity;
