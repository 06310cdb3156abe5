//! Request and response types of the catalog: what the request layer hands
//! in (submission manifests, listing parameters, path parts) and what it
//! gets back (assembled packages and versions).

use vstd::prelude::*;

verus! {

/// One page of results together with the total count ignoring pagination.
#[derive(Debug, Clone, PartialEq, Eq)]
pub struct PaginatedData<T> {
    pub data: Vec<T>,
    pub count: u64,
}

/// A concrete platform a version can support. `Android` is a meta-platform:
/// in filters it expands to the two concrete Android targets.
#[derive(Debug, Clone, Copy, PartialEq, Eq, Structural)]
pub enum VerPlatform {
    Android,
    Android32,
    Android64,
    Ios,
    Mac,
    Win,
}

/// Runtime-version support of one version, keyed by platform.
#[derive(Debug, Clone, PartialEq, Eq)]
pub struct DetailedGDVersion {
    pub win: Option<String>,
    pub android: Option<String>,
    pub mac: Option<String>,
    pub ios: Option<String>,
    pub android32: Option<String>,
    pub android64: Option<String>,
}

/// A developer as listed on a package.
#[derive(Debug, Clone, PartialEq, Eq)]
pub struct Developer {
    pub id: u64,
    pub username: String,
    pub verified: bool,
    pub is_owner: bool,
}

/// One release of a package, as served to clients.
#[derive(Debug, Clone, PartialEq, Eq)]
pub struct ModVersion {
    pub id: u64,
    pub name: String,
    pub description: Option<String>,
    pub version: String,
    pub download_link: String,
    pub download_count: u64,
    pub hash: String,
    pub geode: String,
    pub early_load: bool,
    pub api: bool,
    pub mod_id: String,
    pub gd: DetailedGDVersion,
}

/// A package with its assembled subordinate data, as served to clients.
#[derive(Debug, Clone, PartialEq, Eq)]
pub struct Mod {
    pub id: String,
    pub repository: Option<String>,
    pub latest_version: String,
    pub validated: bool,
    pub featured: bool,
    pub download_count: u64,
    pub developers: Vec<Developer>,
    pub versions: Vec<ModVersion>,
    pub tags: Vec<String>,
    pub about: Option<String>,
    pub changelog: Option<String>,
}

/// The structured submission fields of a package archive, as produced by the
/// external manifest-parsing service.
#[derive(Debug, Clone, PartialEq, Eq)]
pub struct ModJson {
    pub id: String,
    pub version: String,
    pub name: String,
    pub description: Option<String>,
    pub geode: String,
    pub download_url: String,
    pub hash: String,
    pub early_load: bool,
    pub api: bool,
    pub repository: Option<String>,
    pub about: Option<String>,
    pub changelog: Option<String>,
    pub logo: Vec<u8>,
    pub gd: DetailedGDVersion,
}

/// A developer account as resolved by the external auth layer.
#[derive(Debug, Clone, PartialEq, Eq)]
pub struct FetchedDeveloper {
    pub id: u64,
    pub username: String,
    pub verified: bool,
    pub admin: bool,
}

/// Listing sort order; each ranks packages descending by one key.
#[derive(Debug, Clone, Copy, PartialEq, Eq, Structural)]
pub enum IndexSortType {
    Downloads,
    RecentlyUpdated,
    RecentlyPublished,
}

/// Optional filters and pagination of a listing request.
#[derive(Debug, Clone, PartialEq, Eq)]
pub struct IndexQueryParams {
    pub page: Option<u64>,
    pub per_page: Option<u64>,
    pub tags: Option<String>,
    pub platforms: Option<String>,
    pub query: Option<String>,
    pub gd: Option<String>,
    pub developer: Option<String>,
    pub sort: IndexSortType,
    pub featured: Option<bool>,
}

/// Path parts of a request addressing one version of one package.
#[derive(Debug, Clone, PartialEq, Eq)]
pub struct GetOnePath {
    pub id: String,
    pub version: String,
}

/// Body of a version-submission request: where to fetch the archive.
#[derive(Debug, Clone, PartialEq, Eq)]
pub struct CreateQueryParams {
    pub download_url: String,
}

/// Path part of a version-submission request.
#[derive(Debug, Clone, PartialEq, Eq)]
pub struct CreateVersionPath {
    pub id: String,
}

impl DetailedGDVersion {
    /// The platform/runtime rows this support table stands for: the meta
    /// `android` entry expands to the two concrete Android targets.
    pub open spec fn spec_rows(self) -> Seq<(VerPlatform, String)> {
        let win_rows = match self.win {
            Some(g) => seq![(VerPlatform::Win, g)],
            None => Seq::empty(),
        };
        let mac_rows = match self.mac {
            Some(g) => seq![(VerPlatform::Mac, g)],
            None => Seq::empty(),
        };
        let ios_rows = match self.ios {
            Some(g) => seq![(VerPlatform::Ios, g)],
            None => Seq::empty(),
        };
        let android_rows = match self.android {
            Some(g) => seq![(VerPlatform::Android32, g), (VerPlatform::Android64, g)],
            None => Seq::empty(),
        };
        let android32_rows = match self.android32 {
            Some(g) => seq![(VerPlatform::Android32, g)],
            None => Seq::empty(),
        };
        let android64_rows = match self.android64 {
            Some(g) => seq![(VerPlatform::Android64, g)],
            None => Seq::empty(),
        };
        win_rows + mac_rows + ios_rows + android_rows + android32_rows + android64_rows
    }
}

} // verus!
