//! The catalog's backing store: plain rows held in memory, with the
//! invariants the operations rely on and preserve.
//!
//! Timestamps are drawn from a logical clock the store advances itself, so
//! every watermark comparison is exact.

use vstd::prelude::*;

use crate::api::VerPlatform;
use crate::text::str_eq;
use crate::versioning::valid_version_text;
use crate::versioning::version_text_le;

verus! {

/// A stored package.
#[derive(Debug)]
pub struct ModRow {
    pub id: String,
    pub repository: Option<String>,
    pub latest_version: String,
    pub featured: bool,
    pub download_count: u64,
    pub last_download_refresh: u64,
    pub image: Vec<u8>,
    pub about: Option<String>,
    pub changelog: Option<String>,
    pub created_at: u64,
    pub updated_at: u64,
}

/// One platform/runtime-support row of a version.
#[derive(Debug)]
pub struct GdVersionRow {
    pub platform: VerPlatform,
    pub gd: String,
}

/// A stored version of a package.
#[derive(Debug)]
pub struct VersionRow {
    pub id: u64,
    pub mod_id: String,
    pub name: String,
    pub description: Option<String>,
    pub version: String,
    pub download_link: String,
    pub hash: String,
    pub geode: String,
    pub early_load: bool,
    pub api: bool,
    pub validated: bool,
    pub unlisted: bool,
    pub download_count: u64,
    pub last_download_refresh: u64,
    pub gd: Vec<GdVersionRow>,
}

/// A stored developer account.
#[derive(Debug)]
pub struct DeveloperRow {
    pub id: u64,
    pub username: String,
    pub verified: bool,
    pub admin: bool,
}

/// A package-developer edge; at most one edge per package is the owner.
#[derive(Debug)]
pub struct DevLink {
    pub mod_id: String,
    pub developer_id: u64,
    pub is_owner: bool,
}

/// A stored tag of the controlled vocabulary.
#[derive(Debug)]
pub struct TagRow {
    pub id: u64,
    pub name: String,
}

/// A package-tag edge.
#[derive(Debug)]
pub struct TagLink {
    pub mod_id: String,
    pub tag_id: u64,
}

/// One raw download event; appended once per client and version, never
/// updated.
#[derive(Debug)]
pub struct DownloadRow {
    pub client: u64,
    pub version_id: u64,
    pub time: u64,
}

/// The download event belongs to a version of this package.
pub open spec fn event_in_mod(versions: Seq<VersionRow>, d: DownloadRow, mod_id: Seq<char>) -> bool {
    exists|i: int|
        0 <= i < versions.len() && versions[i].id == d.version_id && versions[i].mod_id@ == mod_id
}

/// How many of the first `j` download events belong to this package.
pub open spec fn count_mod_events(
    versions: Seq<VersionRow>,
    downloads: Seq<DownloadRow>,
    mod_id: Seq<char>,
    j: int,
) -> nat
    decreases j,
{
    if j <= 0 {
        0
    } else {
        count_mod_events(versions, downloads, mod_id, j - 1) + if event_in_mod(
            versions,
            downloads[j - 1],
            mod_id,
        ) {
            1nat
        } else {
            0nat
        }
    }
}

/// How many of the first `j` download events belong to this version.
pub open spec fn count_version_events(downloads: Seq<DownloadRow>, vid: u64, j: int) -> nat
    decreases j,
{
    if j <= 0 {
        0
    } else {
        count_version_events(downloads, vid, j - 1) + if downloads[j - 1].version_id == vid {
            1nat
        } else {
            0nat
        }
    }
}

/// How many of the first `j` edges are owner edges of this package.
pub open spec fn count_owners(links: Seq<DevLink>, mod_id: Seq<char>, j: int) -> nat
    decreases j,
{
    if j <= 0 {
        0
    } else {
        count_owners(links, mod_id, j - 1) + if links[j - 1].mod_id@ == mod_id && links[j
            - 1].is_owner {
            1nat
        } else {
            0nat
        }
    }
}

/// A count of matching events never exceeds the number of events counted.
pub proof fn lemma_count_version_events_le(downloads: Seq<DownloadRow>, vid: u64, j: int)
    requires
        0 <= j,
    ensures
        count_version_events(downloads, vid, j) <= j,
    decreases j,
{
    if j > 0 {
        lemma_count_version_events_le(downloads, vid, j - 1);
    }
}

/// A count of matching events never exceeds the number of events counted.
pub proof fn lemma_count_mod_events_le(
    versions: Seq<VersionRow>,
    downloads: Seq<DownloadRow>,
    mod_id: Seq<char>,
    j: int,
)
    requires
        0 <= j,
    ensures
        count_mod_events(versions, downloads, mod_id, j) <= j,
    decreases j,
{
    if j > 0 {
        lemma_count_mod_events_le(versions, downloads, mod_id, j - 1);
    }
}

/// Some package row in the sequence carries this id.
pub open spec fn mods_contain(mods: Seq<ModRow>, id: Seq<char>) -> bool {
    exists|i: int| 0 <= i < mods.len() && mods[i].id@ == id
}

/// Some version row in the sequence carries this internal id.
pub open spec fn versions_contain_id(versions: Seq<VersionRow>, vid: u64) -> bool {
    exists|i: int| 0 <= i < versions.len() && versions[i].id == vid
}

/// Some developer row in the sequence carries this id.
pub open spec fn devs_contain_id(devs: Seq<DeveloperRow>, dev_id: u64) -> bool {
    exists|i: int| 0 <= i < devs.len() && devs[i].id == dev_id
}

/// Some tag row in the sequence carries this id.
pub open spec fn tags_contain_id(tags: Seq<TagRow>, tag_id: u64) -> bool {
    exists|t: int| 0 <= t < tags.len() && tags[t].id == tag_id
}

/// Row `j` is the next version of the same package after row `i`.
pub open spec fn succ_version_in(versions: Seq<VersionRow>, i: int, j: int) -> bool {
    &&& 0 <= i < j < versions.len()
    &&& versions[j].mod_id@ == versions[i].mod_id@
    &&& forall|k: int| i < k < j ==> versions[k].mod_id@ != versions[i].mod_id@
}

/// Package ids are unique.
pub open spec fn mods_unique(mods: Seq<ModRow>) -> bool {
    forall|i: int, j: int| 0 <= i < j < mods.len() ==> mods[i].id@ != mods[j].id@
}

/// Version rows: internal ids strictly increase with insertion order and
/// stay below the id counter, every row belongs to an existing package,
/// every version text is valid, and each version of a package compares
/// strictly greater than the one submitted before it.
pub open spec fn versions_sound(versions: Seq<VersionRow>, mods: Seq<ModRow>, next: u64) -> bool {
    &&& forall|i: int, j: int| 0 <= i < j < versions.len() ==> versions[i].id < versions[j].id
    &&& forall|i: int| 0 <= i < versions.len() ==> #[trigger] versions[i].id < next
    &&& forall|i: int|
        0 <= i < versions.len() ==> mods_contain(mods, #[trigger] versions[i].mod_id@)
    &&& forall|i: int|
        0 <= i < versions.len() ==> valid_version_text(#[trigger] versions[i].version@)
    &&& forall|i: int, j: int|
        #[trigger] succ_version_in(versions, i, j) ==> !version_text_le(
            versions[j].version@,
            versions[i].version@,
        )
}

/// Developer ids and usernames are unique; ids stay below the counter.
pub open spec fn developers_unique(devs: Seq<DeveloperRow>, next: u64) -> bool {
    &&& forall|i: int, j: int| 0 <= i < j < devs.len() ==> devs[i].id != devs[j].id
    &&& forall|i: int, j: int| 0 <= i < j < devs.len() ==> devs[i].username@ != devs[j].username@
    &&& forall|i: int| 0 <= i < devs.len() ==> #[trigger] devs[i].id < next
}

/// Developer edges: at most one edge per package-developer pair, at most
/// one owner per package, and both endpoints exist.
pub open spec fn dev_links_sound(
    links: Seq<DevLink>,
    mods: Seq<ModRow>,
    devs: Seq<DeveloperRow>,
) -> bool {
    &&& forall|i: int, j: int|
        0 <= i < j < links.len() ==> !(links[i].mod_id@ == links[j].mod_id@
            && links[i].developer_id == links[j].developer_id)
    &&& forall|i: int, j: int|
        0 <= i < j < links.len() && links[i].mod_id@ == links[j].mod_id@ ==> !(links[i].is_owner
            && links[j].is_owner)
    &&& forall|i: int| 0 <= i < links.len() ==> mods_contain(mods, #[trigger] links[i].mod_id@)
    &&& forall|i: int|
        0 <= i < links.len() ==> devs_contain_id(devs, #[trigger] links[i].developer_id)
}

/// Tag ids and names are unique; ids stay below the counter.
pub open spec fn tags_unique(tags: Seq<TagRow>, next: u64) -> bool {
    &&& forall|i: int, j: int| 0 <= i < j < tags.len() ==> tags[i].id != tags[j].id
    &&& forall|i: int, j: int| 0 <= i < j < tags.len() ==> tags[i].name@ != tags[j].name@
    &&& forall|i: int| 0 <= i < tags.len() ==> #[trigger] tags[i].id < next
}

/// Tag edges: unique pairs with existing endpoints.
pub open spec fn tag_links_sound(links: Seq<TagLink>, mods: Seq<ModRow>, tags: Seq<TagRow>) -> bool {
    &&& forall|i: int, j: int|
        0 <= i < j < links.len() ==> !(links[i].mod_id@ == links[j].mod_id@ && links[i].tag_id
            == links[j].tag_id)
    &&& forall|i: int| 0 <= i < links.len() ==> mods_contain(mods, #[trigger] links[i].mod_id@)
    &&& forall|i: int| 0 <= i < links.len() ==> tags_contain_id(tags, #[trigger] links[i].tag_id)
}

/// Download events: at most one event per client and version, every event
/// references an existing version, and every event lies at or before the
/// watermark of its version and of its package — the refreshes have already
/// accounted for everything stored.
pub open spec fn downloads_sound(
    downloads: Seq<DownloadRow>,
    versions: Seq<VersionRow>,
    mods: Seq<ModRow>,
) -> bool {
    &&& forall|i: int, j: int|
        0 <= i < j < downloads.len() ==> !(downloads[i].client == downloads[j].client
            && downloads[i].version_id == downloads[j].version_id)
    &&& forall|i: int|
        0 <= i < downloads.len() ==> versions_contain_id(
            versions,
            #[trigger] downloads[i].version_id,
        )
    &&& forall|i: int, k: int|
        0 <= i < downloads.len() && 0 <= k < versions.len() && #[trigger] versions[k].id
            == #[trigger] downloads[i].version_id ==> downloads[i].time
            <= versions[k].last_download_refresh
    &&& forall|i: int, k: int, m: int|
        0 <= i < downloads.len() && 0 <= k < versions.len() && #[trigger] versions[k].id
            == #[trigger] downloads[i].version_id && 0 <= m < mods.len() && #[trigger] mods[m].id@
            == versions[k].mod_id@ ==> downloads[i].time <= mods[m].last_download_refresh
}

/// Counters and watermarks: every watermark lies at or before the clock,
/// and no cached counter exceeds the number of stored events it summarizes.
pub open spec fn counters_sound(
    mods: Seq<ModRow>,
    versions: Seq<VersionRow>,
    downloads: Seq<DownloadRow>,
    clock: u64,
) -> bool {
    &&& forall|i: int|
        0 <= i < mods.len() ==> #[trigger] mods[i].last_download_refresh <= clock
    &&& forall|i: int|
        0 <= i < versions.len() ==> #[trigger] versions[i].last_download_refresh <= clock
    &&& forall|i: int|
        0 <= i < mods.len() ==> #[trigger] mods[i].download_count <= count_mod_events(
            versions,
            downloads,
            mods[i].id@,
            downloads.len() as int,
        )
    &&& forall|i: int|
        0 <= i < versions.len() ==> #[trigger] versions[i].download_count <= count_version_events(
            downloads,
            versions[i].id,
            downloads.len() as int,
        )
}

/// A witness index survives appending a row: package lookup.
pub proof fn lemma_mods_contain_push(mods: Seq<ModRow>, row: ModRow, id: Seq<char>)
    requires
        mods_contain(mods, id),
    ensures
        mods_contain(mods.push(row), id),
{
    let w = choose|w: int| 0 <= w < mods.len() && mods[w].id@ == id;
    assert(mods.push(row)[w].id@ == id);
}

/// A witness index survives appending a row: version lookup.
pub proof fn lemma_versions_contain_push(versions: Seq<VersionRow>, row: VersionRow, vid: u64)
    requires
        versions_contain_id(versions, vid),
    ensures
        versions_contain_id(versions.push(row), vid),
{
    let w = choose|w: int| 0 <= w < versions.len() && versions[w].id == vid;
    assert(versions.push(row)[w].id == vid);
}

/// A witness index survives appending a row: developer lookup.
pub proof fn lemma_devs_contain_push(devs: Seq<DeveloperRow>, row: DeveloperRow, dev_id: u64)
    requires
        devs_contain_id(devs, dev_id),
    ensures
        devs_contain_id(devs.push(row), dev_id),
{
    let w = choose|w: int| 0 <= w < devs.len() && devs[w].id == dev_id;
    assert(devs.push(row)[w].id == dev_id);
}

/// A witness index survives appending a row: tag lookup.
pub proof fn lemma_tags_contain_push(tags: Seq<TagRow>, row: TagRow, tag_id: u64)
    requires
        tags_contain_id(tags, tag_id),
    ensures
        tags_contain_id(tags.push(row), tag_id),
{
    let w = choose|w: int| 0 <= w < tags.len() && tags[w].id == tag_id;
    assert(tags.push(row)[w].id == tag_id);
}

/// A package with a validated version has one such version of greatest
/// internal id: the "latest" the resolver writes back.
pub proof fn lemma_latest_validated_exists(c: Catalog, id: Seq<char>, n: int)
    requires
        0 <= n <= c.versions@.len(),
        exists|i: int|
            0 <= i < n && #[trigger] c.versions@[i].mod_id@ == id && c.versions@[i].validated,
        forall|j: int|
            n <= j < c.versions@.len() ==> !(#[trigger] c.versions@[j].mod_id@ == id
                && c.versions@[j].validated),
    ensures
        exists|i: int| c.is_latest_validated_of(i, id),
    decreases n,
{
    if c.versions@[n - 1].mod_id@ == id && c.versions@[n - 1].validated {
        assert(c.is_latest_validated_of(n - 1, id));
    } else {
        let w = choose|i: int|
            0 <= i < n && #[trigger] c.versions@[i].mod_id@ == id && c.versions@[i].validated;
        assert(0 <= w < n - 1);
        lemma_latest_validated_exists(c, id, n - 1);
    }
}

/// Among the rows carrying a version string there is a newest one.
pub proof fn lemma_last_string_match_exists(c: Catalog, id: Seq<char>, version: Seq<char>, n: int)
    requires
        0 <= n <= c.versions@.len(),
        exists|i: int|
            0 <= i < n && #[trigger] c.versions@[i].mod_id@ == id && c.versions@[i].version@
                == version,
        forall|j: int|
            n <= j < c.versions@.len() ==> !(#[trigger] c.versions@[j].mod_id@ == id
                && c.versions@[j].version@ == version),
    ensures
        exists|i: int| c.is_last_string_match(i, id, version),
    decreases n,
{
    if c.versions@[n - 1].mod_id@ == id && c.versions@[n - 1].version@ == version {
        assert(c.is_last_string_match(n - 1, id, version));
    } else {
        let w = choose|i: int|
            0 <= i < n && #[trigger] c.versions@[i].mod_id@ == id && c.versions@[i].version@
                == version;
        assert(0 <= w < n - 1);
        lemma_last_string_match_exists(c, id, version, n - 1);
    }
}

/// A verified byte-for-byte copy.
pub fn clone_bytes(v: &Vec<u8>) -> (r: Vec<u8>)
    ensures
        r@ == v@,
{
    let mut r: Vec<u8> = Vec::new();
    let n = v.len();
    let mut i: usize = 0;
    while i < n
        invariant
            i <= n,
            n == v@.len(),
            r@ == v@.take(i as int),
        decreases n - i,
    {
        r.push(v[i]);
        proof {
            assert(r@ =~= v@.take(i as int + 1));
        }
        i = i + 1;
    }
    proof {
        assert(v@.take(n as int) =~= v@);
    }
    r
}

/// The whole catalog state.
#[derive(Debug)]
pub struct Catalog {
    pub mods: Vec<ModRow>,
    pub versions: Vec<VersionRow>,
    pub developers: Vec<DeveloperRow>,
    pub dev_links: Vec<DevLink>,
    pub tags: Vec<TagRow>,
    pub tag_links: Vec<TagLink>,
    pub downloads: Vec<DownloadRow>,
    pub next_version_id: u64,
    pub next_developer_id: u64,
    pub next_tag_id: u64,
    pub clock: u64,
}

impl Catalog {
    /// Some package carries this id.
    pub open spec fn has_mod(self, id: Seq<char>) -> bool {
        mods_contain(self.mods@, id)
    }

    /// The position of the package with this id; meaningful only when
    /// `has_mod` holds, unique because package ids are unique.
    pub open spec fn mod_idx(self, id: Seq<char>) -> int {
        choose|i: int| 0 <= i < self.mods@.len() && self.mods@[i].id@ == id
    }

    /// Some version row carries this internal id.
    pub open spec fn has_version_id(self, vid: u64) -> bool {
        versions_contain_id(self.versions@, vid)
    }

    /// The position of the version with this internal id; meaningful only
    /// when `has_version_id` holds.
    pub open spec fn version_idx(self, vid: u64) -> int {
        choose|i: int| 0 <= i < self.versions@.len() && self.versions@[i].id == vid
    }

    /// Position `i` holds the most recently submitted version of the
    /// package: no later row belongs to the same package.
    pub open spec fn is_last_version_of(self, i: int, mod_id: Seq<char>) -> bool {
        &&& 0 <= i < self.versions@.len()
        &&& self.versions@[i].mod_id@ == mod_id
        &&& forall|j: int|
            i < j < self.versions@.len() ==> self.versions@[j].mod_id@ != mod_id
    }

    /// Position `i` holds the validated version of the package with the
    /// greatest internal id: no later row is a validated version of it.
    pub open spec fn is_latest_validated_of(self, i: int, mod_id: Seq<char>) -> bool {
        &&& 0 <= i < self.versions@.len()
        &&& self.versions@[i].mod_id@ == mod_id
        &&& self.versions@[i].validated
        &&& forall|j: int|
            i < j < self.versions@.len() ==> !(self.versions@[j].mod_id@ == mod_id
                && self.versions@[j].validated)
    }

    /// The package has at least one version row.
    pub open spec fn has_version_of(self, mod_id: Seq<char>) -> bool {
        exists|i: int| 0 <= i < self.versions@.len() && self.versions@[i].mod_id@ == mod_id
    }

    /// The package has at least one validated version row.
    pub open spec fn has_validated_version_of(self, mod_id: Seq<char>) -> bool {
        exists|i: int|
            0 <= i < self.versions@.len() && self.versions@[i].mod_id@ == mod_id
                && self.versions@[i].validated
    }

    /// The position of the most recently submitted version of the package;
    /// meaningful only when `has_version_of` holds.
    pub open spec fn last_version_idx(self, mod_id: Seq<char>) -> int {
        choose|i: int| self.is_last_version_of(i, mod_id)
    }

    /// The position of the latest validated version of the package;
    /// meaningful only when `has_validated_version_of` holds.
    pub open spec fn latest_validated_idx(self, mod_id: Seq<char>) -> int {
        choose|i: int| self.is_latest_validated_of(i, mod_id)
    }

    /// Some developer row carries this id.
    pub open spec fn has_developer(self, dev_id: u64) -> bool {
        devs_contain_id(self.developers@, dev_id)
    }

    /// The position of the developer with this id; meaningful only when
    /// `has_developer` holds.
    pub open spec fn developer_idx(self, dev_id: u64) -> int {
        choose|i: int| 0 <= i < self.developers@.len() && self.developers@[i].id == dev_id
    }

    /// Some edge links this package and developer.
    pub open spec fn has_dev_link(self, mod_id: Seq<char>, dev_id: u64) -> bool {
        exists|i: int|
            0 <= i < self.dev_links@.len() && self.dev_links@[i].mod_id@ == mod_id
                && self.dev_links@[i].developer_id == dev_id
    }

    /// The position of the edge linking this package and developer;
    /// meaningful only when `has_dev_link` holds.
    pub open spec fn dev_link_idx(self, mod_id: Seq<char>, dev_id: u64) -> int {
        choose|i: int|
            0 <= i < self.dev_links@.len() && self.dev_links@[i].mod_id@ == mod_id
                && self.dev_links@[i].developer_id == dev_id
    }

    /// The package has at least one developer edge.
    pub open spec fn has_any_dev_link(self, mod_id: Seq<char>) -> bool {
        exists|i: int| 0 <= i < self.dev_links@.len() && self.dev_links@[i].mod_id@ == mod_id
    }

    /// Some tag row carries this id.
    pub open spec fn has_tag_id(self, tag_id: u64) -> bool {
        tags_contain_id(self.tags@, tag_id)
    }

    /// The whole store invariant.
    pub open spec fn wf(self) -> bool {
        &&& mods_unique(self.mods@)
        &&& versions_sound(self.versions@, self.mods@, self.next_version_id)
        &&& developers_unique(self.developers@, self.next_developer_id)
        &&& dev_links_sound(self.dev_links@, self.mods@, self.developers@)
        &&& tags_unique(self.tags@, self.next_tag_id)
        &&& tag_links_sound(self.tag_links@, self.mods@, self.tags@)
        &&& downloads_sound(self.downloads@, self.versions@, self.mods@)
        &&& counters_sound(self.mods@, self.versions@, self.downloads@, self.clock)
    }

    /// An empty catalog.
    pub fn new() -> (r: Catalog)
        ensures
            r.wf(),
            r.mods@.len() == 0,
            r.versions@.len() == 0,
            r.developers@.len() == 0,
            r.dev_links@.len() == 0,
            r.tags@.len() == 0,
            r.tag_links@.len() == 0,
            r.downloads@.len() == 0,
    {
        Catalog {
            mods: Vec::new(),
            versions: Vec::new(),
            developers: Vec::new(),
            dev_links: Vec::new(),
            tags: Vec::new(),
            tag_links: Vec::new(),
            downloads: Vec::new(),
            next_version_id: 1,
            next_developer_id: 1,
            next_tag_id: 1,
            clock: 0,
        }
    }

    /// Records a developer account, as created by the external account
    /// service, and returns its internal id.
    pub fn add_developer(&mut self, username: String, verified: bool, admin: bool) -> (r: Option<
        u64,
    >)
        requires
            old(self).wf(),
            old(self).next_developer_id < u64::MAX,
        ensures
            final(self).wf(),
            match r {
                Some(id) => {
                    &&& !(exists|i: int|
                        0 <= i < old(self).developers@.len()
                            && old(self).developers@[i].username@ == username@)
                    &&& id == old(self).next_developer_id
                    &&& final(self).developers@ == old(self).developers@.push(
                        (DeveloperRow { id, username, verified, admin }),
                    )
                    &&& final(self).next_developer_id == old(self).next_developer_id + 1
                },
                None => {
                    &&& exists|i: int|
                        0 <= i < old(self).developers@.len()
                            && old(self).developers@[i].username@ == username@
                    &&& *final(self) == *old(self)
                },
            },
            final(self).mods@ == old(self).mods@,
            final(self).versions@ == old(self).versions@,
            final(self).dev_links@ == old(self).dev_links@,
            final(self).tags@ == old(self).tags@,
            final(self).tag_links@ == old(self).tag_links@,
            final(self).downloads@ == old(self).downloads@,
            final(self).clock == old(self).clock,
    {
        let n = self.developers.len();
        let mut i: usize = 0;
        while i < n
            invariant
                i <= n,
                n == self.developers@.len(),
                *self == *old(self),
                old(self).wf(),
                forall|j: int| 0 <= j < i ==> self.developers@[j].username@ != username@,
            decreases n - i,
        {
            if str_eq(self.developers[i].username.as_str(), username.as_str()) {
                return None;
            }
            i = i + 1;
        }
        let id = self.next_developer_id;
        self.developers.push(DeveloperRow { id, username, verified, admin });
        self.next_developer_id = id + 1;
        proof {
            let devs = self.developers@;
            let n0 = old(self).developers@.len() as int;
            assert forall|a: int, b: int| 0 <= a < b < devs.len() implies devs[a].id
                != devs[b].id by {
                if b == n0 {
                    assert(old(self).developers@[a].id < old(self).next_developer_id);
                }
            }
            assert forall|a: int, b: int| 0 <= a < b < devs.len() implies devs[a].username@
                != devs[b].username@ by {
                if b == n0 {
                    assert(old(self).developers@[a].username@ != username@);
                }
            }
            assert forall|k: int| 0 <= k < devs.len() implies #[trigger] devs[k].id
                < self.next_developer_id by {
                if k < n0 {
                    assert(old(self).developers@[k].id < old(self).next_developer_id);
                }
            }
            let row = (DeveloperRow { id, username, verified, admin });
            assert forall|k: int|
                0 <= k < self.dev_links@.len() implies devs_contain_id(
                self.developers@,
                #[trigger] self.dev_links@[k].developer_id,
            ) by {
                assert(devs_contain_id(
                    old(self).developers@,
                    old(self).dev_links@[k].developer_id,
                ));
                lemma_devs_contain_push(
                    old(self).developers@,
                    row,
                    old(self).dev_links@[k].developer_id,
                );
            }
            assert(self.wf());
        }
        Some(id)
    }

    /// Records a tag of the controlled vocabulary and returns its id.
    pub fn add_tag(&mut self, name: String) -> (r: Option<u64>)
        requires
            old(self).wf(),
            old(self).next_tag_id < u64::MAX,
        ensures
            final(self).wf(),
            match r {
                Some(id) => {
                    &&& !(exists|i: int|
                        0 <= i < old(self).tags@.len() && old(self).tags@[i].name@ == name@)
                    &&& id == old(self).next_tag_id
                    &&& final(self).tags@ == old(self).tags@.push((TagRow { id, name }))
                    &&& final(self).next_tag_id == old(self).next_tag_id + 1
                },
                None => {
                    &&& exists|i: int|
                        0 <= i < old(self).tags@.len() && old(self).tags@[i].name@ == name@
                    &&& *final(self) == *old(self)
                },
            },
            final(self).mods@ == old(self).mods@,
            final(self).versions@ == old(self).versions@,
            final(self).developers@ == old(self).developers@,
            final(self).dev_links@ == old(self).dev_links@,
            final(self).tag_links@ == old(self).tag_links@,
            final(self).downloads@ == old(self).downloads@,
            final(self).clock == old(self).clock,
    {
        let n = self.tags.len();
        let mut i: usize = 0;
        while i < n
            invariant
                i <= n,
                n == self.tags@.len(),
                *self == *old(self),
                old(self).wf(),
                forall|j: int| 0 <= j < i ==> self.tags@[j].name@ != name@,
            decreases n - i,
        {
            if str_eq(self.tags[i].name.as_str(), name.as_str()) {
                return None;
            }
            i = i + 1;
        }
        let id = self.next_tag_id;
        self.tags.push(TagRow { id, name });
        self.next_tag_id = id + 1;
        proof {
            let ts = self.tags@;
            let n0 = old(self).tags@.len() as int;
            assert forall|a: int, b: int| 0 <= a < b < ts.len() implies ts[a].id != ts[b].id by {
                if b == n0 {
                    assert(old(self).tags@[a].id < old(self).next_tag_id);
                }
            }
            assert forall|a: int, b: int| 0 <= a < b < ts.len() implies ts[a].name@
                != ts[b].name@ by {
                if b == n0 {
                    assert(old(self).tags@[a].name@ != name@);
                }
            }
            assert forall|k: int| 0 <= k < ts.len() implies #[trigger] ts[k].id
                < self.next_tag_id by {
                if k < n0 {
                    assert(old(self).tags@[k].id < old(self).next_tag_id);
                }
            }
            let row = (TagRow { id, name });
            assert forall|k: int| 0 <= k < self.tag_links@.len() implies tags_contain_id(
                self.tags@,
                #[trigger] self.tag_links@[k].tag_id,
            ) by {
                assert(tags_contain_id(old(self).tags@, old(self).tag_links@[k].tag_id));
                lemma_tags_contain_push(old(self).tags@, row, old(self).tag_links@[k].tag_id);
            }
            assert(self.wf());
        }
        Some(id)
    }

    /// Finds the position of the package with this id.
    pub fn find_mod(&self, id: &str) -> (r: Option<usize>)
        ensures
            match r {
                Some(i) => i < self.mods@.len() && self.mods@[i as int].id@ == id@,
                None => !self.has_mod(id@),
            },
    {
        let n = self.mods.len();
        let mut i: usize = 0;
        while i < n
            invariant
                i <= n,
                n == self.mods@.len(),
                forall|j: int| 0 <= j < i ==> self.mods@[j].id@ != id@,
            decreases n - i,
        {
            if str_eq(self.mods[i].id.as_str(), id) {
                return Some(i);
            }
            i = i + 1;
        }
        None
    }

    /// Finds the position of the most recently submitted version of the
    /// package, the row every later submission is compared against.
    pub fn find_last_version(&self, mod_id: &str) -> (r: Option<usize>)
        ensures
            match r {
                Some(i) => self.is_last_version_of(i as int, mod_id@),
                None => !self.has_version_of(mod_id@),
            },
    {
        let n = self.versions.len();
        let mut i: usize = n;
        while i > 0
            invariant
                i <= n,
                n == self.versions@.len(),
                forall|j: int| i <= j < n ==> self.versions@[j].mod_id@ != mod_id@,
            decreases i,
        {
            i = i - 1;
            if str_eq(self.versions[i].mod_id.as_str(), mod_id) {
                return Some(i);
            }
        }
        None
    }

    /// Finds the position of the validated version of the package with the
    /// greatest internal id.
    pub fn find_latest_validated(&self, mod_id: &str) -> (r: Option<usize>)
        ensures
            match r {
                Some(i) => self.is_latest_validated_of(i as int, mod_id@),
                None => !self.has_validated_version_of(mod_id@),
            },
    {
        let n = self.versions.len();
        let mut i: usize = n;
        while i > 0
            invariant
                i <= n,
                n == self.versions@.len(),
                forall|j: int|
                    i <= j < n ==> !(self.versions@[j].mod_id@ == mod_id@
                        && self.versions@[j].validated),
            decreases i,
        {
            i = i - 1;
            if self.versions[i].validated && str_eq(self.versions[i].mod_id.as_str(), mod_id) {
                return Some(i);
            }
        }
        None
    }

    /// Position `i` holds the newest version row carrying exactly this
    /// version string under the package.
    pub open spec fn is_last_string_match(
        self,
        i: int,
        mod_id: Seq<char>,
        version: Seq<char>,
    ) -> bool {
        &&& 0 <= i < self.versions@.len()
        &&& self.versions@[i].mod_id@ == mod_id
        &&& self.versions@[i].version@ == version
        &&& forall|j: int|
            i < j < self.versions@.len() ==> !(self.versions@[j].mod_id@ == mod_id
                && self.versions@[j].version@ == version)
    }

    /// The package has a version row with exactly this version string.
    pub open spec fn has_version_string(self, mod_id: Seq<char>, version: Seq<char>) -> bool {
        exists|i: int|
            0 <= i < self.versions@.len() && self.versions@[i].mod_id@ == mod_id
                && self.versions@[i].version@ == version
    }

    /// The position `is_last_string_match` speaks of; meaningful only when
    /// `has_version_string` holds.
    pub open spec fn version_string_idx(self, mod_id: Seq<char>, version: Seq<char>) -> int {
        choose|i: int| self.is_last_string_match(i, mod_id, version)
    }

    /// Finds the newest version row of the package carrying exactly this
    /// version string.
    pub fn find_version_string(&self, mod_id: &str, version: &str) -> (r: Option<usize>)
        ensures
            match r {
                Some(i) => self.is_last_string_match(i as int, mod_id@, version@),
                None => !self.has_version_string(mod_id@, version@),
            },
    {
        let n = self.versions.len();
        let mut i: usize = n;
        while i > 0
            invariant
                i <= n,
                n == self.versions@.len(),
                forall|j: int|
                    i <= j < n ==> !(self.versions@[j].mod_id@ == mod_id@
                        && self.versions@[j].version@ == version@),
            decreases i,
        {
            i = i - 1;
            if str_eq(self.versions[i].mod_id.as_str(), mod_id) && str_eq(
                self.versions[i].version.as_str(),
                version,
            ) {
                return Some(i);
            }
        }
        None
    }

    /// Finds the position of the version row with this internal id.
    pub fn find_version_by_id(&self, vid: u64) -> (r: Option<usize>)
        ensures
            match r {
                Some(i) => i < self.versions@.len() && self.versions@[i as int].id == vid,
                None => !self.has_version_id(vid),
            },
    {
        let n = self.versions.len();
        let mut i: usize = 0;
        while i < n
            invariant
                i <= n,
                n == self.versions@.len(),
                forall|j: int| 0 <= j < i ==> self.versions@[j].id != vid,
            decreases n - i,
        {
            if self.versions[i].id == vid {
                return Some(i);
            }
            i = i + 1;
        }
        None
    }

    /// Finds the download event of this client for this version, if one
    /// was ever recorded.
    pub fn find_download(&self, client: u64, vid: u64) -> (r: Option<usize>)
        ensures
            match r {
                Some(i) => i < self.downloads@.len() && self.downloads@[i as int].client == client
                    && self.downloads@[i as int].version_id == vid,
                None => !(exists|j: int|
                    0 <= j < self.downloads@.len() && self.downloads@[j].client == client
                        && self.downloads@[j].version_id == vid),
            },
    {
        let n = self.downloads.len();
        let mut i: usize = 0;
        while i < n
            invariant
                i <= n,
                n == self.downloads@.len(),
                forall|j: int|
                    0 <= j < i ==> !(self.downloads@[j].client == client
                        && self.downloads@[j].version_id == vid),
            decreases n - i,
        {
            if self.downloads[i].client == client && self.downloads[i].version_id == vid {
                return Some(i);
            }
            i = i + 1;
        }
        None
    }

    /// Attaches a tag of the controlled vocabulary to a package; a tag
    /// already on the package is rejected as a duplicate.
    pub fn add_mod_tag(&mut self, mod_id: &str, tag_id: u64) -> (r: Result<
        (),
        crate::error::ApiError,
    >)
        requires
            old(self).wf(),
        ensures
            final(self).wf(),
            final(self).mods@ == old(self).mods@,
            final(self).versions@ == old(self).versions@,
            final(self).developers@ == old(self).developers@,
            final(self).dev_links@ == old(self).dev_links@,
            final(self).tags@ == old(self).tags@,
            final(self).downloads@ == old(self).downloads@,
            final(self).clock == old(self).clock,
            final(self).next_version_id == old(self).next_version_id,
            final(self).next_developer_id == old(self).next_developer_id,
            final(self).next_tag_id == old(self).next_tag_id,
            r is Err ==> *final(self) == *old(self),
            !old(self).has_mod(mod_id@) ==> (r matches Err(
                crate::error::ApiError::NotFound(crate::error::MissingEntity::Mod(m)),
            ) && m@ == mod_id@),
            old(self).has_mod(mod_id@) && !old(self).has_tag_id(tag_id) ==> r == Err::<
                (),
                crate::error::ApiError,
            >(crate::error::ApiError::NotFound(crate::error::MissingEntity::Tag(tag_id))),
            old(self).has_mod(mod_id@) && old(self).has_tag_id(tag_id) && (exists|i: int|
                0 <= i < old(self).tag_links@.len() && (#[trigger] old(self).tag_links@[i]).mod_id@
                    == mod_id@ && old(self).tag_links@[i].tag_id == tag_id) ==> r == Err::<
                (),
                crate::error::ApiError,
            >(crate::error::ApiError::BadRequest(crate::error::BadRequestKind::DuplicateTag)),
            old(self).has_mod(mod_id@) && old(self).has_tag_id(tag_id) && !(exists|i: int|
                0 <= i < old(self).tag_links@.len() && (#[trigger] old(self).tag_links@[i]).mod_id@
                    == mod_id@ && old(self).tag_links@[i].tag_id == tag_id) ==> {
                &&& r is Ok
                &&& final(self).tag_links@.len() == old(self).tag_links@.len() + 1
                &&& final(self).tag_links@.take(old(self).tag_links@.len() as int) == old(
                    self,
                ).tag_links@
                &&& final(self).tag_links@.last().mod_id@ == mod_id@
                &&& final(self).tag_links@.last().tag_id == tag_id
            },
    {
        if self.find_mod(mod_id).is_none() {
            return Err(
                crate::error::ApiError::NotFound(
                    crate::error::MissingEntity::Mod(mod_id.to_owned()),
                ),
            );
        }
        if self.find_tag_by_id(tag_id).is_none() {
            return Err(crate::error::ApiError::NotFound(crate::error::MissingEntity::Tag(tag_id)));
        }
        let n = self.tag_links.len();
        let mut i: usize = 0;
        while i < n
            invariant
                i <= n,
                n == self.tag_links@.len(),
                *self == *old(self),
                old(self).wf(),
                forall|j: int|
                    0 <= j < i ==> !((#[trigger] self.tag_links@[j]).mod_id@ == mod_id@
                        && self.tag_links@[j].tag_id == tag_id),
            decreases n - i,
        {
            if self.tag_links[i].tag_id == tag_id && str_eq(
                self.tag_links[i].mod_id.as_str(),
                mod_id,
            ) {
                return Err(
                    crate::error::ApiError::BadRequest(crate::error::BadRequestKind::DuplicateTag),
                );
            }
            i = i + 1;
        }
        self.tag_links.push(TagLink { mod_id: mod_id.to_owned(), tag_id });
        proof {
            let links = self.tag_links@;
            let pn = old(self).tag_links@.len() as int;
            assert(links.take(pn) =~= old(self).tag_links@);
            assert forall|a: int, b: int| 0 <= a < b < links.len() implies !(links[a].mod_id@
                == links[b].mod_id@ && links[a].tag_id == links[b].tag_id) by {
                if b == pn {
                    if links[a].mod_id@ == mod_id@ && links[a].tag_id == tag_id {
                        assert(old(self).tag_links@[a].mod_id@ == mod_id@
                            && old(self).tag_links@[a].tag_id == tag_id);
                    }
                } else {
                    assert(links[a] == old(self).tag_links@[a]);
                    assert(links[b] == old(self).tag_links@[b]);
                }
            }
            assert forall|a: int| 0 <= a < links.len() implies mods_contain(
                self.mods@,
                #[trigger] links[a].mod_id@,
            ) by {
                if a < pn {
                    assert(mods_contain(old(self).mods@, old(self).tag_links@[a].mod_id@));
                }
            }
            assert forall|a: int| 0 <= a < links.len() implies tags_contain_id(
                self.tags@,
                #[trigger] links[a].tag_id,
            ) by {
                if a < pn {
                    assert(tags_contain_id(old(self).tags@, old(self).tag_links@[a].tag_id));
                }
            }
            assert(self.wf());
        }
        Ok(())
    }

    /// Finds the position of the tag with this id.
    pub fn find_tag_by_id(&self, tag_id: u64) -> (r: Option<usize>)
        ensures
            match r {
                Some(i) => i < self.tags@.len() && self.tags@[i as int].id == tag_id,
                None => !self.has_tag_id(tag_id),
            },
    {
        let n = self.tags.len();
        let mut i: usize = 0;
        while i < n
            invariant
                i <= n,
                n == self.tags@.len(),
                forall|j: int| 0 <= j < i ==> self.tags@[j].id != tag_id,
            decreases n - i,
        {
            if self.tags[i].id == tag_id {
                return Some(i);
            }
            i = i + 1;
        }
        None
    }

    /// Finds the position of the developer with this internal id.
    pub fn find_developer(&self, dev_id: u64) -> (r: Option<usize>)
        ensures
            match r {
                Some(i) => i < self.developers@.len() && self.developers@[i as int].id == dev_id,
                None => !self.has_developer(dev_id),
            },
    {
        let n = self.developers.len();
        let mut i: usize = 0;
        while i < n
            invariant
                i <= n,
                n == self.developers@.len(),
                forall|j: int| 0 <= j < i ==> self.developers@[j].id != dev_id,
            decreases n - i,
        {
            if self.developers[i].id == dev_id {
                return Some(i);
            }
            i = i + 1;
        }
        None
    }

    /// Finds the position of the developer with this username.
    pub fn find_developer_by_username(&self, username: &str) -> (r: Option<usize>)
        ensures
            match r {
                Some(i) => i < self.developers@.len() && self.developers@[i as int].username@
                    == username@,
                None => !(exists|j: int|
                    0 <= j < self.developers@.len() && self.developers@[j].username@ == username@),
            },
    {
        let n = self.developers.len();
        let mut i: usize = 0;
        while i < n
            invariant
                i <= n,
                n == self.developers@.len(),
                forall|j: int| 0 <= j < i ==> self.developers@[j].username@ != username@,
            decreases n - i,
        {
            if str_eq(self.developers[i].username.as_str(), username) {
                return Some(i);
            }
            i = i + 1;
        }
        None
    }

    /// Finds the position of the edge linking this package and developer.
    pub fn find_dev_link(&self, mod_id: &str, dev_id: u64) -> (r: Option<usize>)
        ensures
            match r {
                Some(i) => i < self.dev_links@.len() && self.dev_links@[i as int].mod_id@ == mod_id@
                    && self.dev_links@[i as int].developer_id == dev_id,
                None => !self.has_dev_link(mod_id@, dev_id),
            },
    {
        let n = self.dev_links.len();
        let mut i: usize = 0;
        while i < n
            invariant
                i <= n,
                n == self.dev_links@.len(),
                forall|j: int|
                    0 <= j < i ==> !(self.dev_links@[j].mod_id@ == mod_id@
                        && self.dev_links@[j].developer_id == dev_id),
            decreases n - i,
        {
            if self.dev_links[i].developer_id == dev_id && str_eq(
                self.dev_links[i].mod_id.as_str(),
                mod_id,
            ) {
                return Some(i);
            }
            i = i + 1;
        }
        None
    }
}

} // verus!
