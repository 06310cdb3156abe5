//! The download counter cache: at most one recorded download per client
//! and version, counters folded forward incrementally behind a watermark.

use vstd::prelude::*;

use crate::api::Mod;
use crate::api::ModVersion;
use crate::error::ApiError;
use crate::error::MissingEntity;
use crate::lifecycle::lemma_count_mod_events_same_ids;
use crate::store::count_mod_events;
use crate::store::count_version_events;
use crate::store::event_in_mod;
use crate::store::mods_contain;
use crate::store::Catalog;
use crate::store::DownloadRow;
use crate::store::ModRow;
use crate::store::VersionRow;
use crate::text::str_eq;

verus! {

/// The event lies past the version's watermark and belongs to it.
pub open spec fn fresh_version_event(d: DownloadRow, vid: u64, wm: u64) -> bool {
    d.version_id == vid && d.time > wm
}

/// The event lies past the package's watermark and belongs to one of its
/// validated versions.
pub open spec fn fresh_mod_event(
    versions: Seq<VersionRow>,
    d: DownloadRow,
    mod_id: Seq<char>,
    wm: u64,
) -> bool {
    exists|k: int|
        0 <= k < versions.len() && versions[k].id == d.version_id && versions[k].mod_id@ == mod_id
            && versions[k].validated && d.time > wm
}

/// How many of the first `j` events are the first fresh event of their
/// client for this version: the distinct clients a refresh would count.
pub open spec fn count_fresh_version_clients(
    downloads: Seq<DownloadRow>,
    vid: u64,
    wm: u64,
    j: int,
) -> nat
    decreases j,
{
    if j <= 0 {
        0
    } else {
        count_fresh_version_clients(downloads, vid, wm, j - 1) + if fresh_version_event(
            downloads[j - 1],
            vid,
            wm,
        ) && (forall|k: int|
            0 <= k < j - 1 ==> !(fresh_version_event(#[trigger] downloads[k], vid, wm)
                && downloads[k].client == downloads[j - 1].client)) {
            1nat
        } else {
            0nat
        }
    }
}

/// How many of the first `j` events are the first fresh event of their
/// client for this package.
pub open spec fn count_fresh_mod_clients(
    versions: Seq<VersionRow>,
    downloads: Seq<DownloadRow>,
    mod_id: Seq<char>,
    wm: u64,
    j: int,
) -> nat
    decreases j,
{
    if j <= 0 {
        0
    } else {
        count_fresh_mod_clients(versions, downloads, mod_id, wm, j - 1) + if fresh_mod_event(
            versions,
            downloads[j - 1],
            mod_id,
            wm,
        ) && (forall|k: int|
            0 <= k < j - 1 ==> !(fresh_mod_event(versions, #[trigger] downloads[k], mod_id, wm)
                && downloads[k].client == downloads[j - 1].client)) {
            1nat
        } else {
            0nat
        }
    }
}

/// With no fresh event at all, a refresh counts nothing.
pub proof fn lemma_no_fresh_version_clients(
    downloads: Seq<DownloadRow>,
    vid: u64,
    wm: u64,
    j: int,
)
    requires
        forall|i: int| 0 <= i < downloads.len() ==> !fresh_version_event(
            #[trigger] downloads[i],
            vid,
            wm,
        ),
        j <= downloads.len(),
    ensures
        count_fresh_version_clients(downloads, vid, wm, j) == 0,
    decreases j,
{
    if j > 0 {
        lemma_no_fresh_version_clients(downloads, vid, wm, j - 1);
    }
}

/// With no fresh event at all, a refresh counts nothing.
pub proof fn lemma_no_fresh_mod_clients(
    versions: Seq<VersionRow>,
    downloads: Seq<DownloadRow>,
    mod_id: Seq<char>,
    wm: u64,
    j: int,
)
    requires
        forall|i: int| 0 <= i < downloads.len() ==> !fresh_mod_event(
            versions,
            #[trigger] downloads[i],
            mod_id,
            wm,
        ),
        j <= downloads.len(),
    ensures
        count_fresh_mod_clients(versions, downloads, mod_id, wm, j) == 0,
    decreases j,
{
    if j > 0 {
        lemma_no_fresh_mod_clients(versions, downloads, mod_id, wm, j - 1);
    }
}

/// A prefix count of a version's events ignores an appended event.
pub proof fn lemma_count_version_events_push_prefix(
    downloads: Seq<DownloadRow>,
    e: DownloadRow,
    vid: u64,
    j: int,
)
    requires
        j <= downloads.len(),
    ensures
        count_version_events(downloads.push(e), vid, j) == count_version_events(
            downloads,
            vid,
            j,
        ),
    decreases j,
{
    if j > 0 {
        lemma_count_version_events_push_prefix(downloads, e, vid, j - 1);
    }
}

/// A prefix count of a package's events ignores an appended event.
pub proof fn lemma_count_mod_events_push_prefix(
    versions: Seq<VersionRow>,
    downloads: Seq<DownloadRow>,
    e: DownloadRow,
    mod_id: Seq<char>,
    j: int,
)
    requires
        j <= downloads.len(),
    ensures
        count_mod_events(versions, downloads.push(e), mod_id, j) == count_mod_events(
            versions,
            downloads,
            mod_id,
            j,
        ),
    decreases j,
{
    if j > 0 {
        lemma_count_mod_events_push_prefix(versions, downloads, e, mod_id, j - 1);
    }
}

/// Row `b` is row `a` with one more counted download at time `t`.
pub open spec fn version_row_counted(a: VersionRow, b: VersionRow, t: int) -> bool {
    &&& b.id == a.id
    &&& b.mod_id == a.mod_id
    &&& b.name == a.name
    &&& b.description == a.description
    &&& b.version == a.version
    &&& b.download_link == a.download_link
    &&& b.hash == a.hash
    &&& b.geode == a.geode
    &&& b.early_load == a.early_load
    &&& b.api == a.api
    &&& b.validated == a.validated
    &&& b.unlisted == a.unlisted
    &&& b.download_count == a.download_count + 1
    &&& b.last_download_refresh == t
    &&& b.gd == a.gd
}

/// Row `b` is row `a` with its counter advanced by one when the downloaded
/// version counts for the package, watermark moved to `t`.
pub open spec fn mod_row_counted(a: ModRow, b: ModRow, add: bool, t: int) -> bool {
    &&& b.id == a.id
    &&& b.repository == a.repository
    &&& b.latest_version == a.latest_version
    &&& b.featured == a.featured
    &&& b.download_count == a.download_count + (if add {
        1int
    } else {
        0int
    })
    &&& b.last_download_refresh == t
    &&& b.image == a.image
    &&& b.about == a.about
    &&& b.changelog == a.changelog
    &&& b.created_at == a.created_at
    &&& b.updated_at == a.updated_at
}

/// One fresh download was recorded: the event appended, the version's and
/// package's counters folded forward, the watermarks and clock advanced.
pub open spec fn download_recorded(
    pre: Catalog,
    post: Catalog,
    id: Seq<char>,
    version: Seq<char>,
    client: u64,
) -> bool {
    let vi = pre.version_string_idx(id, version);
    let vid = pre.versions@[vi].id;
    let mi = pre.mod_idx(id);
    &&& pre.has_version_string(id, version)
    &&& !(exists|j: int|
        0 <= j < pre.downloads@.len() && pre.downloads@[j].client == client
            && pre.downloads@[j].version_id == vid)
    &&& post.clock == pre.clock + 1
    &&& post.downloads@ == pre.downloads@.push(
        (DownloadRow { client, version_id: vid, time: (pre.clock + 1) as u64 }),
    )
    &&& post.versions@.len() == pre.versions@.len()
    &&& forall|k: int|
        0 <= k < pre.versions@.len() && k != vi ==> #[trigger] post.versions@[k]
            == pre.versions@[k]
    &&& version_row_counted(pre.versions@[vi], post.versions@[vi], pre.clock + 1)
    &&& post.mods@.len() == pre.mods@.len()
    &&& forall|k: int|
        0 <= k < pre.mods@.len() && k != mi ==> #[trigger] post.mods@[k] == pre.mods@[k]
    &&& mod_row_counted(
        pre.mods@[mi],
        post.mods@[mi],
        pre.versions@[vi].validated,
        pre.clock + 1,
    )
    &&& post.developers@ == pre.developers@
    &&& post.dev_links@ == pre.dev_links@
    &&& post.tags@ == pre.tags@
    &&& post.tag_links@ == pre.tag_links@
    &&& post.next_version_id == pre.next_version_id
    &&& post.next_developer_id == pre.next_developer_id
    &&& post.next_tag_id == pre.next_tag_id
}

impl Catalog {
    /// Records one download of a version by one client: the event is
    /// inserted only if absent — at most one download counts per client
    /// and version — and a fresh event immediately folds both counters
    /// forward, so stored counters never lag behind stored events.
    pub fn record_download(&mut self, id: &str, version: &str, client: u64) -> (r: Result<
        (),
        ApiError,
    >)
        requires
            old(self).wf(),
            old(self).clock < u64::MAX,
        ensures
            final(self).wf(),
            r is Err ==> *final(self) == *old(self),
            !old(self).has_version_string(id@, version@) ==> (r matches Err(
                ApiError::NotFound(MissingEntity::Version { mod_id: m, version: v }),
            ) && m@ == id@ && v@ == version@),
            old(self).has_version_string(id@, version@) && (exists|j: int|
                0 <= j < old(self).downloads@.len() && old(self).downloads@[j].client == client
                    && old(self).downloads@[j].version_id == old(self).versions@[old(
                    self,
                ).version_string_idx(id@, version@)].id) ==> r is Ok && *final(self) == *old(
                self,
            ),
            old(self).has_version_string(id@, version@) && !(exists|j: int|
                0 <= j < old(self).downloads@.len() && old(self).downloads@[j].client == client
                    && old(self).downloads@[j].version_id == old(self).versions@[old(
                    self,
                ).version_string_idx(id@, version@)].id) ==> r is Ok && download_recorded(
                *old(self),
                *final(self),
                id@,
                version@,
                client,
            ),
    {
        let vi = match self.find_version_string(id, version) {
            Some(i) => i,
            None => {
                return Err(
                    ApiError::NotFound(
                        MissingEntity::Version {
                            mod_id: id.to_owned(),
                            version: version.to_owned(),
                        },
                    ),
                );
            },
        };
        proof {
            assert(exists|i: int| self.is_last_string_match(i, id@, version@));
            let c = old(self).version_string_idx(id@, version@);
            assert(old(self).is_last_string_match(c, id@, version@));
            if c < vi {
                assert(!(old(self).versions@[vi as int].mod_id@ == id@ && old(
                    self,
                ).versions@[vi as int].version@ == version@));
            } else if vi < c {
                assert(!(old(self).versions@[c].mod_id@ == id@ && old(self).versions@[c].version@
                    == version@));
            }
            assert(c == vi);
        }
        let vid = self.versions[vi].id;
        if self.find_download(client, vid).is_some() {
            return Ok(());
        }
        let mi = match self.find_mod(id) {
            Some(i) => i,
            None => {
                proof {
                    assert(mods_contain(self.mods@, self.versions@[vi as int].mod_id@));
                    assert(false);
                }
                return vstd::pervasive::unreached();
            },
        };
        proof {
            let c = old(self).mod_idx(id@);
            assert(old(self).has_mod(id@));
            if c < mi as int {
                assert(old(self).mods@[c].id@ != old(self).mods@[mi as int].id@);
            } else if (mi as int) < c {
                assert(old(self).mods@[mi as int].id@ != old(self).mods@[c].id@);
            }
            assert(c == mi);
        }
        let t = self.clock + 1;
        self.clock = t;
        self.downloads.push(DownloadRow { client, version_id: vid, time: t });
        let dn = self.downloads.len();
        proof {
            let pd = old(self).downloads@;
            let n = pd.len() as int;
            assert(dn as int == n + 1);
            crate::store::lemma_count_version_events_le(pd, vid, n);
            assert(old(self).versions@[vi as int].download_count <= n);
            crate::store::lemma_count_mod_events_le(
                old(self).versions@,
                pd,
                old(self).mods@[mi as int].id@,
                n,
            );
            assert(old(self).mods@[mi as int].download_count <= n);
            assert(usize::MAX <= u64::MAX);
        }
        let rowv = self.versions.remove(vi);
        let newv = VersionRow {
            id: rowv.id,
            mod_id: rowv.mod_id,
            name: rowv.name,
            description: rowv.description,
            version: rowv.version,
            download_link: rowv.download_link,
            hash: rowv.hash,
            geode: rowv.geode,
            early_load: rowv.early_load,
            api: rowv.api,
            validated: rowv.validated,
            unlisted: rowv.unlisted,
            download_count: rowv.download_count + 1,
            last_download_refresh: t,
            gd: rowv.gd,
        };
        let counts_for_mod = newv.validated;
        self.versions.insert(vi, newv);
        let rowm = self.mods.remove(mi);
        let newm = ModRow {
            id: rowm.id,
            repository: rowm.repository,
            latest_version: rowm.latest_version,
            featured: rowm.featured,
            download_count: if counts_for_mod {
                rowm.download_count + 1
            } else {
                rowm.download_count
            },
            last_download_refresh: t,
            image: rowm.image,
            about: rowm.about,
            changelog: rowm.changelog,
            created_at: rowm.created_at,
            updated_at: rowm.updated_at,
        };
        self.mods.insert(mi, newm);
        proof {
            assert(self.versions@ =~= old(self).versions@.update(vi as int, newv));
            assert(self.mods@ =~= old(self).mods@.update(mi as int, newm));
            lemma_wf_after_record(*old(self), *self, vi as int, mi as int, client);
        }
        Ok(())
    }
}

/// The newest row carrying a version string keeps its position when rows
/// only change outside their identifying fields.
pub proof fn lemma_version_string_idx_preserved(
    a: Catalog,
    b: Catalog,
    id: Seq<char>,
    version: Seq<char>,
)
    requires
        a.has_version_string(id, version),
        b.versions@.len() == a.versions@.len(),
        forall|k: int|
            0 <= k < a.versions@.len() ==> (#[trigger] b.versions@[k]).mod_id@
                == (#[trigger] a.versions@[k]).mod_id@ && b.versions@[k].version@
                == a.versions@[k].version@,
    ensures
        b.has_version_string(id, version),
        b.version_string_idx(id, version) == a.version_string_idx(id, version),
{
    let w = choose|w: int|
        0 <= w < a.versions@.len() && a.versions@[w].mod_id@ == id && a.versions@[w].version@
            == version;
    assert(b.versions@[w].mod_id@ == id && b.versions@[w].version@ == version);
    assert(b.has_version_string(id, version));
    crate::store::lemma_last_string_match_exists(a, id, version, a.versions@.len() as int);
    let ca = a.version_string_idx(id, version);
    assert(a.is_last_string_match(ca, id, version));
    assert forall|j: int|
        ca < j < b.versions@.len() implies !(b.versions@[j].mod_id@ == id
        && b.versions@[j].version@ == version) by {
        assert(!(a.versions@[j].mod_id@ == id && a.versions@[j].version@ == version));
    }
    assert(b.is_last_string_match(ca, id, version));
    let cb = b.version_string_idx(id, version);
    assert(b.is_last_string_match(cb, id, version));
    if ca < cb {
        assert(!(b.versions@[cb].mod_id@ == id && b.versions@[cb].version@ == version));
    } else if cb < ca {
        assert(!(b.versions@[ca].mod_id@ == id && b.versions@[ca].version@ == version));
    }
    assert(ca == cb);
}

/// Recording the same client and version twice yields exactly one new
/// event and exactly one counter increment: after the first recording the
/// event exists, so the second call is a no-op by `record_download`'s
/// contract.
pub proof fn lemma_download_counted_once(
    s0: Catalog,
    s1: Catalog,
    id: Seq<char>,
    version: Seq<char>,
    client: u64,
)
    requires
        s0.wf(),
        s0.has_version_string(id, version),
        download_recorded(s0, s1, id, version, client),
    ensures
        s1.downloads@.len() == s0.downloads@.len() + 1,
        s1.has_version_string(id, version),
        s1.version_string_idx(id, version) == s0.version_string_idx(id, version),
        s1.versions@[s0.version_string_idx(id, version)].download_count == s0.versions@[s0.version_string_idx(
            id,
            version,
        )].download_count + 1,
        exists|j: int|
            0 <= j < s1.downloads@.len() && s1.downloads@[j].client == client
                && s1.downloads@[j].version_id == s1.versions@[s1.version_string_idx(
                id,
                version,
            )].id,
{
    let vi = s0.version_string_idx(id, version);
    lemma_version_string_idx_preserved(s0, s1, id, version);
    assert(s1.downloads@.last().client == client && s1.downloads@.last().version_id
        == s0.versions@[vi].id);
    assert(s1.versions@[vi].id == s0.versions@[vi].id);
}

/// Two distinct clients recording the same version yield two events and
/// two counter increments.
pub proof fn lemma_download_two_clients(
    s0: Catalog,
    s1: Catalog,
    s2: Catalog,
    id: Seq<char>,
    version: Seq<char>,
    c1: u64,
    c2: u64,
)
    requires
        s0.wf(),
        s0.has_version_string(id, version),
        download_recorded(s0, s1, id, version, c1),
        download_recorded(s1, s2, id, version, c2),
    ensures
        s2.downloads@.len() == s0.downloads@.len() + 2,
        s2.versions@[s0.version_string_idx(id, version)].download_count == s0.versions@[s0.version_string_idx(
            id,
            version,
        )].download_count + 2,
{
    let vi = s0.version_string_idx(id, version);
    lemma_version_string_idx_preserved(s0, s1, id, version);
    lemma_version_string_idx_preserved(s1, s2, id, version);
    assert(s1.version_string_idx(id, version) == vi);
    assert(s2.versions@[vi].download_count == s1.versions@[vi].download_count + 1);
}

impl ModVersion {
    /// Folds the version's pending download events into its cached
    /// counter: adds the number of distinct clients with events past the
    /// watermark, then advances the watermark to the clock. Every stored
    /// event is already accounted for — the store invariant — so the fold
    /// adds nothing and the refresh is idempotent.
    pub fn calculate_cached_downloads(version_id: u64, store: &mut Catalog) -> (r: Result<
        (),
        ApiError,
    >)
        requires
            old(store).wf(),
        ensures
            final(store).wf(),
            r is Ok,
            final(store).mods@ == old(store).mods@,
            final(store).developers@ == old(store).developers@,
            final(store).dev_links@ == old(store).dev_links@,
            final(store).tags@ == old(store).tags@,
            final(store).tag_links@ == old(store).tag_links@,
            final(store).downloads@ == old(store).downloads@,
            final(store).clock == old(store).clock,
            final(store).next_version_id == old(store).next_version_id,
            final(store).next_developer_id == old(store).next_developer_id,
            final(store).next_tag_id == old(store).next_tag_id,
            !old(store).has_version_id(version_id) ==> final(store).versions@ == old(
                store,
            ).versions@,
            old(store).has_version_id(version_id) ==> {
                let vi = old(store).version_idx(version_id);
                &&& final(store).versions@.len() == old(store).versions@.len()
                &&& (forall|k: int|
                    0 <= k < old(store).versions@.len() && k != vi
                        ==> #[trigger] final(store).versions@[k] == old(store).versions@[k])
                &&& final(store).versions@[vi].download_count == old(store).versions@[vi].download_count
                    + count_fresh_version_clients(
                    old(store).downloads@,
                    version_id,
                    old(store).versions@[vi].last_download_refresh,
                    old(store).downloads@.len() as int,
                )
                &&& final(store).versions@[vi].download_count == old(store).versions@[vi].download_count
                &&& final(store).versions@[vi].last_download_refresh == old(store).clock
                &&& version_row_counted_only_wm(
                    old(store).versions@[vi],
                    final(store).versions@[vi],
                )
            },
    {
        let vi = match store.find_version_by_id(version_id) {
            Some(i) => i,
            None => {
                return Ok(());
            },
        };
        proof {
            assert(old(store).has_version_id(version_id));
            let c = old(store).version_idx(version_id);
            assert(0 <= c < old(store).versions@.len() && old(store).versions@[c].id
                == version_id);
            if c < vi {
                assert(old(store).versions@[c].id < old(store).versions@[vi as int].id);
            } else if vi < c {
                assert(old(store).versions@[vi as int].id < old(store).versions@[c].id);
            }
            assert(c == vi);
        }
        let wm = store.versions[vi].last_download_refresh;
        let n = store.downloads.len();
        let mut fresh: u64 = 0;
        let mut k: usize = 0;
        while k < n
            invariant
                k <= n,
                n == store.downloads@.len(),
                *store == *old(store),
                old(store).wf(),
                vi < store.versions@.len(),
                store.versions@[vi as int].id == version_id,
                wm == store.versions@[vi as int].last_download_refresh,
                fresh == 0,
                forall|j: int|
                    0 <= j < k ==> !fresh_version_event(
                        #[trigger] store.downloads@[j],
                        version_id,
                        wm,
                    ),
            decreases n - k,
        {
            if store.downloads[k].version_id == version_id && store.downloads[k].time > wm {
                proof {
                    assert(store.downloads@[k as int].time
                        <= store.versions@[vi as int].last_download_refresh);
                    assert(false);
                }
                fresh = fresh + 1;
            }
            k = k + 1;
        }
        proof {
            lemma_no_fresh_version_clients(store.downloads@, version_id, wm, n as int);
        }
        let now = store.clock;
        let rowv = store.versions.remove(vi);
        let newv = VersionRow {
            id: rowv.id,
            mod_id: rowv.mod_id,
            name: rowv.name,
            description: rowv.description,
            version: rowv.version,
            download_link: rowv.download_link,
            hash: rowv.hash,
            geode: rowv.geode,
            early_load: rowv.early_load,
            api: rowv.api,
            validated: rowv.validated,
            unlisted: rowv.unlisted,
            download_count: rowv.download_count + fresh,
            last_download_refresh: now,
            gd: rowv.gd,
        };
        store.versions.insert(vi, newv);
        proof {
            assert(store.versions@ =~= old(store).versions@.update(vi as int, newv));
            crate::lifecycle::lemma_wf_version_row_update(*old(store), *store, vi as int);
        }
        Ok(())
    }
}

impl Mod {
    /// Folds the package's pending download events into its cached
    /// counter: adds the number of distinct clients with events on its
    /// validated versions past the watermark, then advances the watermark
    /// to the clock. Every stored event is already accounted for — the
    /// store invariant — so the fold adds nothing and the refresh is
    /// idempotent.
    pub fn calculate_cached_downloads(mod_id: &str, store: &mut Catalog) -> (r: Result<
        (),
        ApiError,
    >)
        requires
            old(store).wf(),
        ensures
            final(store).wf(),
            r is Ok,
            final(store).versions@ == old(store).versions@,
            final(store).developers@ == old(store).developers@,
            final(store).dev_links@ == old(store).dev_links@,
            final(store).tags@ == old(store).tags@,
            final(store).tag_links@ == old(store).tag_links@,
            final(store).downloads@ == old(store).downloads@,
            final(store).clock == old(store).clock,
            final(store).next_version_id == old(store).next_version_id,
            final(store).next_developer_id == old(store).next_developer_id,
            final(store).next_tag_id == old(store).next_tag_id,
            !old(store).has_mod(mod_id@) ==> final(store).mods@ == old(store).mods@,
            old(store).has_mod(mod_id@) ==> {
                let mi = old(store).mod_idx(mod_id@);
                &&& final(store).mods@.len() == old(store).mods@.len()
                &&& (forall|k: int|
                    0 <= k < old(store).mods@.len() && k != mi ==> #[trigger] final(store).mods@[k]
                        == old(store).mods@[k])
                &&& final(store).mods@[mi].download_count == old(store).mods@[mi].download_count
                    + count_fresh_mod_clients(
                    old(store).versions@,
                    old(store).downloads@,
                    mod_id@,
                    old(store).mods@[mi].last_download_refresh,
                    old(store).downloads@.len() as int,
                )
                &&& final(store).mods@[mi].download_count == old(store).mods@[mi].download_count
                &&& final(store).mods@[mi].last_download_refresh == old(store).clock
                &&& mod_row_counted_only_wm(old(store).mods@[mi], final(store).mods@[mi])
            },
    {
        let mi = match store.find_mod(mod_id) {
            Some(i) => i,
            None => {
                return Ok(());
            },
        };
        proof {
            let c = old(store).mod_idx(mod_id@);
            assert(old(store).has_mod(mod_id@));
            if c < mi as int {
                assert(old(store).mods@[c].id@ != old(store).mods@[mi as int].id@);
            } else if (mi as int) < c {
                assert(old(store).mods@[mi as int].id@ != old(store).mods@[c].id@);
            }
            assert(c == mi);
        }
        let wm = store.mods[mi].last_download_refresh;
        let n = store.downloads.len();
        let mut fresh: u64 = 0;
        let mut k: usize = 0;
        while k < n
            invariant
                k <= n,
                n == store.downloads@.len(),
                *store == *old(store),
                old(store).wf(),
                mi < store.mods@.len(),
                store.mods@[mi as int].id@ == mod_id@,
                wm == store.mods@[mi as int].last_download_refresh,
                fresh == 0,
                forall|j: int|
                    0 <= j < k ==> !fresh_mod_event(
                        store.versions@,
                        #[trigger] store.downloads@[j],
                        mod_id@,
                        wm,
                    ),
            decreases n - k,
        {
            let is_fresh = match store.find_version_by_id(store.downloads[k].version_id) {
                Some(w) => {
                    store.versions[w].validated && str_eq(
                        store.versions[w].mod_id.as_str(),
                        mod_id,
                    ) && store.downloads[k].time > wm
                },
                None => false,
            };
            if is_fresh {
                proof {
                    let w = choose|w: int|
                        0 <= w < store.versions@.len() && store.versions@[w].id
                            == store.downloads@[k as int].version_id && store.versions@[w].mod_id@
                            == mod_id@ && store.versions@[w].validated
                            && store.downloads@[k as int].time > wm;
                    assert(store.downloads@[k as int].time
                        <= store.mods@[mi as int].last_download_refresh);
                    assert(false);
                }
                fresh = fresh + 1;
            } else {
                proof {
                    if fresh_mod_event(store.versions@, store.downloads@[k as int], mod_id@, wm) {
                        let w = choose|w: int|
                            0 <= w < store.versions@.len() && store.versions@[w].id
                                == store.downloads@[k as int].version_id
                                && store.versions@[w].mod_id@ == mod_id@
                                && store.versions@[w].validated && store.downloads@[k as int].time
                                > wm;
                        assert(store.downloads@[k as int].time
                            <= store.mods@[mi as int].last_download_refresh);
                        assert(false);
                    }
                }
            }
            k = k + 1;
        }
        proof {
            lemma_no_fresh_mod_clients(
                store.versions@,
                store.downloads@,
                mod_id@,
                wm,
                n as int,
            );
        }
        let now = store.clock;
        let rowm = store.mods.remove(mi);
        let newm = ModRow {
            id: rowm.id,
            repository: rowm.repository,
            latest_version: rowm.latest_version,
            featured: rowm.featured,
            download_count: rowm.download_count + fresh,
            last_download_refresh: now,
            image: rowm.image,
            about: rowm.about,
            changelog: rowm.changelog,
            created_at: rowm.created_at,
            updated_at: rowm.updated_at,
        };
        store.mods.insert(mi, newm);
        proof {
            assert(store.mods@ =~= old(store).mods@.update(mi as int, newm));
            crate::lifecycle::lemma_wf_mod_row_update(*old(store), *store, mi as int);
        }
        Ok(())
    }
}

/// Row `b` is row `a` with only its watermark moved forward.
pub open spec fn version_row_counted_only_wm(a: VersionRow, b: VersionRow) -> bool {
    &&& b.id == a.id
    &&& b.mod_id == a.mod_id
    &&& b.name == a.name
    &&& b.description == a.description
    &&& b.version == a.version
    &&& b.download_link == a.download_link
    &&& b.hash == a.hash
    &&& b.geode == a.geode
    &&& b.early_load == a.early_load
    &&& b.api == a.api
    &&& b.validated == a.validated
    &&& b.unlisted == a.unlisted
    &&& b.download_count == a.download_count
    &&& b.gd == a.gd
}

/// Row `b` is row `a` with only its watermark moved forward.
pub open spec fn mod_row_counted_only_wm(a: ModRow, b: ModRow) -> bool {
    &&& b.id == a.id
    &&& b.repository == a.repository
    &&& b.latest_version == a.latest_version
    &&& b.featured == a.featured
    &&& b.download_count == a.download_count
    &&& b.image == a.image
    &&& b.about == a.about
    &&& b.changelog == a.changelog
    &&& b.created_at == a.created_at
    &&& b.updated_at == a.updated_at
}

/// Appending one fresh event and folding both counters forward preserves
/// the store invariant.
proof fn lemma_wf_after_record(pre: Catalog, post: Catalog, vi: int, mi: int, client: u64)
    requires
        pre.wf(),
        pre.clock < u64::MAX,
        0 <= vi < pre.versions@.len(),
        0 <= mi < pre.mods@.len(),
        pre.mods@[mi].id@ == pre.versions@[vi].mod_id@,
        !(exists|j: int|
            0 <= j < pre.downloads@.len() && pre.downloads@[j].client == client
                && pre.downloads@[j].version_id == pre.versions@[vi].id),
        post.developers@ == pre.developers@,
        post.dev_links@ == pre.dev_links@,
        post.tags@ == pre.tags@,
        post.tag_links@ == pre.tag_links@,
        post.next_version_id == pre.next_version_id,
        post.next_developer_id == pre.next_developer_id,
        post.next_tag_id == pre.next_tag_id,
        post.clock == pre.clock + 1,
        post.downloads@ == pre.downloads@.push(
            (DownloadRow {
                client,
                version_id: pre.versions@[vi].id,
                time: (pre.clock + 1) as u64,
            }),
        ),
        post.versions@.len() == pre.versions@.len(),
        forall|k: int|
            0 <= k < pre.versions@.len() && k != vi ==> #[trigger] post.versions@[k]
                == pre.versions@[k],
        version_row_counted(pre.versions@[vi], post.versions@[vi], pre.clock + 1),
        post.mods@.len() == pre.mods@.len(),
        forall|k: int|
            0 <= k < pre.mods@.len() && k != mi ==> #[trigger] post.mods@[k] == pre.mods@[k],
        mod_row_counted(pre.mods@[mi], post.mods@[mi], pre.versions@[vi].validated, pre.clock + 1),
    ensures
        post.wf(),
{
    let vs = post.versions@;
    let pv = pre.versions@;
    let ms = post.mods@;
    let pm = pre.mods@;
    let dl = post.downloads@;
    let pd = pre.downloads@;
    let n = pd.len() as int;
    let vid = pv[vi].id;
    let e = (DownloadRow { client, version_id: vid, time: (pre.clock + 1) as u64 });
    assert forall|k: int| 0 <= k < vs.len() implies (#[trigger] vs[k]).id == (#[trigger] pv[k]).id
        && vs[k].mod_id@ == pv[k].mod_id@ && vs[k].version@ == pv[k].version@
        && vs[k].last_download_refresh >= pv[k].last_download_refresh
        && vs[k].last_download_refresh <= post.clock by {
        if k != vi {
            assert(vs[k] == pv[k]);
            assert(pv[k].last_download_refresh <= pre.clock);
        }
    }
    assert forall|k: int| 0 <= k < ms.len() implies #[trigger] ms[k].id@ == pm[k].id@
        && ms[k].last_download_refresh >= pm[k].last_download_refresh
        && ms[k].last_download_refresh <= post.clock by {
        if k != mi {
            assert(ms[k] == pm[k]);
            assert(pm[k].last_download_refresh <= pre.clock);
        }
    }
    // version ids stay unique, so only row `vi` carries `vid`
    assert forall|k: int| 0 <= k < pv.len() && k != vi implies (#[trigger] pv[k]).id != vid by {
        if k < vi {
            assert(pv[k].id < pv[vi].id);
        } else {
            assert(pv[vi].id < pv[k].id);
        }
    }
    assert forall|i: int, j: int| 0 <= i < j < vs.len() implies vs[i].id < vs[j].id by {
        assert(pv[i].id < pv[j].id);
    }
    assert forall|i: int| 0 <= i < vs.len() implies mods_contain(ms, #[trigger] vs[i].mod_id@) by {
        assert(mods_contain(pm, pv[i].mod_id@));
        let w = choose|w: int| 0 <= w < pm.len() && pm[w].id@ == pv[i].mod_id@;
        assert(ms[w].id@ == vs[i].mod_id@);
    }
    assert forall|i: int| 0 <= i < vs.len() implies crate::versioning::valid_version_text(
        #[trigger] vs[i].version@,
    ) by {
        assert(crate::versioning::valid_version_text(pv[i].version@));
    }
    assert forall|i: int, j: int| #[trigger] crate::store::succ_version_in(vs, i, j) implies
        !crate::versioning::version_text_le(vs[j].version@, vs[i].version@) by {
        assert forall|k: int| i < k < j implies pv[k].mod_id@ != pv[i].mod_id@ by {
            assert(vs[k].mod_id@ != vs[i].mod_id@);
        }
        assert(crate::store::succ_version_in(pv, i, j));
    }
    assert forall|i: int, j: int| 0 <= i < j < ms.len() implies ms[i].id@ != ms[j].id@ by {
        assert(pm[i].id@ != pm[j].id@);
    }
    assert forall|i: int| 0 <= i < post.dev_links@.len() implies mods_contain(
        ms,
        #[trigger] post.dev_links@[i].mod_id@,
    ) by {
        assert(mods_contain(pm, pre.dev_links@[i].mod_id@));
        let w = choose|w: int| 0 <= w < pm.len() && pm[w].id@ == pre.dev_links@[i].mod_id@;
        assert(ms[w].id@ == post.dev_links@[i].mod_id@);
    }
    assert forall|i: int| 0 <= i < post.tag_links@.len() implies mods_contain(
        ms,
        #[trigger] post.tag_links@[i].mod_id@,
    ) by {
        assert(mods_contain(pm, pre.tag_links@[i].mod_id@));
        let w = choose|w: int| 0 <= w < pm.len() && pm[w].id@ == pre.tag_links@[i].mod_id@;
        assert(ms[w].id@ == post.tag_links@[i].mod_id@);
    }
    // the event log: unique pairs, valid references, settled times
    assert forall|i: int, j: int| 0 <= i < j < dl.len() implies !(dl[i].client == dl[j].client
        && dl[i].version_id == dl[j].version_id) by {
        if j < n {
            assert(dl[i] == pd[i] && dl[j] == pd[j]);
        } else {
            assert(dl[j] == e);
            if dl[i].client == client && dl[i].version_id == vid {
                assert(pd[i].client == client && pd[i].version_id == vid);
            }
        }
    }
    assert forall|i: int| 0 <= i < dl.len() implies crate::store::versions_contain_id(
        vs,
        #[trigger] dl[i].version_id,
    ) by {
        if i < n {
            assert(crate::store::versions_contain_id(pv, pd[i].version_id));
            let w = choose|w: int| 0 <= w < pv.len() && pv[w].id == pd[i].version_id;
            assert(vs[w].id == dl[i].version_id);
        } else {
            assert(vs[vi].id == vid);
        }
    }
    assert forall|i: int, k: int|
        0 <= i < dl.len() && 0 <= k < vs.len() && #[trigger] vs[k].id
            == #[trigger] dl[i].version_id implies dl[i].time <= vs[k].last_download_refresh by {
        if i < n {
            assert(pv[k].id == pd[i].version_id);
            assert(pd[i].time <= pv[k].last_download_refresh);
        } else {
            assert(dl[i] == e);
            if k != vi {
                assert(pv[k].id != vid);
            }
            assert(k == vi);
        }
    }
    assert forall|i: int, k: int, m: int|
        0 <= i < dl.len() && 0 <= k < vs.len() && #[trigger] vs[k].id
            == #[trigger] dl[i].version_id && 0 <= m < ms.len() && #[trigger] ms[m].id@
            == vs[k].mod_id@ implies dl[i].time <= ms[m].last_download_refresh by {
        if i < n {
            assert(pv[k].id == pd[i].version_id);
            assert(pm[m].id@ == pv[k].mod_id@);
            assert(pd[i].time <= pm[m].last_download_refresh);
        } else {
            if k != vi {
                assert(pv[k].id != vid);
            }
            assert(k == vi);
            if m != mi {
                if m < mi {
                    assert(pm[m].id@ != pm[mi].id@);
                } else {
                    assert(pm[mi].id@ != pm[m].id@);
                }
            }
            assert(m == mi);
        }
    }
    // counters still bound the events they summarize
    assert forall|i: int| 0 <= i < ms.len() implies #[trigger] ms[i].download_count
        <= count_mod_events(vs, dl, ms[i].id@, dl.len() as int) by {
        lemma_count_mod_events_same_ids(vs, pv, dl, ms[i].id@, dl.len() as int);
        lemma_count_mod_events_push_prefix(pv, pd, e, ms[i].id@, n);
        assert(count_mod_events(pv, dl, ms[i].id@, dl.len() as int) == count_mod_events(
            pv,
            pd,
            ms[i].id@,
            n,
        ) + if event_in_mod(pv, e, ms[i].id@) {
            1nat
        } else {
            0nat
        });
        assert(pm[i].download_count <= count_mod_events(pv, pd, pm[i].id@, n));
        if i == mi && pv[vi].validated {
            assert(pv[vi].id == e.version_id && pv[vi].mod_id@ == ms[i].id@);
            assert(event_in_mod(pv, e, ms[i].id@));
        }
    }
    assert forall|i: int| 0 <= i < vs.len() implies #[trigger] vs[i].download_count
        <= count_version_events(dl, vs[i].id, dl.len() as int) by {
        lemma_count_version_events_push_prefix(pd, e, vs[i].id, n);
        assert(count_version_events(dl, vs[i].id, dl.len() as int) == count_version_events(
            pd,
            vs[i].id,
            n,
        ) + if e.version_id == vs[i].id {
            1nat
        } else {
            0nat
        });
        assert(pv[i].download_count <= count_version_events(pd, pv[i].id, n));
    }
    assert(post.wf());
}

} // verus!
