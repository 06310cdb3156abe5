//! The version lifecycle: first submission, later submissions with strict
//! version-ordering, flag changes, and the latest-version resolver.

use vstd::prelude::*;

use crate::api::DetailedGDVersion;
use crate::api::FetchedDeveloper;
use crate::api::Mod;
use crate::api::ModJson;
use crate::error::ApiError;
use crate::error::BadRequestKind;
use crate::error::MissingEntity;
use crate::store::clone_bytes;
use crate::store::count_mod_events;
use crate::store::DownloadRow;
use crate::store::event_in_mod;
use crate::store::mods_contain;
use crate::store::succ_version_in;
use crate::store::Catalog;
use crate::store::GdVersionRow;
use crate::store::ModRow;
use crate::store::VersionRow;
use crate::versioning::check_version_text;
use crate::versioning::valid_version_text;
use crate::versioning::version_text_le;
use crate::versioning::version_text_le_exec;

verus! {

/// The stored support rows stand for exactly this support table.
pub open spec fn gd_rows_match(rows: Seq<GdVersionRow>, gd: DetailedGDVersion) -> bool {
    let want = gd.spec_rows();
    &&& rows.len() == want.len()
    &&& forall|k: int|
        0 <= k < rows.len() ==> #[trigger] rows[k].platform == want[k].0 && rows[k].gd == want[k].1
}

/// The stored version row carries exactly the submission's fields, with
/// this internal id, validation flag and watermark.
pub open spec fn version_row_matches(
    v: VersionRow,
    json: ModJson,
    id: u64,
    validated: bool,
    wm: int,
) -> bool {
    &&& v.id == id
    &&& v.mod_id == json.id
    &&& v.name == json.name
    &&& v.description == json.description
    &&& v.version == json.version
    &&& v.download_link == json.download_url
    &&& v.hash == json.hash
    &&& v.geode == json.geode
    &&& v.early_load == json.early_load
    &&& v.api == json.api
    &&& v.validated == validated
    &&& !v.unlisted
    &&& v.download_count == 0
    &&& v.last_download_refresh == wm
    &&& gd_rows_match(v.gd@, json.gd)
}

/// The stored package row carries exactly the submission's fields, created
/// at this time.
pub open spec fn mod_row_matches(m: ModRow, json: ModJson, t: int) -> bool {
    &&& m.id == json.id
    &&& m.repository == json.repository
    &&& m.latest_version == json.version
    &&& !m.featured
    &&& m.download_count == 0
    &&& m.last_download_refresh == t
    &&& m.image@ == json.logo@
    &&& m.about == json.about
    &&& m.changelog == json.changelog
    &&& m.created_at == t
    &&& m.updated_at == t
}

/// A verified copy of an optional text.
pub fn clone_opt_string(o: &Option<String>) -> (r: Option<String>)
    ensures
        r == *o,
{
    match o {
        Some(s) => Some(s.clone()),
        None => None,
    }
}

/// Builds the stored support rows of a submission's support table.
fn gd_rows_from(gd: &DetailedGDVersion) -> (r: Vec<GdVersionRow>)
    ensures
        gd_rows_match(r@, *gd),
{
    let mut rows: Vec<GdVersionRow> = Vec::new();
    if let Some(g) = &gd.win {
        rows.push(GdVersionRow { platform: crate::api::VerPlatform::Win, gd: g.clone() });
    }
    if let Some(g) = &gd.mac {
        rows.push(GdVersionRow { platform: crate::api::VerPlatform::Mac, gd: g.clone() });
    }
    if let Some(g) = &gd.ios {
        rows.push(GdVersionRow { platform: crate::api::VerPlatform::Ios, gd: g.clone() });
    }
    if let Some(g) = &gd.android {
        rows.push(GdVersionRow { platform: crate::api::VerPlatform::Android32, gd: g.clone() });
        rows.push(GdVersionRow { platform: crate::api::VerPlatform::Android64, gd: g.clone() });
    }
    if let Some(g) = &gd.android32 {
        rows.push(GdVersionRow { platform: crate::api::VerPlatform::Android32, gd: g.clone() });
    }
    if let Some(g) = &gd.android64 {
        rows.push(GdVersionRow { platform: crate::api::VerPlatform::Android64, gd: g.clone() });
    }
    proof {
        let want = gd.spec_rows();
        assert(rows@.len() == want.len());
    }
    rows
}

/// Builds a stored version row from a submission.
fn version_row_from_json(json: &ModJson, id: u64, validated: bool, wm: u64) -> (r: VersionRow)
    ensures
        version_row_matches(r, *json, id, validated, wm as int),
{
    VersionRow {
        id,
        mod_id: json.id.clone(),
        name: json.name.clone(),
        description: clone_opt_string(&json.description),
        version: json.version.clone(),
        download_link: json.download_url.clone(),
        hash: json.hash.clone(),
        geode: json.geode.clone(),
        early_load: json.early_load,
        api: json.api,
        validated,
        unlisted: false,
        download_count: 0,
        last_download_refresh: wm,
        gd: gd_rows_from(&json.gd),
    }
}

/// Counting a package's events does not change when a version row with an
/// id no event carries is appended.
pub proof fn lemma_count_mod_events_push_version(
    versions: Seq<VersionRow>,
    downloads: Seq<DownloadRow>,
    row: VersionRow,
    mod_id: Seq<char>,
    j: int,
)
    requires
        forall|i: int| 0 <= i < downloads.len() ==> #[trigger] downloads[i].version_id != row.id,
        j <= downloads.len(),
    ensures
        count_mod_events(versions.push(row), downloads, mod_id, j) == count_mod_events(
            versions,
            downloads,
            mod_id,
            j,
        ),
    decreases j,
{
    if j > 0 {
        lemma_count_mod_events_push_version(versions, downloads, row, mod_id, j - 1);
        let d = downloads[j - 1];
        if event_in_mod(versions.push(row), d, mod_id) {
            let w = choose|w: int|
                0 <= w < versions.push(row).len() && versions.push(row)[w].id == d.version_id
                    && versions.push(row)[w].mod_id@ == mod_id;
            assert(w < versions.len());
            assert(event_in_mod(versions, d, mod_id));
        }
        if event_in_mod(versions, d, mod_id) {
            let w = choose|w: int|
                0 <= w < versions.len() && versions[w].id == d.version_id && versions[w].mod_id@
                    == mod_id;
            assert(versions.push(row)[w].id == d.version_id && versions.push(row)[w].mod_id@
                == mod_id);
        }
    }
}

/// Counting a package's events depends only on each version row's id and
/// owning package.
pub proof fn lemma_count_mod_events_same_ids(
    vs1: Seq<VersionRow>,
    vs2: Seq<VersionRow>,
    downloads: Seq<DownloadRow>,
    mod_id: Seq<char>,
    j: int,
)
    requires
        vs1.len() == vs2.len(),
        forall|k: int|
            0 <= k < vs1.len() ==> (#[trigger] vs1[k]).id == (#[trigger] vs2[k]).id
                && vs1[k].mod_id@ == vs2[k].mod_id@,
        j <= downloads.len(),
    ensures
        count_mod_events(vs1, downloads, mod_id, j) == count_mod_events(
            vs2,
            downloads,
            mod_id,
            j,
        ),
    decreases j,
{
    if j > 0 {
        lemma_count_mod_events_same_ids(vs1, vs2, downloads, mod_id, j - 1);
        let d = downloads[j - 1];
        if event_in_mod(vs1, d, mod_id) {
            let w = choose|w: int|
                0 <= w < vs1.len() && vs1[w].id == d.version_id && vs1[w].mod_id@ == mod_id;
            assert(vs2[w].id == d.version_id && vs2[w].mod_id@ == mod_id);
        }
        if event_in_mod(vs2, d, mod_id) {
            let w = choose|w: int|
                0 <= w < vs2.len() && vs2[w].id == d.version_id && vs2[w].mod_id@ == mod_id;
            assert(vs1[w].id == d.version_id && vs1[w].mod_id@ == mod_id);
        }
    }
}

/// Inserts the submission's version row for an existing package. The new
/// row takes the next internal id; its watermark starts at the clock.
fn create_from_json(json: &ModJson, dev_verified: bool, store: &mut Catalog) -> (r: u64)
    requires
        old(store).wf(),
        old(store).next_version_id < u64::MAX,
        old(store).has_mod(json.id@),
        valid_version_text(json.version@),
        old(store).has_version_of(json.id@) ==> !version_text_le(
            json.version@,
            old(store).versions@[old(store).last_version_idx(json.id@)].version@,
        ),
    ensures
        final(store).wf(),
        final(store).mods@ == old(store).mods@,
        final(store).developers@ == old(store).developers@,
        final(store).dev_links@ == old(store).dev_links@,
        final(store).tags@ == old(store).tags@,
        final(store).tag_links@ == old(store).tag_links@,
        final(store).downloads@ == old(store).downloads@,
        final(store).clock == old(store).clock,
        final(store).next_developer_id == old(store).next_developer_id,
        final(store).next_tag_id == old(store).next_tag_id,
        r == old(store).next_version_id,
        final(store).next_version_id == old(store).next_version_id + 1,
        final(store).versions@.len() == old(store).versions@.len() + 1,
        final(store).versions@.take(old(store).versions@.len() as int) == old(store).versions@,
        version_row_matches(
            final(store).versions@.last(),
            *json,
            old(store).next_version_id,
            dev_verified,
            old(store).clock as int,
        ),
    {
    let id = store.next_version_id;
    let row = version_row_from_json(json, id, dev_verified, store.clock);
    let ghost vs = store.versions@;
    let ghost n = store.versions@.len() as int;
    store.versions.push(row);
    store.next_version_id = id + 1;
    proof {
        let vs2 = store.versions@;
        assert(vs2.take(n) =~= vs);
        // internal ids stay strictly increasing and below the counter
        assert forall|i: int, j: int| 0 <= i < j < vs2.len() implies vs2[i].id < vs2[j].id by {
            if j < n {
                assert(vs[i].id < vs[j].id);
            } else {
                assert(vs[i].id < old(store).next_version_id);
            }
        }
        // every row still belongs to an existing package and stays valid
        assert forall|i: int| 0 <= i < vs2.len() implies mods_contain(
            store.mods@,
            #[trigger] vs2[i].mod_id@,
        ) by {
            if i < n {
                assert(mods_contain(old(store).mods@, vs[i].mod_id@));
            }
        }
        assert forall|i: int| 0 <= i < vs2.len() implies valid_version_text(
            #[trigger] vs2[i].version@,
        ) by {
            if i < n {
                assert(valid_version_text(vs[i].version@));
            }
        }
        // the ordering chain: the new row was compared against the
        // package's most recently submitted version
        assert forall|i: int, j: int| #[trigger] succ_version_in(vs2, i, j) implies
            !version_text_le(vs2[j].version@, vs2[i].version@) by {
            if j < n {
                assert(succ_version_in(vs, i, j));
            } else {
                assert(vs2[j] == row);
                assert(vs[i].mod_id@ == json.id@);
                assert(forall|k: int|
                    i < k < n ==> #[trigger] vs[k].mod_id@ != json.id@);
                assert(old(store).is_last_version_of(i, json.id@));
                assert(old(store).has_version_of(json.id@));
                let c = old(store).last_version_idx(json.id@);
                assert(old(store).is_last_version_of(c, json.id@));
                if c < i {
                    assert(vs[i].mod_id@ != json.id@);
                } else if i < c {
                    assert(vs[c].mod_id@ != json.id@);
                }
                assert(c == i);
            }
        }
        // no stored event carries the fresh id
        assert forall|i: int| 0 <= i < store.downloads@.len() implies
            #[trigger] store.downloads@[i].version_id != row.id by {
            assert(crate::store::versions_contain_id(vs, store.downloads@[i].version_id));
            let w = choose|w: int|
                0 <= w < vs.len() && vs[w].id == store.downloads@[i].version_id;
            assert(vs[w].id < old(store).next_version_id);
        }
        assert forall|i: int| 0 <= i < store.downloads@.len() implies
            crate::store::versions_contain_id(vs2, #[trigger] store.downloads@[i].version_id) by {
            assert(crate::store::versions_contain_id(vs, store.downloads@[i].version_id));
            crate::store::lemma_versions_contain_push(
                vs,
                row,
                store.downloads@[i].version_id,
            );
        }
        // cached counters still bound the events they summarize
        assert forall|i: int| 0 <= i < store.mods@.len() implies
            #[trigger] store.mods@[i].download_count <= count_mod_events(
            vs2,
            store.downloads@,
            store.mods@[i].id@,
            store.downloads@.len() as int,
        ) by {
            lemma_count_mod_events_push_version(
                vs,
                store.downloads@,
                row,
                store.mods@[i].id@,
                store.downloads@.len() as int,
            );
        }
        assert(store.wf());
    }
    id
}

/// Row `b` is row `a` with another featured flag.
pub open spec fn mod_row_featured_set(a: ModRow, b: ModRow, f: bool) -> bool {
    &&& b.id == a.id
    &&& b.repository == a.repository
    &&& b.latest_version == a.latest_version
    &&& b.featured == f
    &&& b.download_count == a.download_count
    &&& b.last_download_refresh == a.last_download_refresh
    &&& b.image == a.image
    &&& b.about == a.about
    &&& b.changelog == a.changelog
    &&& b.created_at == a.created_at
    &&& b.updated_at == a.updated_at
}

/// Row `b` is row `a` with a fresh display image and update time.
pub open spec fn mod_row_image_updated(a: ModRow, b: ModRow, logo: Seq<u8>, t: int) -> bool {
    &&& b.id == a.id
    &&& b.repository == a.repository
    &&& b.latest_version == a.latest_version
    &&& b.featured == a.featured
    &&& b.download_count == a.download_count
    &&& b.last_download_refresh == a.last_download_refresh
    &&& b.image@ == logo
    &&& b.about == a.about
    &&& b.changelog == a.changelog
    &&& b.created_at == a.created_at
    &&& b.updated_at == t
}

/// Row `b` is row `a` with another latest-version pointer.
pub open spec fn mod_row_latest_set(a: ModRow, b: ModRow, v: String) -> bool {
    &&& b.id == a.id
    &&& b.repository == a.repository
    &&& b.latest_version == v
    &&& b.featured == a.featured
    &&& b.download_count == a.download_count
    &&& b.last_download_refresh == a.last_download_refresh
    &&& b.image == a.image
    &&& b.about == a.about
    &&& b.changelog == a.changelog
    &&& b.created_at == a.created_at
    &&& b.updated_at == a.updated_at
}

/// Row `b` is row `a` with its two visibility flags replaced where given.
pub open spec fn version_row_flags_set(
    a: VersionRow,
    b: VersionRow,
    validated: Option<bool>,
    unlisted: Option<bool>,
) -> bool {
    &&& b.id == a.id
    &&& b.mod_id == a.mod_id
    &&& b.name == a.name
    &&& b.description == a.description
    &&& b.version == a.version
    &&& b.download_link == a.download_link
    &&& b.hash == a.hash
    &&& b.geode == a.geode
    &&& b.early_load == a.early_load
    &&& b.api == a.api
    &&& b.validated == (match validated {
        Some(v) => v,
        None => a.validated,
    })
    &&& b.unlisted == (match unlisted {
        Some(u) => u,
        None => a.unlisted,
    })
    &&& b.download_count == a.download_count
    &&& b.last_download_refresh == a.last_download_refresh
    &&& b.gd == a.gd
}

/// Replacing one package row, with its id, counter and watermark kept,
/// preserves the store invariant; the clock may move forward.
pub proof fn lemma_wf_mod_row_update(pre: Catalog, post: Catalog, mi: int)
    requires
        pre.wf(),
        0 <= mi < pre.mods@.len(),
        post.versions@ == pre.versions@,
        post.developers@ == pre.developers@,
        post.dev_links@ == pre.dev_links@,
        post.tags@ == pre.tags@,
        post.tag_links@ == pre.tag_links@,
        post.downloads@ == pre.downloads@,
        post.next_version_id == pre.next_version_id,
        post.next_developer_id == pre.next_developer_id,
        post.next_tag_id == pre.next_tag_id,
        post.clock >= pre.clock,
        post.mods@.len() == pre.mods@.len(),
        forall|k: int|
            0 <= k < pre.mods@.len() && k != mi ==> #[trigger] post.mods@[k] == pre.mods@[k],
        post.mods@[mi].id == pre.mods@[mi].id,
        post.mods@[mi].download_count == pre.mods@[mi].download_count,
        post.mods@[mi].last_download_refresh >= pre.mods@[mi].last_download_refresh,
        post.mods@[mi].last_download_refresh <= post.clock,
    ensures
        post.wf(),
{
    let ms = post.mods@;
    let pm = pre.mods@;
    assert forall|k: int| 0 <= k < ms.len() implies #[trigger] ms[k].id@ == pm[k].id@
        && ms[k].last_download_refresh >= pm[k].last_download_refresh && ms[k].download_count
        == pm[k].download_count && ms[k].last_download_refresh <= post.clock by {
        if k != mi {
            assert(ms[k] == pm[k]);
            assert(pm[k].last_download_refresh <= pre.clock);
        }
    }
    assert forall|i: int, j: int| 0 <= i < j < ms.len() implies ms[i].id@ != ms[j].id@ by {
        assert(pm[i].id@ != pm[j].id@);
    }
    assert forall|i: int| 0 <= i < post.versions@.len() implies mods_contain(
        ms,
        #[trigger] post.versions@[i].mod_id@,
    ) by {
        assert(mods_contain(pm, pre.versions@[i].mod_id@));
        let w = choose|w: int| 0 <= w < pm.len() && pm[w].id@ == pre.versions@[i].mod_id@;
        assert(ms[w].id@ == post.versions@[i].mod_id@);
    }
    assert forall|i: int| 0 <= i < post.dev_links@.len() implies mods_contain(
        ms,
        #[trigger] post.dev_links@[i].mod_id@,
    ) by {
        assert(mods_contain(pm, pre.dev_links@[i].mod_id@));
        let w = choose|w: int| 0 <= w < pm.len() && pm[w].id@ == pre.dev_links@[i].mod_id@;
        assert(ms[w].id@ == post.dev_links@[i].mod_id@);
    }
    assert forall|i: int| 0 <= i < post.tag_links@.len() implies mods_contain(
        ms,
        #[trigger] post.tag_links@[i].mod_id@,
    ) by {
        assert(mods_contain(pm, pre.tag_links@[i].mod_id@));
        let w = choose|w: int| 0 <= w < pm.len() && pm[w].id@ == pre.tag_links@[i].mod_id@;
        assert(ms[w].id@ == post.tag_links@[i].mod_id@);
    }
    assert forall|i: int, k: int, m: int|
        0 <= i < post.downloads@.len() && 0 <= k < post.versions@.len()
            && #[trigger] post.versions@[k].id == #[trigger] post.downloads@[i].version_id && 0 <= m
            < ms.len() && #[trigger] ms[m].id@ == post.versions@[k].mod_id@ implies
        post.downloads@[i].time <= ms[m].last_download_refresh by {
        assert(pm[m].id@ == pre.versions@[k].mod_id@);
        assert(pre.downloads@[i].time <= pm[m].last_download_refresh);
    }
    assert forall|i: int| 0 <= i < ms.len() implies #[trigger] ms[i].download_count
        <= count_mod_events(
        post.versions@,
        post.downloads@,
        ms[i].id@,
        post.downloads@.len() as int,
    ) by {
        assert(pm[i].download_count <= count_mod_events(
            pre.versions@,
            pre.downloads@,
            pm[i].id@,
            pre.downloads@.len() as int,
        ));
    }
    assert(post.wf());
}

/// Replacing one version row, with everything but its visibility flags
/// kept, preserves the store invariant.
pub proof fn lemma_wf_version_row_update(pre: Catalog, post: Catalog, vi: int)
    requires
        pre.wf(),
        0 <= vi < pre.versions@.len(),
        post.mods@ == pre.mods@,
        post.developers@ == pre.developers@,
        post.dev_links@ == pre.dev_links@,
        post.tags@ == pre.tags@,
        post.tag_links@ == pre.tag_links@,
        post.downloads@ == pre.downloads@,
        post.next_version_id == pre.next_version_id,
        post.next_developer_id == pre.next_developer_id,
        post.next_tag_id == pre.next_tag_id,
        post.clock == pre.clock,
        post.versions@.len() == pre.versions@.len(),
        forall|k: int|
            0 <= k < pre.versions@.len() && k != vi ==> #[trigger] post.versions@[k]
                == pre.versions@[k],
        post.versions@[vi].id == pre.versions@[vi].id,
        post.versions@[vi].mod_id == pre.versions@[vi].mod_id,
        post.versions@[vi].version == pre.versions@[vi].version,
        post.versions@[vi].download_count == pre.versions@[vi].download_count,
        post.versions@[vi].last_download_refresh >= pre.versions@[vi].last_download_refresh,
        post.versions@[vi].last_download_refresh <= post.clock,
    ensures
        post.wf(),
{
    let vs = post.versions@;
    let pv = pre.versions@;
    assert forall|k: int| 0 <= k < vs.len() implies (#[trigger] vs[k]).id == (#[trigger] pv[k]).id
        && vs[k].mod_id@ == pv[k].mod_id@ && vs[k].version@ == pv[k].version@
        && vs[k].download_count == pv[k].download_count && vs[k].last_download_refresh
        >= pv[k].last_download_refresh && vs[k].last_download_refresh <= post.clock by {
        if k != vi {
            assert(vs[k] == pv[k]);
            assert(pv[k].last_download_refresh <= pre.clock);
        }
    }
    assert forall|i: int, j: int| 0 <= i < j < vs.len() implies vs[i].id < vs[j].id by {
        assert(pv[i].id < pv[j].id);
    }
    assert forall|i: int| 0 <= i < vs.len() implies mods_contain(
        post.mods@,
        #[trigger] vs[i].mod_id@,
    ) by {
        assert(mods_contain(pre.mods@, pv[i].mod_id@));
    }
    assert forall|i: int| 0 <= i < vs.len() implies valid_version_text(
        #[trigger] vs[i].version@,
    ) by {
        assert(valid_version_text(pv[i].version@));
    }
    assert forall|i: int, j: int| #[trigger] succ_version_in(vs, i, j) implies !version_text_le(
        vs[j].version@,
        vs[i].version@,
    ) by {
        assert forall|k: int| i < k < j implies pv[k].mod_id@ != pv[i].mod_id@ by {
            assert(vs[k].mod_id@ != vs[i].mod_id@);
        }
        assert(succ_version_in(pv, i, j));
    }
    assert forall|i: int| 0 <= i < post.downloads@.len() implies
        crate::store::versions_contain_id(vs, #[trigger] post.downloads@[i].version_id) by {
        assert(crate::store::versions_contain_id(pv, pre.downloads@[i].version_id));
        let w = choose|w: int| 0 <= w < pv.len() && pv[w].id == pre.downloads@[i].version_id;
        assert(vs[w].id == post.downloads@[i].version_id);
    }
    assert forall|i: int, k: int|
        0 <= i < post.downloads@.len() && 0 <= k < vs.len() && #[trigger] vs[k].id
            == #[trigger] post.downloads@[i].version_id implies post.downloads@[i].time
        <= vs[k].last_download_refresh by {
        assert(pv[k].id == pre.downloads@[i].version_id);
        assert(pre.downloads@[i].time <= pv[k].last_download_refresh);
    }
    assert forall|i: int, k: int, m: int|
        0 <= i < post.downloads@.len() && 0 <= k < vs.len() && #[trigger] vs[k].id
            == #[trigger] post.downloads@[i].version_id && 0 <= m < post.mods@.len()
            && #[trigger] post.mods@[m].id@ == vs[k].mod_id@ implies post.downloads@[i].time
        <= post.mods@[m].last_download_refresh by {
        assert(pv[k].id == pre.downloads@[i].version_id);
        assert(pre.mods@[m].id@ == pv[k].mod_id@);
    }
    assert forall|i: int| 0 <= i < post.mods@.len() implies
        #[trigger] post.mods@[i].download_count <= count_mod_events(
        vs,
        post.downloads@,
        post.mods@[i].id@,
        post.downloads@.len() as int,
    ) by {
        lemma_count_mod_events_same_ids(
            vs,
            pv,
            post.downloads@,
            post.mods@[i].id@,
            post.downloads@.len() as int,
        );
    }
    assert forall|i: int| 0 <= i < vs.len() implies #[trigger] vs[i].download_count
        <= crate::store::count_version_events(
        post.downloads@,
        vs[i].id,
        post.downloads@.len() as int,
    ) by {
        assert(pv[i].download_count <= crate::store::count_version_events(
            pre.downloads@,
            pv[i].id,
            pre.downloads@.len() as int,
        ));
    }
    assert(post.wf());
}

impl Mod {
    /// Creates the package row for a first submission and records the
    /// submitter as its sole owner. A package that already exists is
    /// rejected; history is append-only.
    fn create(json: &ModJson, developer: &FetchedDeveloper, store: &mut Catalog) -> (r: Result<
        (),
        ApiError,
    >)
        requires
            old(store).wf(),
            old(store).clock < u64::MAX,
        ensures
            final(store).wf(),
            final(store).versions@ == old(store).versions@,
            final(store).developers@ == old(store).developers@,
            final(store).tags@ == old(store).tags@,
            final(store).tag_links@ == old(store).tag_links@,
            final(store).downloads@ == old(store).downloads@,
            final(store).next_version_id == old(store).next_version_id,
            final(store).next_developer_id == old(store).next_developer_id,
            final(store).next_tag_id == old(store).next_tag_id,
            r is Err ==> *final(store) == *old(store),
            old(store).has_mod(json.id@) ==> (r matches Err(
                ApiError::BadRequest(BadRequestKind::ModAlreadyExists(m)),
            ) && m@ == json.id@),
            !old(store).has_mod(json.id@) && !old(store).has_developer(developer.id) ==> (
            r matches Err(ApiError::NotFound(MissingEntity::Developer(d))) && d == developer.id),
            !old(store).has_mod(json.id@) && old(store).has_developer(developer.id) ==> {
                &&& r is Ok
                &&& final(store).clock == old(store).clock + 1
                &&& final(store).mods@.len() == old(store).mods@.len() + 1
                &&& final(store).mods@.take(old(store).mods@.len() as int) == old(store).mods@
                &&& mod_row_matches(final(store).mods@.last(), *json, old(store).clock + 1)
                &&& final(store).dev_links@.len() == old(store).dev_links@.len() + 1
                &&& final(store).dev_links@.take(old(store).dev_links@.len() as int) == old(
                    store,
                ).dev_links@
                &&& final(store).dev_links@.last().mod_id@ == json.id@
                &&& final(store).dev_links@.last().developer_id == developer.id
                &&& final(store).dev_links@.last().is_owner
            },
    {
        if store.find_mod(json.id.as_str()).is_some() {
            return Err(ApiError::BadRequest(BadRequestKind::ModAlreadyExists(json.id.clone())));
        }
        if store.find_developer(developer.id).is_none() {
            return Err(ApiError::NotFound(MissingEntity::Developer(developer.id)));
        }
        let t = store.clock + 1;
        store.clock = t;
        let row = ModRow {
            id: json.id.clone(),
            repository: clone_opt_string(&json.repository),
            latest_version: json.version.clone(),
            featured: false,
            download_count: 0,
            last_download_refresh: t,
            image: clone_bytes(&json.logo),
            about: clone_opt_string(&json.about),
            changelog: clone_opt_string(&json.changelog),
            created_at: t,
            updated_at: t,
        };
        let ghost ms = store.mods@;
        let ghost n = store.mods@.len() as int;
        store.mods.push(row);
        proof {
            let ms2 = store.mods@;
            assert(ms2.take(n) =~= ms);
            assert forall|i: int| 0 <= i < store.versions@.len() implies mods_contain(
                ms2,
                #[trigger] store.versions@[i].mod_id@,
            ) by {
                assert(mods_contain(ms, old(store).versions@[i].mod_id@));
                crate::store::lemma_mods_contain_push(ms, row, old(store).versions@[i].mod_id@);
            }
            assert forall|i: int| 0 <= i < store.dev_links@.len() implies mods_contain(
                ms2,
                #[trigger] store.dev_links@[i].mod_id@,
            ) by {
                assert(mods_contain(ms, old(store).dev_links@[i].mod_id@));
                crate::store::lemma_mods_contain_push(ms, row, old(store).dev_links@[i].mod_id@);
            }
            assert forall|i: int| 0 <= i < store.tag_links@.len() implies mods_contain(
                ms2,
                #[trigger] store.tag_links@[i].mod_id@,
            ) by {
                assert(mods_contain(ms, old(store).tag_links@[i].mod_id@));
                crate::store::lemma_mods_contain_push(ms, row, old(store).tag_links@[i].mod_id@);
            }
            assert forall|i: int, k: int, m: int|
                0 <= i < store.downloads@.len() && 0 <= k < store.versions@.len()
                    && #[trigger] store.versions@[k].id == #[trigger] store.downloads@[i].version_id
                    && 0 <= m < ms2.len() && #[trigger] ms2[m].id@ == store.versions@[k].mod_id@
                    implies store.downloads@[i].time <= ms2[m].last_download_refresh by {
                if m == n {
                    assert(mods_contain(ms, old(store).versions@[k].mod_id@));
                    assert(old(store).has_mod(json.id@));
                } else {
                    assert(old(store).downloads@[i].time <= ms[m].last_download_refresh);
                }
            }
            assert forall|i: int| 0 <= i < ms2.len() implies #[trigger] ms2[i].last_download_refresh
                <= store.clock by {
                if i < n {
                    assert(ms[i].last_download_refresh <= old(store).clock);
                }
            }
            assert forall|i: int| 0 <= i < store.versions@.len() implies
                #[trigger] store.versions@[i].last_download_refresh <= store.clock by {
                assert(old(store).versions@[i].last_download_refresh <= old(store).clock);
            }
            assert(store.wf());
        }
        proof {
            assert forall|i: int| 0 <= i < store.dev_links@.len() implies
                !(#[trigger] store.dev_links@[i].mod_id@ == json.id@
                && store.dev_links@[i].developer_id == developer.id) by {
                if store.dev_links@[i].mod_id@ == json.id@ {
                    assert(mods_contain(ms, old(store).dev_links@[i].mod_id@));
                    assert(old(store).has_mod(json.id@));
                }
            }
            assert(!store.has_dev_link(json.id@, developer.id));
        }
        proof {
            assert(store.mods@[n].id@ == json.id@);
            assert(store.has_mod(json.id@));
            assert(store.has_developer(developer.id));
        }
        let res = Mod::assign_owner(json.id.as_str(), developer.id, store);
        proof {
            assert(res is Ok);
        }
        Ok(())
    }

    /// Handles a first submission: both the package's own version and its
    /// declared runtime version must be valid semantic versions; then the
    /// package row, its first version and the submitter's ownership are
    /// recorded together. The first version is validated only when the
    /// submitting developer is pre-verified.
    pub fn from_json(json: &ModJson, developer: &FetchedDeveloper, store: &mut Catalog) -> (r:
        Result<(), ApiError>)
        requires
            old(store).wf(),
            old(store).clock < u64::MAX,
            old(store).next_version_id < u64::MAX,
        ensures
            final(store).wf(),
            final(store).developers@ == old(store).developers@,
            final(store).tags@ == old(store).tags@,
            final(store).tag_links@ == old(store).tag_links@,
            final(store).downloads@ == old(store).downloads@,
            final(store).next_developer_id == old(store).next_developer_id,
            final(store).next_tag_id == old(store).next_tag_id,
            r is Err ==> *final(store) == *old(store),
            !valid_version_text(json.version@) ==> (r matches Err(
                ApiError::BadRequest(BadRequestKind::InvalidSemver(s)),
            ) && s@ == json.version@),
            valid_version_text(json.version@) && !valid_version_text(json.geode@) ==> (r matches Err(
                ApiError::BadRequest(BadRequestKind::InvalidSemver(s)),
            ) && s@ == json.geode@),
            valid_version_text(json.version@) && valid_version_text(json.geode@) && old(
                store,
            ).has_mod(json.id@) ==> (r matches Err(
                ApiError::BadRequest(BadRequestKind::ModAlreadyExists(m)),
            ) && m@ == json.id@),
            valid_version_text(json.version@) && valid_version_text(json.geode@) && !old(
                store,
            ).has_mod(json.id@) && !old(store).has_developer(developer.id) ==> (r matches Err(
                ApiError::NotFound(MissingEntity::Developer(d)),
            ) && d == developer.id),
            valid_version_text(json.version@) && valid_version_text(json.geode@) && !old(
                store,
            ).has_mod(json.id@) && old(store).has_developer(developer.id) ==> {
                &&& r is Ok
                &&& final(store).clock == old(store).clock + 1
                &&& final(store).next_version_id == old(store).next_version_id + 1
                &&& final(store).mods@.len() == old(store).mods@.len() + 1
                &&& final(store).mods@.take(old(store).mods@.len() as int) == old(store).mods@
                &&& mod_row_matches(final(store).mods@.last(), *json, old(store).clock + 1)
                &&& final(store).versions@.len() == old(store).versions@.len() + 1
                &&& final(store).versions@.take(old(store).versions@.len() as int) == old(
                    store,
                ).versions@
                &&& version_row_matches(
                    final(store).versions@.last(),
                    *json,
                    old(store).next_version_id,
                    developer.verified,
                    old(store).clock + 1,
                )
                &&& final(store).dev_links@.len() == old(store).dev_links@.len() + 1
                &&& final(store).dev_links@.take(old(store).dev_links@.len() as int) == old(
                    store,
                ).dev_links@
                &&& final(store).dev_links@.last().mod_id@ == json.id@
                &&& final(store).dev_links@.last().developer_id == developer.id
                &&& final(store).dev_links@.last().is_owner
            },
    {
        if !check_version_text(json.version.as_str()) {
            return Err(ApiError::BadRequest(BadRequestKind::InvalidSemver(json.version.clone())));
        }
        if !check_version_text(json.geode.as_str()) {
            return Err(ApiError::BadRequest(BadRequestKind::InvalidSemver(json.geode.clone())));
        }
        let created = Mod::create(json, developer, store);
        if let Err(e) = created {
            return Err(e);
        }
        proof {
            assert forall|i: int| 0 <= i < store.versions@.len() implies
                #[trigger] store.versions@[i].mod_id@ != json.id@ by {
                assert(mods_contain(old(store).mods@, old(store).versions@[i].mod_id@));
                if store.versions@[i].mod_id@ == json.id@ {
                    assert(old(store).has_mod(json.id@));
                }
            }
            assert(!store.has_version_of(json.id@));
            assert(store.has_mod(json.id@));
        }
        create_from_json(json, developer.verified, store);
        Ok(())
    }

    /// Handles a later submission: the package must already have at least
    /// one validated version, and the submitted version must compare
    /// strictly greater than the package's most recently submitted one.
    /// On success the new version is recorded (validated only for a
    /// pre-verified submitter) and the package's display image and update
    /// time are refreshed.
    pub fn new_version(json: &ModJson, developer: &FetchedDeveloper, store: &mut Catalog) -> (r:
        Result<(), ApiError>)
        requires
            old(store).wf(),
            old(store).clock < u64::MAX,
            old(store).next_version_id < u64::MAX,
        ensures
            final(store).wf(),
            final(store).developers@ == old(store).developers@,
            final(store).dev_links@ == old(store).dev_links@,
            final(store).tags@ == old(store).tags@,
            final(store).tag_links@ == old(store).tag_links@,
            final(store).downloads@ == old(store).downloads@,
            final(store).next_developer_id == old(store).next_developer_id,
            final(store).next_tag_id == old(store).next_tag_id,
            r is Err ==> *final(store) == *old(store),
            !old(store).has_validated_version_of(json.id@) ==> (r matches Err(
                ApiError::NotFound(MissingEntity::ValidatedMod(s)),
            ) && s@ == json.id@),
            old(store).has_validated_version_of(json.id@) && !valid_version_text(json.version@)
                ==> (r matches Err(ApiError::BadRequest(BadRequestKind::InvalidSemver(s))) && s@
                == json.version@),
            old(store).has_validated_version_of(json.id@) && valid_version_text(json.version@)
                && version_text_le(
                json.version@,
                old(store).versions@[old(store).last_version_idx(json.id@)].version@,
            ) ==> (r matches Err(
                ApiError::BadRequest(BadRequestKind::VersionNotGreater { submitted, current }),
            ) && submitted@ == json.version@ && current@ == old(store).versions@[old(
                store,
            ).last_version_idx(json.id@)].version@),
            old(store).has_validated_version_of(json.id@) && valid_version_text(json.version@)
                && !version_text_le(
                json.version@,
                old(store).versions@[old(store).last_version_idx(json.id@)].version@,
            ) ==> {
                &&& r is Ok
                &&& final(store).clock == old(store).clock + 1
                &&& final(store).next_version_id == old(store).next_version_id + 1
                &&& final(store).versions@.len() == old(store).versions@.len() + 1
                &&& final(store).versions@.take(old(store).versions@.len() as int) == old(
                    store,
                ).versions@
                &&& version_row_matches(
                    final(store).versions@.last(),
                    *json,
                    old(store).next_version_id,
                    developer.verified,
                    old(store).clock + 1,
                )
                &&& final(store).mods@.len() == old(store).mods@.len()
                &&& forall|k: int|
                    0 <= k < old(store).mods@.len() && k != old(store).mod_idx(json.id@)
                        ==> #[trigger] final(store).mods@[k] == old(store).mods@[k]
                &&& mod_row_image_updated(
                    old(store).mods@[old(store).mod_idx(json.id@)],
                    final(store).mods@[old(store).mod_idx(json.id@)],
                    json.logo@,
                    old(store).clock + 1,
                )
            },
    {
        let latest_validated = store.find_latest_validated(json.id.as_str());
        if latest_validated.is_none() {
            return Err(ApiError::NotFound(MissingEntity::ValidatedMod(json.id.clone())));
        }
        let li = match store.find_last_version(json.id.as_str()) {
            Some(i) => i,
            None => {
                proof {
                    assert(false);
                }
                return vstd::pervasive::unreached();
            },
        };
        if !check_version_text(json.version.as_str()) {
            return Err(ApiError::BadRequest(BadRequestKind::InvalidSemver(json.version.clone())));
        }
        proof {
            assert(valid_version_text(store.versions@[li as int].version@));
            assert(exists|i: int| store.is_last_version_of(i, json.id@));
            let c = store.last_version_idx(json.id@);
            assert(store.is_last_version_of(c, json.id@));
            if c < li {
                assert(store.versions@[li as int].mod_id@ != json.id@);
            } else if li < c {
                assert(store.versions@[c].mod_id@ != json.id@);
            }
            assert(c == li);
        }
        if version_text_le_exec(json.version.as_str(), store.versions[li].version.as_str()) {
            return Err(
                ApiError::BadRequest(
                    BadRequestKind::VersionNotGreater {
                        submitted: json.version.clone(),
                        current: store.versions[li].version.clone(),
                    },
                ),
            );
        }
        let ghost pre = *store;
        let t = store.clock + 1;
        store.clock = t;
        proof {
            assert(store.wf());
            assert(store.is_last_version_of(li as int, json.id@));
            let c2 = store.last_version_idx(json.id@);
            assert(store.is_last_version_of(c2, json.id@));
            if c2 < li {
                assert(store.versions@[li as int].mod_id@ != json.id@);
            } else if li < c2 {
                assert(store.versions@[c2].mod_id@ != json.id@);
            }
            assert(c2 == li);
            assert(store.has_mod(json.id@));
        }
        create_from_json(json, developer.verified, store);
        let mi = match store.find_mod(json.id.as_str()) {
            Some(i) => i,
            None => {
                proof {
                    assert(false);
                }
                return vstd::pervasive::unreached();
            },
        };
        proof {
            let c = old(store).mod_idx(json.id@);
            assert(old(store).has_mod(json.id@));
            assert(0 <= c < old(store).mods@.len() && old(store).mods@[c].id@ == json.id@);
            if c != mi {
                assert(old(store).mods@[c].id@ != old(store).mods@[mi as int].id@);
            }
            assert(c == mi);
        }
        let ghost mid = *store;
        let rowm = store.mods.remove(mi);
        let newm = ModRow {
            id: rowm.id,
            repository: rowm.repository,
            latest_version: rowm.latest_version,
            featured: rowm.featured,
            download_count: rowm.download_count,
            last_download_refresh: rowm.last_download_refresh,
            image: clone_bytes(&json.logo),
            about: rowm.about,
            changelog: rowm.changelog,
            created_at: rowm.created_at,
            updated_at: t,
        };
        store.mods.insert(mi, newm);
        proof {
            assert(store.mods@ =~= mid.mods@.update(mi as int, newm));
            lemma_wf_mod_row_update(mid, *store, mi as int);
        }
        Ok(())
    }

    /// Sets the package's featured flag; everything else is untouched.
    pub fn update_mod(id: &str, featured: bool, store: &mut Catalog) -> (r: Result<(), ApiError>)
        requires
            old(store).wf(),
        ensures
            final(store).wf(),
            final(store).versions@ == old(store).versions@,
            final(store).developers@ == old(store).developers@,
            final(store).dev_links@ == old(store).dev_links@,
            final(store).tags@ == old(store).tags@,
            final(store).tag_links@ == old(store).tag_links@,
            final(store).downloads@ == old(store).downloads@,
            final(store).clock == old(store).clock,
            final(store).next_version_id == old(store).next_version_id,
            final(store).next_developer_id == old(store).next_developer_id,
            final(store).next_tag_id == old(store).next_tag_id,
            r is Err ==> *final(store) == *old(store),
            !old(store).has_mod(id@) ==> (r matches Err(
                ApiError::NotFound(MissingEntity::Mod(m)),
            ) && m@ == id@),
            old(store).has_mod(id@) ==> {
                &&& r is Ok
                &&& final(store).mods@.len() == old(store).mods@.len()
                &&& forall|k: int|
                    0 <= k < old(store).mods@.len() && k != old(store).mod_idx(id@)
                        ==> #[trigger] final(store).mods@[k] == old(store).mods@[k]
                &&& mod_row_featured_set(
                    old(store).mods@[old(store).mod_idx(id@)],
                    final(store).mods@[old(store).mod_idx(id@)],
                    featured,
                )
            },
    {
        let mi = match store.find_mod(id) {
            Some(i) => i,
            None => {
                return Err(ApiError::NotFound(MissingEntity::Mod(id.to_owned())));
            },
        };
        proof {
            let c = old(store).mod_idx(id@);
            assert(old(store).has_mod(id@));
            if c != mi {
                assert(old(store).mods@[c].id@ != old(store).mods@[mi as int].id@);
            }
            assert(c == mi);
        }
        let rowm = store.mods.remove(mi);
        let newm = ModRow {
            id: rowm.id,
            repository: rowm.repository,
            latest_version: rowm.latest_version,
            featured,
            download_count: rowm.download_count,
            last_download_refresh: rowm.last_download_refresh,
            image: rowm.image,
            about: rowm.about,
            changelog: rowm.changelog,
            created_at: rowm.created_at,
            updated_at: rowm.updated_at,
        };
        store.mods.insert(mi, newm);
        proof {
            assert(store.mods@ =~= old(store).mods@.update(mi as int, newm));
            lemma_wf_mod_row_update(*old(store), *store, mi as int);
        }
        Ok(())
    }

    /// The latest-version resolver: writes the semantic version of the
    /// package's validated version with the greatest internal id into its
    /// `latest_version` pointer; when no validated version exists the
    /// pointer is left untouched. Insertion order, not version-string
    /// order, decides — ordering was already enforced at submission time.
    pub fn try_update_latest_version(id: &str, store: &mut Catalog) -> (r: Result<(), ApiError>)
        requires
            old(store).wf(),
        ensures
            final(store).wf(),
            r is Ok,
            final(store).versions@ == old(store).versions@,
            final(store).developers@ == old(store).developers@,
            final(store).dev_links@ == old(store).dev_links@,
            final(store).tags@ == old(store).tags@,
            final(store).tag_links@ == old(store).tag_links@,
            final(store).downloads@ == old(store).downloads@,
            final(store).clock == old(store).clock,
            final(store).next_version_id == old(store).next_version_id,
            final(store).next_developer_id == old(store).next_developer_id,
            final(store).next_tag_id == old(store).next_tag_id,
            !(old(store).has_mod(id@) && old(store).has_validated_version_of(id@))
                ==> final(store).mods@ == old(store).mods@,
            old(store).has_mod(id@) && old(store).has_validated_version_of(id@) ==> {
                &&& final(store).mods@.len() == old(store).mods@.len()
                &&& forall|k: int|
                    0 <= k < old(store).mods@.len() && k != old(store).mod_idx(id@)
                        ==> #[trigger] final(store).mods@[k] == old(store).mods@[k]
                &&& mod_row_latest_set(
                    old(store).mods@[old(store).mod_idx(id@)],
                    final(store).mods@[old(store).mod_idx(id@)],
                    old(store).versions@[old(store).latest_validated_idx(id@)].version,
                )
            },
    {
        let mi = match store.find_mod(id) {
            Some(i) => i,
            None => {
                return Ok(());
            },
        };
        let vi = match store.find_latest_validated(id) {
            Some(i) => i,
            None => {
                return Ok(());
            },
        };
        proof {
            let c = old(store).mod_idx(id@);
            assert(old(store).has_mod(id@));
            if c != mi {
                assert(old(store).mods@[c].id@ != old(store).mods@[mi as int].id@);
            }
            assert(c == mi);
            assert(exists|i: int| store.is_latest_validated_of(i, id@));
            let v = old(store).latest_validated_idx(id@);
            assert(old(store).is_latest_validated_of(v, id@));
            if v < vi {
                assert(!(old(store).versions@[vi as int].mod_id@ == id@ && old(
                    store,
                ).versions@[vi as int].validated));
            } else if vi < v {
                assert(!(old(store).versions@[v].mod_id@ == id@
                    && old(store).versions@[v].validated));
            }
            assert(v == vi);
        }
        let latest = store.versions[vi].version.clone();
        let rowm = store.mods.remove(mi);
        let newm = ModRow {
            id: rowm.id,
            repository: rowm.repository,
            latest_version: latest,
            featured: rowm.featured,
            download_count: rowm.download_count,
            last_download_refresh: rowm.last_download_refresh,
            image: rowm.image,
            about: rowm.about,
            changelog: rowm.changelog,
            created_at: rowm.created_at,
            updated_at: rowm.updated_at,
        };
        store.mods.insert(mi, newm);
        proof {
            assert(store.mods@ =~= old(store).mods@.update(mi as int, newm));
            lemma_wf_mod_row_update(*old(store), *store, mi as int);
        }
        Ok(())
    }

    /// Serves the package's display image, available only once the package
    /// has a validated version.
    pub fn get_logo_for_mod(id: &str, store: &Catalog) -> (r: Result<Option<Vec<u8>>, ApiError>)
        requires
            store.wf(),
        ensures
            r matches Ok(o),
            (r matches Ok(Some(v)) && v@ == store.mods@[store.mod_idx(id@)].image@) <==> (
            store.has_mod(id@) && store.has_validated_version_of(id@)),
    {
        let mi = match store.find_mod(id) {
            Some(i) => i,
            None => {
                return Ok(None);
            },
        };
        if store.find_latest_validated(id).is_none() {
            return Ok(None);
        }
        proof {
            let c = store.mod_idx(id@);
            assert(store.has_mod(id@));
            if c < mi as int {
                assert(store.mods@[c].id@ != store.mods@[mi as int].id@);
            } else if (mi as int) < c {
                assert(store.mods@[mi as int].id@ != store.mods@[c].id@);
            }
            assert(c == mi);
        }
        Ok(Some(clone_bytes(&store.mods[mi].image)))
    }
}

impl crate::api::ModVersion {
    /// Toggles a version's validated and unlisted flags where given; the
    /// newest row carrying exactly this version string under the package
    /// is the one addressed.
    pub fn update_version(
        id: &str,
        version: &str,
        validated: Option<bool>,
        unlisted: Option<bool>,
        store: &mut Catalog,
    ) -> (r: Result<(), ApiError>)
        requires
            old(store).wf(),
        ensures
            final(store).wf(),
            final(store).mods@ == old(store).mods@,
            final(store).developers@ == old(store).developers@,
            final(store).dev_links@ == old(store).dev_links@,
            final(store).tags@ == old(store).tags@,
            final(store).tag_links@ == old(store).tag_links@,
            final(store).downloads@ == old(store).downloads@,
            final(store).clock == old(store).clock,
            final(store).next_version_id == old(store).next_version_id,
            final(store).next_developer_id == old(store).next_developer_id,
            final(store).next_tag_id == old(store).next_tag_id,
            r is Err ==> *final(store) == *old(store),
            !old(store).has_version_string(id@, version@) ==> (r matches Err(
                ApiError::NotFound(MissingEntity::Version { mod_id: m, version: v }),
            ) && m@ == id@ && v@ == version@),
            old(store).has_version_string(id@, version@) ==> {
                &&& r is Ok
                &&& final(store).versions@.len() == old(store).versions@.len()
                &&& forall|k: int|
                    0 <= k < old(store).versions@.len() && k != old(store).version_string_idx(
                        id@,
                        version@,
                    ) ==> #[trigger] final(store).versions@[k] == old(store).versions@[k]
                &&& version_row_flags_set(
                    old(store).versions@[old(store).version_string_idx(id@, version@)],
                    final(store).versions@[old(store).version_string_idx(id@, version@)],
                    validated,
                    unlisted,
                )
            },
    {
        let vi = match store.find_version_string(id, version) {
            Some(i) => i,
            None => {
                return Err(
                    ApiError::NotFound(
                        MissingEntity::Version {
                            mod_id: id.to_owned(),
                            version: version.to_owned(),
                        },
                    ),
                );
            },
        };
        proof {
            assert(exists|i: int| store.is_last_string_match(i, id@, version@));
            let c = old(store).version_string_idx(id@, version@);
            assert(old(store).is_last_string_match(c, id@, version@));
            if c < vi {
                assert(!(old(store).versions@[vi as int].mod_id@ == id@ && old(
                    store,
                ).versions@[vi as int].version@ == version@));
            } else if vi < c {
                assert(!(old(store).versions@[c].mod_id@ == id@ && old(store).versions@[c].version@
                    == version@));
            }
            assert(c == vi);
        }
        let rowv = store.versions.remove(vi);
        let new_validated = match validated {
            Some(v) => v,
            None => rowv.validated,
        };
        let new_unlisted = match unlisted {
            Some(u) => u,
            None => rowv.unlisted,
        };
        let newv = VersionRow {
            id: rowv.id,
            mod_id: rowv.mod_id,
            name: rowv.name,
            description: rowv.description,
            version: rowv.version,
            download_link: rowv.download_link,
            hash: rowv.hash,
            geode: rowv.geode,
            early_load: rowv.early_load,
            api: rowv.api,
            validated: new_validated,
            unlisted: new_unlisted,
            download_count: rowv.download_count,
            last_download_refresh: rowv.last_download_refresh,
            gd: rowv.gd,
        };
        store.versions.insert(vi, newv);
        proof {
            assert(store.versions@ =~= old(store).versions@.update(vi as int, newv));
            lemma_wf_version_row_update(*old(store), *store, vi as int);
        }
        Ok(())
    }
}

impl Catalog {
    /// Toggles a version's flags and then unconditionally re-resolves the
    /// package's latest-version pointer, as one atomic step: a version is
    /// never left validated while the pointer is stale. Afterwards the
    /// pointer names the validated version with the greatest internal id,
    /// or is untouched when no validated version exists.
    pub fn set_version_flags(
        &mut self,
        id: &str,
        version: &str,
        validated: Option<bool>,
        unlisted: Option<bool>,
    ) -> (r: Result<(), ApiError>)
        requires
            old(self).wf(),
        ensures
            final(self).wf(),
            final(self).developers@ == old(self).developers@,
            final(self).dev_links@ == old(self).dev_links@,
            final(self).tags@ == old(self).tags@,
            final(self).tag_links@ == old(self).tag_links@,
            final(self).downloads@ == old(self).downloads@,
            final(self).clock == old(self).clock,
            final(self).next_version_id == old(self).next_version_id,
            final(self).next_developer_id == old(self).next_developer_id,
            final(self).next_tag_id == old(self).next_tag_id,
            r is Err ==> *final(self) == *old(self),
            !old(self).has_version_string(id@, version@) ==> (r matches Err(
                ApiError::NotFound(MissingEntity::Version { mod_id: m, version: v }),
            ) && m@ == id@ && v@ == version@),
            old(self).has_version_string(id@, version@) ==> {
                &&& r is Ok
                &&& final(self).versions@.len() == old(self).versions@.len()
                &&& forall|k: int|
                    0 <= k < old(self).versions@.len() && k != old(self).version_string_idx(
                        id@,
                        version@,
                    ) ==> #[trigger] final(self).versions@[k] == old(self).versions@[k]
                &&& version_row_flags_set(
                    old(self).versions@[old(self).version_string_idx(id@, version@)],
                    final(self).versions@[old(self).version_string_idx(id@, version@)],
                    validated,
                    unlisted,
                )
                &&& (!(final(self).has_mod(id@) && final(self).has_validated_version_of(id@))
                    ==> final(self).mods@ == old(self).mods@)
                &&& (final(self).has_mod(id@) && final(self).has_validated_version_of(id@)
                    ==> final(self).mods@.len() == old(self).mods@.len() && (forall|k: int|
                    0 <= k < old(self).mods@.len() && k != final(self).mod_idx(id@)
                        ==> #[trigger] final(self).mods@[k] == old(self).mods@[k])
                    && mod_row_latest_set(
                    old(self).mods@[final(self).mod_idx(id@)],
                    final(self).mods@[final(self).mod_idx(id@)],
                    final(self).versions@[final(self).latest_validated_idx(id@)].version,
                ))
            },
    {
        let flagged = crate::api::ModVersion::update_version(
            id,
            version,
            validated,
            unlisted,
            self,
        );
        if let Err(e) = flagged {
            return Err(e);
        }
        let ghost mid = *self;
        let resolved = Mod::try_update_latest_version(id, self);
        proof {
            assert(resolved is Ok);
            if mid.has_mod(id@) && mid.has_validated_version_of(id@) {
                let a = mid.mod_idx(id@);
                assert(0 <= a < mid.mods@.len() && mid.mods@[a].id@ == id@);
                assert(self.mods@[a].id@ == id@);
                assert(self.has_mod(id@));
                let b = self.mod_idx(id@);
                assert(0 <= b < self.mods@.len() && self.mods@[b].id@ == id@);
                if a < b {
                    assert(mid.mods@[a].id@ != mid.mods@[b].id@);
                } else if b < a {
                    assert(mid.mods@[b].id@ != mid.mods@[a].id@);
                }
                assert(a == b);
                crate::store::lemma_latest_validated_exists(
                    mid,
                    id@,
                    mid.versions@.len() as int,
                );
                let vm = mid.latest_validated_idx(id@);
                assert(mid.is_latest_validated_of(vm, id@));
                assert(self.is_latest_validated_of(vm, id@));
                assert(self.has_validated_version_of(id@));
                let vf = self.latest_validated_idx(id@);
                assert(self.is_latest_validated_of(vf, id@));
                if vm < vf {
                    assert(!(self.versions@[vf].mod_id@ == id@ && self.versions@[vf].validated));
                } else if vf < vm {
                    assert(!(self.versions@[vm].mod_id@ == id@ && self.versions@[vm].validated));
                }
                assert(vm == vf);
            } else {
                if self.has_mod(id@) && self.has_validated_version_of(id@) {
                    let w = choose|w: int|
                        0 <= w < self.versions@.len() && self.versions@[w].mod_id@ == id@
                            && self.versions@[w].validated;
                    assert(mid.versions@[w].mod_id@ == id@ && mid.versions@[w].validated);
                    assert(mid.has_validated_version_of(id@));
                    let u = choose|u: int| 0 <= u < self.mods@.len() && self.mods@[u].id@ == id@;
                    assert(mid.mods@[u].id@ == id@);
                    assert(mid.has_mod(id@));
                }
            }
        }
        Ok(())
    }
}

} // verus!
