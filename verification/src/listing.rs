//! The filter/query engine: an open combination of optional filters is
//! compiled into one structured predicate, and the listing and its count
//! are two projections of that one predicate — they can never drift apart.

use vstd::prelude::*;
use vstd::relations::sorted_by;
use vstd::relations::total_ordering;
use vstd::seq_lib::group_to_multiset_ensures;
use vstd::seq_lib::lemma_sorted_unique;

use crate::api::IndexQueryParams;
use crate::api::IndexSortType;
use crate::api::PaginatedData;
use crate::api::VerPlatform;
use crate::error::ApiError;
use crate::error::BadRequestKind;
use crate::error::MissingEntity;
use crate::store::Catalog;
use crate::store::GdVersionRow;
use crate::store::ModRow;
use crate::store::TagRow;
use crate::store::VersionRow;
use crate::text::has_substring;
use crate::text::list_tokens;
use crate::text::lowered;
use crate::text::str_eq;

verus! {

/// The platform a filter name stands for; `android` is the meta-platform.
pub open spec fn platform_of_name(s: Seq<char>) -> Option<VerPlatform> {
    if s == "win"@ {
        Some(VerPlatform::Win)
    } else if s == "mac"@ {
        Some(VerPlatform::Mac)
    } else if s == "ios"@ {
        Some(VerPlatform::Ios)
    } else if s == "android"@ {
        Some(VerPlatform::Android)
    } else if s == "android32"@ {
        Some(VerPlatform::Android32)
    } else if s == "android64"@ {
        Some(VerPlatform::Android64)
    } else {
        None
    }
}

/// What one platform name contributes: the meta-platform expands to its
/// two concrete targets before any query is built.
pub open spec fn expand_platform(p: VerPlatform) -> Seq<VerPlatform> {
    match p {
        VerPlatform::Android => seq![VerPlatform::Android32, VerPlatform::Android64],
        _ => seq![p],
    }
}

/// The platform list the first `j` tokens stand for; meaningful only when
/// every token is a known platform name.
pub open spec fn platforms_from(tokens: Seq<Seq<char>>, j: int) -> Seq<VerPlatform>
    decreases j,
{
    if j <= 0 {
        Seq::empty()
    } else {
        platforms_from(tokens, j - 1) + (match platform_of_name(tokens[j - 1]) {
            Some(p) => expand_platform(p),
            None => Seq::empty(),
        })
    }
}

/// The tag ids the first `j` tokens resolve to; unknown tags are dropped,
/// never errors.
pub open spec fn tags_from(tags: Seq<TagRow>, tokens: Seq<Seq<char>>, j: int) -> Seq<u64>
    decreases j,
{
    if j <= 0 {
        Seq::empty()
    } else {
        tags_from(tags, tokens, j - 1) + (if exists|t: int|
            0 <= t < tags.len() && #[trigger] tags[t].name@ == tokens[j - 1] {
            seq![
                tags[choose|t: int| 0 <= t < tags.len() && #[trigger] tags[t].name@ == tokens[j - 1]].id,
            ]
        } else {
            Seq::empty()
        })
    }
}

/// Parses a comma-separated platform list; an unrecognized name is
/// rejected, naming the first offender.
pub fn parse_platform_list(s: &str) -> (r: Result<Vec<VerPlatform>, ApiError>)
    ensures
        match r {
            Ok(v) => (forall|k: int|
                0 <= k < list_tokens(s@).len() ==> platform_of_name(
                    #[trigger] list_tokens(s@)[k],
                ) is Some) && v@ == platforms_from(list_tokens(s@), list_tokens(s@).len() as int),
            Err(e) => e matches ApiError::BadRequest(BadRequestKind::InvalidPlatform(name))
                && (exists|k: int|
                #![trigger list_tokens(s@)[k]]
                0 <= k < list_tokens(s@).len() && list_tokens(s@)[k] == name@ && platform_of_name(
                    name@,
                ) is None && forall|j: int|
                    0 <= j < k ==> platform_of_name(#[trigger] list_tokens(s@)[j]) is Some),
        },
{
    let tokens = crate::text::split_trimmed(s);
    let ghost toks = list_tokens(s@);
    let n = tokens.len();
    let mut out: Vec<VerPlatform> = Vec::new();
    let mut i: usize = 0;
    while i < n
        invariant
            i <= n,
            n == toks.len(),
            toks == list_tokens(s@),
            tokens@.map_values(|x: String| x@) == toks,
            forall|j: int| 0 <= j < i ==> platform_of_name(#[trigger] toks[j]) is Some,
            out@ == platforms_from(toks, i as int),
        decreases n - i,
    {
        let t = tokens[i].as_str();
        proof {
            assert(t@ == toks[i as int]);
        }
        if str_eq(t, "win") {
            out.push(VerPlatform::Win);
        } else if str_eq(t, "mac") {
            out.push(VerPlatform::Mac);
        } else if str_eq(t, "ios") {
            out.push(VerPlatform::Ios);
        } else if str_eq(t, "android") {
            out.push(VerPlatform::Android32);
            out.push(VerPlatform::Android64);
        } else if str_eq(t, "android32") {
            out.push(VerPlatform::Android32);
        } else if str_eq(t, "android64") {
            out.push(VerPlatform::Android64);
        } else {
            let name = tokens[i].as_str().to_owned();
            proof {
                assert(platform_of_name(toks[i as int]) is None);
                assert(tokens@.map_values(|x: String| x@)[i as int] == tokens@[i as int]@);
                assert(name@ == list_tokens(s@)[i as int]);
                assert(platform_of_name(name@) is None);
            }
            return Err(ApiError::BadRequest(BadRequestKind::InvalidPlatform(name)));
        }
        proof {
            assert(out@ =~= platforms_from(toks, i as int + 1));
        }
        i = i + 1;
    }
    Ok(out)
}

/// Resolves a comma-separated tag list to internal tag ids; unknown tags
/// are dropped.
pub fn parse_tag_list(store: &Catalog, s: &str) -> (r: Vec<u64>)
    requires
        store.wf(),
    ensures
        r@ == tags_from(store.tags@, list_tokens(s@), list_tokens(s@).len() as int),
{
    let tokens = crate::text::split_trimmed(s);
    let ghost toks = list_tokens(s@);
    let n = tokens.len();
    let mut out: Vec<u64> = Vec::new();
    let mut i: usize = 0;
    while i < n
        invariant
            i <= n,
            n == toks.len(),
            store.wf(),
            tokens@.map_values(|x: String| x@) == toks,
            out@ == tags_from(store.tags@, toks, i as int),
        decreases n - i,
    {
        let t = tokens[i].as_str();
        proof {
            assert(t@ == toks[i as int]);
        }
        let m = store.tags.len();
        let mut k: usize = 0;
        while k < m && !str_eq(store.tags[k].name.as_str(), t)
            invariant
                k <= m,
                m == store.tags@.len(),
                forall|j: int| 0 <= j < k ==> store.tags@[j].name@ != t@,
            decreases m - k,
        {
            k = k + 1;
        }
        if k < m {
            proof {
                assert(store.tags@[k as int].name@ == t@);
                let w = choose|w: int|
                    0 <= w < store.tags@.len() && #[trigger] store.tags@[w].name@
                        == toks[i as int];
                if w < k as int {
                    assert(store.tags@[w].name@ != t@);
                } else if (k as int) < w {
                    assert(store.tags@[k as int].name@ != store.tags@[w].name@);
                }
                assert(w == k);
            }
            out.push(store.tags[k].id);
        } else {
            proof {
                assert(forall|w: int|
                    0 <= w < store.tags@.len() ==> #[trigger] store.tags@[w].name@
                        != toks[i as int]);
            }
        }
        proof {
            assert(out@ =~= tags_from(store.tags@, toks, i as int + 1));
        }
        i = i + 1;
    }
    out
}

/// The order of the listing: greater sort key first, position in the
/// package table as the tie-break, so the ranking is total and unique.
pub open spec fn rank_leq(a: (u64, usize), b: (u64, usize)) -> bool {
    a.0 > b.0 || (a.0 == b.0 && a.1 <= b.1)
}

/// The ranking order as a first-class relation.
pub open spec fn rank_order() -> spec_fn((u64, usize), (u64, usize)) -> bool {
    |a: (u64, usize), b: (u64, usize)| rank_leq(a, b)
}

/// The ranking order is total.
pub proof fn lemma_rank_order_total()
    ensures
        total_ordering(rank_order()),
{
    let leq = rank_order();
    assert forall|a: (u64, usize), b: (u64, usize)| #[trigger] leq(a, b) && #[trigger] leq(b, a)
        implies a == b by {}
    assert forall|a: (u64, usize), b: (u64, usize), c: (u64, usize)|
        #[trigger] leq(a, b) && #[trigger] leq(b, c) implies leq(a, c) by {}
    assert forall|a: (u64, usize), b: (u64, usize)| #[trigger] leq(a, b) || #[trigger] leq(
        b,
        a,
    ) by {}
}

/// Sorts key/position pairs into the canonical ranking order.
fn sort_ranked(v: Vec<(u64, usize)>) -> (r: Vec<(u64, usize)>)
    ensures
        r@ == v@.sort_by(rank_order()),
{
    broadcast use group_to_multiset_ensures;

    let ghost orig = v@;
    let mut rest = v;
    let mut out: Vec<(u64, usize)> = Vec::new();
    proof {
        lemma_rank_order_total();
        assert(out@.to_multiset().add(rest@.to_multiset()) =~= orig.to_multiset());
    }
    while rest.len() > 0
        invariant
            sorted_by(out@, rank_order()),
            out@.to_multiset().add(rest@.to_multiset()) =~= orig.to_multiset(),
            forall|a: int, b: int|
                0 <= a < out@.len() && 0 <= b < rest@.len() ==> rank_leq(out@[a], rest@[b]),
        decreases rest.len(),
    {
        let m = rest.len();
        let mut best: usize = 0;
        let mut k: usize = 1;
        while k < m
            invariant
                best < k <= m,
                m == rest@.len(),
                forall|j: int| 0 <= j < k ==> rank_leq(rest@[best as int], #[trigger] rest@[j]),
            decreases m - k,
        {
            if !(rest[best].0 > rest[k].0 || (rest[best].0 == rest[k].0 && rest[best].1 <= rest[k].1))
             {
                best = k;
            }
            k = k + 1;
        }
        let ghost old_out = out@;
        let ghost old_rest = rest@;
        let picked = rest.remove(best);
        out.push(picked);
        proof {
            assert(old_rest[best as int] == picked);
            assert(rest@ == old_rest.remove(best as int));
            vstd::seq_lib::to_multiset_remove(old_rest, best as int);
            assert(old_rest.to_multiset().remove(picked) =~= rest@.to_multiset());
            vstd::seq_lib::to_multiset_build(old_out, picked);
            assert(out@.to_multiset() =~= old_out.to_multiset().insert(picked));
            vstd::seq_lib::to_multiset_contains(old_rest, picked);
            assert(old_rest.to_multiset().contains(picked));
            assert(out@.to_multiset().add(rest@.to_multiset()) =~= orig.to_multiset());
            assert forall|a: int, b: int|
                0 <= a < out@.len() && 0 <= b < rest@.len() implies rank_leq(
                out@[a],
                rest@[b],
            ) by {
                let b0 = if b < best as int {
                    b
                } else {
                    b + 1
                };
                assert(rest@[b] == old_rest[b0]);
                if a < old_out.len() {
                    assert(rank_leq(old_out[a], old_rest[b0]));
                } else {
                    assert(out@[a] == picked);
                    assert(rank_leq(picked, old_rest[b0]));
                }
            }
            assert forall|a: int, b: int| 0 <= a < b < out@.len() implies rank_leq(
                out@[a],
                out@[b],
            ) by {
                if b == out@.len() - 1 {
                    assert(out@[b] == picked);
                    assert(out@[a] == old_out[a]);
                    assert(rank_leq(old_out[a], old_rest[best as int]));
                } else {
                    assert(sorted_by(old_out, rank_order()));
                    assert(out@[a] == old_out[a] && out@[b] == old_out[b]);
                    assert(rank_order()(old_out[a], old_out[b]));
                }
            }
            assert(sorted_by(out@, rank_order()));
        }
    }
    proof {
        assert(rest@.to_multiset() =~= Seq::<(u64, usize)>::empty().to_multiset());
        assert(out@.to_multiset() =~= orig.to_multiset());
        orig.lemma_sort_by_ensures(rank_order());
        lemma_sorted_unique(out@, orig.sort_by(rank_order()), rank_order());
        assert(out@ == orig.sort_by(rank_order()));
    }
    out
}

/// The open combination of optional filters, resolved to one structured
/// predicate. Both the listing and the count are projections of it.
pub struct ListingFilter {
    pub tags: Seq<u64>,
    pub featured: Option<bool>,
    pub developer: Option<u64>,
    pub gd: Option<Seq<char>>,
    pub platforms: Seq<VerPlatform>,
    pub needle: Option<Seq<char>>,
}

/// One platform/runtime-support row satisfies the version-level filters.
pub open spec fn gd_row_ok(r: GdVersionRow, f: ListingFilter) -> bool {
    &&& (match f.gd {
        Some(g) => r.gd@ == g,
        None => true,
    })
    &&& (f.platforms.len() == 0 || f.platforms.contains(r.platform))
}

/// The version is validated and supports the requested platform and
/// runtime version on one of its rows.
pub open spec fn version_eligible(v: VersionRow, f: ListingFilter) -> bool {
    v.validated && exists|k: int| 0 <= k < v.gd@.len() && gd_row_ok(#[trigger] v.gd@[k], f)
}

/// The version is eligible and its display name matches the folded text
/// search, where one was given.
pub open spec fn version_listed(v: VersionRow, f: ListingFilter) -> bool {
    version_eligible(v, f) && match f.needle {
        Some(nd) => has_substring(lowered(v.name@), nd),
        None => true,
    }
}

/// The package at position `i` matches every filter: tag membership,
/// featured flag and developer at the package level, and at least one
/// listed version.
pub open spec fn mod_matches(c: Catalog, f: ListingFilter, i: int) -> bool {
    &&& (f.tags.len() == 0 || exists|t: int|
        0 <= t < c.tag_links@.len() && (#[trigger] c.tag_links@[t]).mod_id@ == c.mods@[i].id@
            && f.tags.contains(c.tag_links@[t].tag_id))
    &&& (match f.featured {
        Some(b) => c.mods@[i].featured == b,
        None => true,
    })
    &&& (match f.developer {
        Some(d) => exists|l: int|
            0 <= l < c.dev_links@.len() && (#[trigger] c.dev_links@[l]).mod_id@ == c.mods@[i].id@
                && c.dev_links@[l].developer_id == d,
        None => true,
    })
    &&& (exists|v: int|
        0 <= v < c.versions@.len() && (#[trigger] c.versions@[v]).mod_id@ == c.mods@[i].id@
            && version_listed(c.versions@[v], f))
}

/// The key a sort mode ranks by, descending.
pub open spec fn sort_key(m: ModRow, sort: IndexSortType) -> u64 {
    match sort {
        IndexSortType::Downloads => m.download_count,
        IndexSortType::RecentlyUpdated => m.updated_at,
        IndexSortType::RecentlyPublished => m.created_at,
    }
}

/// Key/position pairs of the packages among the first `j` that match the
/// filters, in table order.
pub open spec fn match_seq(c: Catalog, f: ListingFilter, sort: IndexSortType, j: int) -> Seq<
    (u64, usize),
>
    decreases j,
{
    if j <= 0 {
        Seq::empty()
    } else {
        let p = match_seq(c, f, sort, j - 1);
        if mod_matches(c, f, j - 1) {
            p.push((sort_key(c.mods@[j - 1], sort), (j - 1) as usize))
        } else {
            p
        }
    }
}

/// The canonical ranking of a filtered listing: every matching package
/// once, ordered by the sort key with table position as the tie-break.
pub open spec fn ranking(c: Catalog, f: ListingFilter, sort: IndexSortType) -> Seq<(u64, usize)> {
    match_seq(c, f, sort, c.mods@.len() as int).sort_by(rank_order())
}

/// An empty support table.
pub open spec fn empty_detail() -> crate::api::DetailedGDVersion {
    (crate::api::DetailedGDVersion {
        win: None,
        android: None,
        mac: None,
        ios: None,
        android32: None,
        android64: None,
    })
}

/// One support row written into the table; a later row for the same
/// platform wins.
pub open spec fn detail_insert(
    d: crate::api::DetailedGDVersion,
    r: GdVersionRow,
) -> crate::api::DetailedGDVersion {
    match r.platform {
        VerPlatform::Win => (crate::api::DetailedGDVersion { win: Some(r.gd), ..d }),
        VerPlatform::Mac => (crate::api::DetailedGDVersion { mac: Some(r.gd), ..d }),
        VerPlatform::Ios => (crate::api::DetailedGDVersion { ios: Some(r.gd), ..d }),
        VerPlatform::Android => (crate::api::DetailedGDVersion { android: Some(r.gd), ..d }),
        VerPlatform::Android32 => (crate::api::DetailedGDVersion { android32: Some(r.gd), ..d }),
        VerPlatform::Android64 => (crate::api::DetailedGDVersion { android64: Some(r.gd), ..d }),
    }
}

/// The support table the first `j` rows build.
pub open spec fn detail_of(rows: Seq<GdVersionRow>, j: int) -> crate::api::DetailedGDVersion
    decreases j,
{
    if j <= 0 {
        empty_detail()
    } else {
        detail_insert(detail_of(rows, j - 1), rows[j - 1])
    }
}

/// The served form of a stored version row.
pub open spec fn mod_version_of_row(v: VersionRow) -> crate::api::ModVersion {
    (crate::api::ModVersion {
        id: v.id,
        name: v.name,
        description: v.description,
        version: v.version,
        download_link: v.download_link,
        download_count: v.download_count,
        hash: v.hash,
        geode: v.geode,
        early_load: v.early_load,
        api: v.api,
        mod_id: v.mod_id,
        gd: detail_of(v.gd@, v.gd@.len() as int),
    })
}

/// The names of the tags on the package, drawn from the first `j` tag
/// edges in edge order.
pub open spec fn mod_tag_names(c: Catalog, id: Seq<char>, j: int) -> Seq<String>
    decreases j,
{
    if j <= 0 {
        Seq::empty()
    } else {
        let p = mod_tag_names(c, id, j - 1);
        if c.tag_links@[j - 1].mod_id@ == id && (exists|t: int|
            0 <= t < c.tags@.len() && #[trigger] c.tags@[t].id == c.tag_links@[j - 1].tag_id) {
            p.push(
                c.tags@[choose|t: int|
                    0 <= t < c.tags@.len() && #[trigger] c.tags@[t].id == c.tag_links@[j
                        - 1].tag_id].name,
            )
        } else {
            p
        }
    }
}

/// The developers on the package, drawn from the first `j` developer
/// edges in edge order.
pub open spec fn mod_developers(c: Catalog, id: Seq<char>, j: int) -> Seq<crate::api::Developer>
    decreases j,
{
    if j <= 0 {
        Seq::empty()
    } else {
        let p = mod_developers(c, id, j - 1);
        if c.dev_links@[j - 1].mod_id@ == id && (exists|t: int|
            0 <= t < c.developers@.len() && #[trigger] c.developers@[t].id == c.dev_links@[j
                - 1].developer_id) {
            let t = choose|t: int|
                0 <= t < c.developers@.len() && #[trigger] c.developers@[t].id == c.dev_links@[j
                    - 1].developer_id;
            p.push(
                (crate::api::Developer {
                    id: c.dev_links@[j - 1].developer_id,
                    username: c.developers@[t].username,
                    verified: c.developers@[t].verified,
                    is_owner: c.dev_links@[j - 1].is_owner,
                }),
            )
        } else {
            p
        }
    }
}

/// Position `v` holds the representative version of the package at `i`:
/// its latest version eligible under the version-level filters.
pub open spec fn is_rep_version(c: Catalog, f: ListingFilter, i: int, v: int) -> bool {
    &&& 0 <= v < c.versions@.len()
    &&& c.versions@[v].mod_id@ == c.mods@[i].id@
    &&& version_eligible(c.versions@[v], f)
    &&& forall|w: int|
        v < w < c.versions@.len() ==> !((#[trigger] c.versions@[w]).mod_id@ == c.mods@[i].id@
            && version_eligible(c.versions@[w], f))
}

/// One row of a listing: the package with its single representative
/// version, developers and tags assembled.
pub open spec fn listed_mod_ok(c: Catalog, f: ListingFilter, m: crate::api::Mod, i: int) -> bool {
    &&& m.id == c.mods@[i].id
    &&& m.repository == c.mods@[i].repository
    &&& m.latest_version == c.mods@[i].latest_version
    &&& m.validated
    &&& m.featured == c.mods@[i].featured
    &&& m.download_count == c.mods@[i].download_count
    &&& m.about is None
    &&& m.changelog is None
    &&& m.tags@ == mod_tag_names(c, c.mods@[i].id@, c.tag_links@.len() as int)
    &&& m.developers@ == mod_developers(c, c.mods@[i].id@, c.dev_links@.len() as int)
    &&& m.versions@.len() == 1
    &&& exists|v: int|
        #[trigger] is_rep_version(c, f, i, v) && m.versions@[0] == mod_version_of_row(
            c.versions@[v],
        )
}

/// Whether one support row passes the version-level filters.
fn gd_row_ok_exec(
    r: &GdVersionRow,
    gd: &Option<String>,
    platforms: &Vec<VerPlatform>,
    Ghost(f): Ghost<ListingFilter>,
) -> (b: bool)
    requires
        f.gd == (match gd {
            Some(g) => Some(g@),
            None => None::<Seq<char>>,
        }),
        f.platforms == platforms@,
    ensures
        b == gd_row_ok(*r, f),
{
    let gd_ok = match gd {
        Some(g) => str_eq(r.gd.as_str(), g.as_str()),
        None => true,
    };
    if !gd_ok {
        return false;
    }
    if platforms.len() == 0 {
        return true;
    }
    let n = platforms.len();
    let mut i: usize = 0;
    let mut hit = false;
    while i < n && !hit
        invariant
            i <= n,
            n == platforms@.len(),
            !hit ==> forall|j: int| 0 <= j < i ==> platforms@[j] != r.platform,
            hit ==> platforms@.contains(r.platform),
        decreases n - i,
    {
        if platforms[i] == r.platform {
            hit = true;
        }
        i = i + 1;
    }
    proof {
        if !hit {
            assert(!platforms@.contains(r.platform));
        }
    }
    hit
}

/// Whether the version passes the version-level filters.
fn version_eligible_exec(
    v: &VersionRow,
    gd: &Option<String>,
    platforms: &Vec<VerPlatform>,
    Ghost(f): Ghost<ListingFilter>,
) -> (b: bool)
    requires
        f.gd == (match gd {
            Some(g) => Some(g@),
            None => None::<Seq<char>>,
        }),
        f.platforms == platforms@,
    ensures
        b == version_eligible(*v, f),
{
    if !v.validated {
        return false;
    }
    let n = v.gd.len();
    let mut i: usize = 0;
    let mut hit = false;
    while i < n && !hit
        invariant
            i <= n,
            n == v.gd@.len(),
            f.gd == (match gd {
                Some(g) => Some(g@),
                None => None::<Seq<char>>,
            }),
            f.platforms == platforms@,
            !hit ==> forall|j: int| 0 <= j < i ==> !gd_row_ok(#[trigger] v.gd@[j], f),
            hit ==> exists|j: int| 0 <= j < n && gd_row_ok(#[trigger] v.gd@[j], f),
        decreases n - i,
    {
        if gd_row_ok_exec(&v.gd[i], gd, platforms, Ghost(f)) {
            hit = true;
        }
        i = i + 1;
    }
    hit
}

/// Whether the version is eligible and matches the folded text search.
fn version_listed_exec(
    v: &VersionRow,
    gd: &Option<String>,
    platforms: &Vec<VerPlatform>,
    needle: &Option<String>,
    Ghost(f): Ghost<ListingFilter>,
) -> (b: bool)
    requires
        f.gd == (match gd {
            Some(g) => Some(g@),
            None => None::<Seq<char>>,
        }),
        f.platforms == platforms@,
        f.needle == (match needle {
            Some(nd) => Some(nd@),
            None => None::<Seq<char>>,
        }),
    ensures
        b == version_listed(*v, f),
{
    if !version_eligible_exec(v, gd, platforms, Ghost(f)) {
        return false;
    }
    match needle {
        Some(nd) => {
            let folded = crate::text::to_lower(v.name.as_str());
            crate::text::contains_text(folded.as_str(), nd.as_str())
        },
        None => true,
    }
}

/// Whether a list of resolved tag ids holds this id.
fn tags_contain(tags: &Vec<u64>, x: u64) -> (b: bool)
    ensures
        b == tags@.contains(x),
{
    let n = tags.len();
    let mut i: usize = 0;
    let mut hit = false;
    while i < n && !hit
        invariant
            i <= n,
            n == tags@.len(),
            !hit ==> forall|j: int| 0 <= j < i ==> tags@[j] != x,
            hit ==> tags@.contains(x),
        decreases n - i,
    {
        if tags[i] == x {
            hit = true;
        }
        i = i + 1;
    }
    proof {
        if !hit {
            assert(!tags@.contains(x));
        }
    }
    hit
}

/// Whether some tag edge links the package to one of the resolved tags.
fn has_tag_match(store: &Catalog, id: &str, tags: &Vec<u64>) -> (b: bool)
    ensures
        b == exists|t: int|
            0 <= t < store.tag_links@.len() && (#[trigger] store.tag_links@[t]).mod_id@ == id@
                && tags@.contains(store.tag_links@[t].tag_id),
{
    let n = store.tag_links.len();
    let mut k: usize = 0;
    let mut hit = false;
    while k < n && !hit
        invariant
            k <= n,
            n == store.tag_links@.len(),
            !hit ==> forall|j: int|
                0 <= j < k ==> !((#[trigger] store.tag_links@[j]).mod_id@ == id@
                    && tags@.contains(store.tag_links@[j].tag_id)),
            hit ==> exists|j: int|
                0 <= j < n && (#[trigger] store.tag_links@[j]).mod_id@ == id@ && tags@.contains(
                    store.tag_links@[j].tag_id,
                ),
        decreases n - k,
    {
        if str_eq(store.tag_links[k].mod_id.as_str(), id) && tags_contain(
            tags,
            store.tag_links[k].tag_id,
        ) {
            hit = true;
        }
        k = k + 1;
    }
    hit
}

/// Whether some edge links the package to this developer.
fn has_dev_match(store: &Catalog, id: &str, d: u64) -> (b: bool)
    ensures
        b == exists|l: int|
            0 <= l < store.dev_links@.len() && (#[trigger] store.dev_links@[l]).mod_id@ == id@
                && store.dev_links@[l].developer_id == d,
{
    let n = store.dev_links.len();
    let mut k: usize = 0;
    let mut hit = false;
    while k < n && !hit
        invariant
            k <= n,
            n == store.dev_links@.len(),
            !hit ==> forall|j: int|
                0 <= j < k ==> !((#[trigger] store.dev_links@[j]).mod_id@ == id@
                    && store.dev_links@[j].developer_id == d),
            hit ==> exists|j: int|
                0 <= j < n && (#[trigger] store.dev_links@[j]).mod_id@ == id@
                    && store.dev_links@[j].developer_id == d,
        decreases n - k,
    {
        if store.dev_links[k].developer_id == d && str_eq(store.dev_links[k].mod_id.as_str(), id) {
            hit = true;
        }
        k = k + 1;
    }
    hit
}

/// Whether the package has a listed version under the filters.
fn has_listed_version(
    store: &Catalog,
    id: &str,
    gd: &Option<String>,
    platforms: &Vec<VerPlatform>,
    needle: &Option<String>,
    Ghost(f): Ghost<ListingFilter>,
) -> (b: bool)
    requires
        f.gd == (match gd {
            Some(g) => Some(g@),
            None => None::<Seq<char>>,
        }),
        f.platforms == platforms@,
        f.needle == (match needle {
            Some(nd) => Some(nd@),
            None => None::<Seq<char>>,
        }),
    ensures
        b == exists|v: int|
            0 <= v < store.versions@.len() && (#[trigger] store.versions@[v]).mod_id@ == id@
                && version_listed(store.versions@[v], f),
{
    let n = store.versions.len();
    let mut k: usize = 0;
    let mut hit = false;
    while k < n && !hit
        invariant
            k <= n,
            n == store.versions@.len(),
            f.gd == (match gd {
                Some(g) => Some(g@),
                None => None::<Seq<char>>,
            }),
            f.platforms == platforms@,
            f.needle == (match needle {
                Some(nd) => Some(nd@),
                None => None::<Seq<char>>,
            }),
            !hit ==> forall|j: int|
                0 <= j < k ==> !((#[trigger] store.versions@[j]).mod_id@ == id@ && version_listed(
                    store.versions@[j],
                    f,
                )),
            hit ==> exists|j: int|
                0 <= j < n && (#[trigger] store.versions@[j]).mod_id@ == id@ && version_listed(
                    store.versions@[j],
                    f,
                ),
        decreases n - k,
    {
        if str_eq(store.versions[k].mod_id.as_str(), id) && version_listed_exec(
            &store.versions[k],
            gd,
            platforms,
            needle,
            Ghost(f),
        ) {
            hit = true;
        }
        k = k + 1;
    }
    hit
}

/// Whether the package at position `i` matches every filter.
fn mod_matches_exec(
    store: &Catalog,
    i: usize,
    tags: &Vec<u64>,
    featured: Option<bool>,
    developer: Option<u64>,
    gd: &Option<String>,
    platforms: &Vec<VerPlatform>,
    needle: &Option<String>,
    Ghost(f): Ghost<ListingFilter>,
) -> (b: bool)
    requires
        i < store.mods@.len(),
        f.tags == tags@,
        f.featured == featured,
        f.developer == developer,
        f.gd == (match gd {
            Some(g) => Some(g@),
            None => None::<Seq<char>>,
        }),
        f.platforms == platforms@,
        f.needle == (match needle {
            Some(nd) => Some(nd@),
            None => None::<Seq<char>>,
        }),
    ensures
        b == mod_matches(*store, f, i as int),
{
    let id = store.mods[i].id.as_str();
    if tags.len() > 0 && !has_tag_match(store, id, tags) {
        return false;
    }
    match featured {
        Some(fb) => {
            if store.mods[i].featured != fb {
                return false;
            }
        },
        None => {},
    }
    match developer {
        Some(d) => {
            if !has_dev_match(store, id, d) {
                return false;
            }
        },
        None => {},
    }
    has_listed_version(store, id, gd, platforms, needle, Ghost(f))
}

/// Builds the support table of one version from its rows.
fn build_detail(rows: &Vec<GdVersionRow>) -> (r: crate::api::DetailedGDVersion)
    ensures
        r == detail_of(rows@, rows@.len() as int),
{
    let mut d = crate::api::DetailedGDVersion {
        win: None,
        android: None,
        mac: None,
        ios: None,
        android32: None,
        android64: None,
    };
    let n = rows.len();
    let mut i: usize = 0;
    while i < n
        invariant
            i <= n,
            n == rows@.len(),
            d == detail_of(rows@, i as int),
        decreases n - i,
    {
        let g = Some(rows[i].gd.clone());
        match rows[i].platform {
            VerPlatform::Win => {
                d.win = g;
            },
            VerPlatform::Mac => {
                d.mac = g;
            },
            VerPlatform::Ios => {
                d.ios = g;
            },
            VerPlatform::Android => {
                d.android = g;
            },
            VerPlatform::Android32 => {
                d.android32 = g;
            },
            VerPlatform::Android64 => {
                d.android64 = g;
            },
        }
        proof {
            assert(d == detail_insert(detail_of(rows@, i as int), rows@[i as int]));
        }
        i = i + 1;
    }
    d
}

/// Builds the served form of one stored version row.
fn build_mod_version(v: &VersionRow) -> (r: crate::api::ModVersion)
    ensures
        r == mod_version_of_row(*v),
{
    crate::api::ModVersion {
        id: v.id,
        name: v.name.clone(),
        description: crate::lifecycle::clone_opt_string(&v.description),
        version: v.version.clone(),
        download_link: v.download_link.clone(),
        download_count: v.download_count,
        hash: v.hash.clone(),
        geode: v.geode.clone(),
        early_load: v.early_load,
        api: v.api,
        mod_id: v.mod_id.clone(),
        gd: build_detail(&v.gd),
    }
}

/// Collects the names of the package's tags, in edge order.
fn collect_tag_names(store: &Catalog, id: &str) -> (r: Vec<String>)
    requires
        store.wf(),
    ensures
        r@ == mod_tag_names(*store, id@, store.tag_links@.len() as int),
{
    let n = store.tag_links.len();
    let mut r: Vec<String> = Vec::new();
    let mut i: usize = 0;
    while i < n
        invariant
            i <= n,
            n == store.tag_links@.len(),
            store.wf(),
            r@ == mod_tag_names(*store, id@, i as int),
        decreases n - i,
    {
        if str_eq(store.tag_links[i].mod_id.as_str(), id) {
            let want = store.tag_links[i].tag_id;
            match store.find_tag_by_id(want) {
                Some(t) => {
                    proof {
                        let c = choose|c: int|
                            0 <= c < store.tags@.len() && #[trigger] store.tags@[c].id == want;
                        if c < t as int {
                            assert(store.tags@[c].id != store.tags@[t as int].id);
                        } else if (t as int) < c {
                            assert(store.tags@[t as int].id != store.tags@[c].id);
                        }
                        assert(c == t);
                    }
                    r.push(store.tags[t].name.clone());
                },
                None => {
                    proof {
                        assert(crate::store::tags_contain_id(
                            store.tags@,
                            store.tag_links@[i as int].tag_id,
                        ));
                        assert(false);
                    }
                },
            }
        }
        proof {
            assert(r@ =~= mod_tag_names(*store, id@, i as int + 1));
        }
        i = i + 1;
    }
    r
}

/// Collects the package's developers, in edge order.
fn collect_developers(store: &Catalog, id: &str) -> (r: Vec<crate::api::Developer>)
    requires
        store.wf(),
    ensures
        r@ == mod_developers(*store, id@, store.dev_links@.len() as int),
{
    let n = store.dev_links.len();
    let mut r: Vec<crate::api::Developer> = Vec::new();
    let mut i: usize = 0;
    while i < n
        invariant
            i <= n,
            n == store.dev_links@.len(),
            store.wf(),
            r@ == mod_developers(*store, id@, i as int),
        decreases n - i,
    {
        if str_eq(store.dev_links[i].mod_id.as_str(), id) {
            let want = store.dev_links[i].developer_id;
            match store.find_developer(want) {
                Some(t) => {
                    proof {
                        let c = choose|c: int|
                            0 <= c < store.developers@.len() && #[trigger] store.developers@[c].id
                                == want;
                        if c < t as int {
                            assert(store.developers@[c].id != store.developers@[t as int].id);
                        } else if (t as int) < c {
                            assert(store.developers@[t as int].id != store.developers@[c].id);
                        }
                        assert(c == t);
                    }
                    r.push(
                        crate::api::Developer {
                            id: want,
                            username: store.developers[t].username.clone(),
                            verified: store.developers[t].verified,
                            is_owner: store.dev_links[i].is_owner,
                        },
                    );
                },
                None => {
                    proof {
                        assert(crate::store::devs_contain_id(
                            store.developers@,
                            store.dev_links@[i as int].developer_id,
                        ));
                        assert(false);
                    }
                },
            }
        }
        proof {
            assert(r@ =~= mod_developers(*store, id@, i as int + 1));
        }
        i = i + 1;
    }
    r
}

/// Finds the representative version of the package at position `i`: the
/// latest version eligible under the version-level filters.
fn find_rep_version(
    store: &Catalog,
    i: usize,
    gd: &Option<String>,
    platforms: &Vec<VerPlatform>,
    Ghost(f): Ghost<ListingFilter>,
) -> (r: Option<usize>)
    requires
        i < store.mods@.len(),
        f.gd == (match gd {
            Some(g) => Some(g@),
            None => None::<Seq<char>>,
        }),
        f.platforms == platforms@,
    ensures
        match r {
            Some(v) => is_rep_version(*store, f, i as int, v as int),
            None => !(exists|v: int|
                0 <= v < store.versions@.len() && (#[trigger] store.versions@[v]).mod_id@
                    == store.mods@[i as int].id@ && version_eligible(store.versions@[v], f)),
        },
{
    let id = store.mods[i].id.as_str();
    let n = store.versions.len();
    let mut k: usize = n;
    while k > 0
        invariant
            k <= n,
            n == store.versions@.len(),
            i < store.mods@.len(),
            id@ == store.mods@[i as int].id@,
            f.gd == (match gd {
                Some(g) => Some(g@),
                None => None::<Seq<char>>,
            }),
            f.platforms == platforms@,
            forall|j: int|
                k <= j < n ==> !((#[trigger] store.versions@[j]).mod_id@
                    == store.mods@[i as int].id@ && version_eligible(store.versions@[j], f)),
        decreases k,
    {
        k = k - 1;
        if str_eq(store.versions[k].mod_id.as_str(), id) && version_eligible_exec(
            &store.versions[k],
            gd,
            platforms,
            Ghost(f),
        ) {
            return Some(k);
        }
    }
    None
}

/// Assembles one listing row for the package at position `i`.
fn build_listed_mod(
    store: &Catalog,
    i: usize,
    gd: &Option<String>,
    platforms: &Vec<VerPlatform>,
    Ghost(f): Ghost<ListingFilter>,
) -> (r: crate::api::Mod)
    requires
        store.wf(),
        i < store.mods@.len(),
        mod_matches(*store, f, i as int),
        f.gd == (match gd {
            Some(g) => Some(g@),
            None => None::<Seq<char>>,
        }),
        f.platforms == platforms@,
    ensures
        listed_mod_ok(*store, f, r, i as int),
{
    let rep = match find_rep_version(store, i, gd, platforms, Ghost(f)) {
        Some(v) => v,
        None => {
            proof {
                let w = choose|v: int|
                    0 <= v < store.versions@.len() && (#[trigger] store.versions@[v]).mod_id@
                        == store.mods@[i as int].id@ && version_listed(store.versions@[v], f);
                assert(version_eligible(store.versions@[w], f));
                assert(false);
            }
            return vstd::pervasive::unreached();
        },
    };
    let mut versions: Vec<crate::api::ModVersion> = Vec::new();
    versions.push(build_mod_version(&store.versions[rep]));
    let id = store.mods[i].id.as_str();
    crate::api::Mod {
        id: store.mods[i].id.clone(),
        repository: crate::lifecycle::clone_opt_string(&store.mods[i].repository),
        latest_version: store.mods[i].latest_version.clone(),
        validated: true,
        featured: store.mods[i].featured,
        download_count: store.mods[i].download_count,
        developers: collect_developers(store, id),
        versions,
        tags: collect_tag_names(store, id),
        about: None,
        changelog: None,
    }
}

/// Every entry of the match sequence points at a matching package and
/// carries its sort key; positions strictly increase.
pub proof fn lemma_match_seq_elems(c: Catalog, f: ListingFilter, sort: IndexSortType, j: int)
    requires
        j <= usize::MAX,
    ensures
        forall|a: int|
            0 <= a < match_seq(c, f, sort, j).len() ==> 0 <= (#[trigger] match_seq(
                c,
                f,
                sort,
                j,
            )[a]).1 < j && mod_matches(c, f, match_seq(c, f, sort, j)[a].1 as int) && match_seq(
                c,
                f,
                sort,
                j,
            )[a].0 == sort_key(c.mods@[match_seq(c, f, sort, j)[a].1 as int], sort),
        forall|a: int, b: int|
            0 <= a < b < match_seq(c, f, sort, j).len() ==> (#[trigger] match_seq(
                c,
                f,
                sort,
                j,
            )[a]).1 < (#[trigger] match_seq(c, f, sort, j)[b]).1,
    decreases j,
{
    if j > 0 {
        lemma_match_seq_elems(c, f, sort, j - 1);
        let p = match_seq(c, f, sort, j - 1);
        let s = match_seq(c, f, sort, j);
        assert forall|a: int| 0 <= a < s.len() implies 0 <= (#[trigger] s[a]).1 < j
            && mod_matches(c, f, s[a].1 as int) && s[a].0 == sort_key(
            c.mods@[s[a].1 as int],
            sort,
        ) by {
            if a < p.len() {
                assert(s[a] == p[a]);
                assert(0 <= p[a].1 < j - 1 && mod_matches(c, f, p[a].1 as int) && p[a].0
                    == sort_key(c.mods@[p[a].1 as int], sort));
            }
        }
        assert forall|a: int, b: int| 0 <= a < b < s.len() implies (#[trigger] s[a]).1
            < (#[trigger] s[b]).1 by {
            if b < p.len() {
                assert(s[a] == p[a] && s[b] == p[b]);
                assert(p[a].1 < p[b].1);
            } else {
                assert(s[a] == p[a]);
                assert(0 <= p[a].1 < j - 1 && mod_matches(c, f, p[a].1 as int) && p[a].0
                    == sort_key(c.mods@[p[a].1 as int], sort));
            }
        }
    }
}

/// The filters of a listing request, resolved against the catalog;
/// meaningful when the request is well formed and the developer, if
/// given, is known.
pub open spec fn resolved_filter(c: Catalog, q: IndexQueryParams) -> ListingFilter {
    (ListingFilter {
        tags: match q.tags {
            Some(s) => tags_from(c.tags@, list_tokens(s@), list_tokens(s@).len() as int),
            None => Seq::empty(),
        },
        featured: q.featured,
        developer: match q.developer {
            Some(u) => Some(
                c.developers@[choose|i: int|
                    0 <= i < c.developers@.len() && c.developers@[i].username@ == u@].id,
            ),
            None => None,
        },
        gd: match q.gd {
            Some(g) => Some(g@),
            None => None,
        },
        platforms: match q.platforms {
            Some(p) => platforms_from(list_tokens(p@), list_tokens(p@).len() as int),
            None => Seq::empty(),
        },
        needle: match q.query {
            Some(s) => Some(lowered(s@)),
            None => None,
        },
    })
}

/// The developer filter, where given, names a known account.
pub open spec fn known_developer(c: Catalog, q: IndexQueryParams) -> bool {
    match q.developer {
        Some(u) => exists|i: int|
            0 <= i < c.developers@.len() && c.developers@[i].username@ == u@,
        None => true,
    }
}

/// The requested page, counted from 1 and defaulting to 1.
pub open spec fn spec_page(q: IndexQueryParams) -> int {
    match q.page {
        Some(p) => p as int,
        None => 1,
    }
}

/// The requested page size, defaulting to 10.
pub open spec fn spec_per_page(q: IndexQueryParams) -> int {
    match q.per_page {
        Some(p) => p as int,
        None => 10,
    }
}

impl crate::api::Mod {
    /// Serves one page of the filtered, ranked listing together with the
    /// total matching count. Listing and count are projections of the one
    /// resolved filter predicate, the page is a contiguous window of the
    /// one canonical ranking, and an unknown developer filter yields an
    /// empty listing with count zero, never an error.
    pub fn get_index(store: &Catalog, query: &IndexQueryParams) -> (r: Result<
        PaginatedData<crate::api::Mod>,
        ApiError,
    >)
        requires
            store.wf(),
        ensures
            match r {
                Err(e) => {
                    ||| (query.page == Some(0u64) && e == ApiError::BadRequest(
                        BadRequestKind::InvalidPage,
                    ))
                    ||| (query.page != Some(0u64) && (match query.platforms {
                        Some(ps) => e matches ApiError::BadRequest(
                            BadRequestKind::InvalidPlatform(name),
                        ) && (exists|k: int|
                            #![trigger list_tokens(ps@)[k]]
                            0 <= k < list_tokens(ps@).len() && list_tokens(ps@)[k] == name@
                                && platform_of_name(name@) is None),
                        None => false,
                    }))
                },
                Ok(pd) => {
                    &&& query.page != Some(0u64)
                    &&& (match query.platforms {
                        Some(ps) => forall|k: int|
                            0 <= k < list_tokens(ps@).len() ==> platform_of_name(
                                #[trigger] list_tokens(ps@)[k],
                            ) is Some,
                        None => true,
                    })
                    &&& (!known_developer(*store, *query) ==> pd.data@.len() == 0 && pd.count
                        == 0)
                    &&& (known_developer(*store, *query) ==> {
                        let f = resolved_filter(*store, *query);
                        let ms = match_seq(*store, f, query.sort, store.mods@.len() as int);
                        let rk = ms.sort_by(rank_order());
                        let per = spec_per_page(*query);
                        let off = (spec_page(*query) - 1) * per;
                        let lo = if off <= rk.len() {
                            off
                        } else {
                            rk.len() as int
                        };
                        let hi = if off + per <= rk.len() {
                            off + per
                        } else {
                            rk.len() as int
                        };
                        &&& pd.count == ms.len()
                        &&& pd.data@.len() == hi - lo
                        &&& forall|k: int|
                            0 <= k < pd.data@.len() ==> listed_mod_ok(
                                *store,
                                f,
                                #[trigger] pd.data@[k],
                                rk[lo + k].1 as int,
                            )
                    })
                },
            },
    {
        let tags: Vec<u64> = match &query.tags {
            Some(t) => parse_tag_list(store, t.as_str()),
            None => Vec::new(),
        };
        let page: u64 = match query.page {
            Some(p) => p,
            None => 1,
        };
        if page == 0 {
            return Err(ApiError::BadRequest(BadRequestKind::InvalidPage));
        }
        let per_page: u64 = match query.per_page {
            Some(p) => p,
            None => 10,
        };
        let platforms: Vec<VerPlatform> = match &query.platforms {
            Some(p) => match parse_platform_list(p.as_str()) {
                Ok(v) => v,
                Err(e) => {
                    return Err(e);
                },
            },
            None => Vec::new(),
        };
        let developer: Option<u64> = match &query.developer {
            Some(u) => match store.find_developer_by_username(u.as_str()) {
                Some(i) => {
                    proof {
                        let c = choose|c: int|
                            0 <= c < store.developers@.len() && store.developers@[c].username@
                                == u@;
                        if c < i as int {
                            assert(store.developers@[c].username@
                                != store.developers@[i as int].username@);
                        } else if (i as int) < c {
                            assert(store.developers@[i as int].username@
                                != store.developers@[c].username@);
                        }
                        assert(c == i);
                    }
                    Some(store.developers[i].id)
                },
                None => {
                    return Ok(PaginatedData { data: Vec::new(), count: 0 });
                },
            },
            None => None,
        };
        let needle: Option<String> = match &query.query {
            Some(q) => Some(crate::text::to_lower(q.as_str())),
            None => None,
        };
        let ghost f = resolved_filter(*store, *query);
        proof {
            assert(f.tags == tags@);
            assert(f.developer == developer);
            assert(f.platforms == platforms@);
        }
        let n = store.mods.len();
        let mut pairs: Vec<(u64, usize)> = Vec::new();
        let mut i: usize = 0;
        while i < n
            invariant
                i <= n,
                n == store.mods@.len(),
                store.wf(),
                f == resolved_filter(*store, *query),
                f.tags == tags@,
                f.featured == query.featured,
                f.developer == developer,
                f.gd == (match &query.gd {
                    Some(g) => Some(g@),
                    None => None::<Seq<char>>,
                }),
                f.platforms == platforms@,
                f.needle == (match &needle {
                    Some(nd) => Some(nd@),
                    None => None::<Seq<char>>,
                }),
                pairs@ == match_seq(*store, f, query.sort, i as int),
            decreases n - i,
        {
            if mod_matches_exec(
                store,
                i,
                &tags,
                query.featured,
                developer,
                &query.gd,
                &platforms,
                &needle,
                Ghost(f),
            ) {
                let key: u64 = match query.sort {
                    IndexSortType::Downloads => store.mods[i].download_count,
                    IndexSortType::RecentlyUpdated => store.mods[i].updated_at,
                    IndexSortType::RecentlyPublished => store.mods[i].created_at,
                };
                pairs.push((key, i));
            }
            proof {
                assert(pairs@ =~= match_seq(*store, f, query.sort, i as int + 1));
            }
            i = i + 1;
        }
        let ghost ms = match_seq(*store, f, query.sort, store.mods@.len() as int);
        let sorted = sort_ranked(pairs);
        let ghost rk = ms.sort_by(rank_order());
        proof {
            broadcast use group_to_multiset_ensures;

            ms.lemma_sort_by_ensures(rank_order());
            assert(rk.to_multiset() =~= ms.to_multiset());
            vstd::seq_lib::to_multiset_len(rk);
            vstd::seq_lib::to_multiset_len(ms);
            assert(rk.len() == ms.len());
            lemma_match_seq_elems(*store, f, query.sort, store.mods@.len() as int);
            assert forall|a: int| 0 <= a < rk.len() implies 0 <= (#[trigger] rk[a]).1
                < store.mods@.len() && mod_matches(*store, f, rk[a].1 as int) by {
                let e = rk[a];
                assert(rk.contains(e));
                assert(ms.to_multiset().contains(e));
                assert(ms.contains(e));
                let b = choose|b: int| 0 <= b < ms.len() && ms[b] == e;
                assert(0 <= (ms[b]).1 < store.mods@.len() && mod_matches(
                    *store,
                    f,
                    ms[b].1 as int,
                ));
            }
        }
        let count: u64 = sorted.len() as u64;
        let nlen = sorted.len();
        let ghost per = spec_per_page(*query);
        let ghost off = (spec_page(*query) - 1) * per;
        let ghost lo = if off <= rk.len() {
            off
        } else {
            rk.len() as int
        };
        let ghost hi = if off + per <= rk.len() {
            off + per
        } else {
            rk.len() as int
        };
        proof {
            if per > 0 {
                vstd::arithmetic::mul::lemma_mul_nonnegative(spec_page(*query) - 1, per);
            } else {
                assert(off == 0) by {
                    vstd::arithmetic::mul::lemma_mul_by_zero_is_zero(spec_page(*query) - 1);
                }
            }
            assert(lo <= hi);
        }
        let mut data: Vec<crate::api::Mod> = Vec::new();
        let mut k: usize = 0;
        while k < nlen
            invariant
                k <= nlen,
                nlen == rk.len(),
                store.wf(),
                sorted@ == rk,
                page as int == spec_page(*query),
                page >= 1,
                per == per_page as int,
                off == (spec_page(*query) - 1) * per,
                lo == (if off <= rk.len() {
                    off
                } else {
                    rk.len() as int
                }),
                hi == (if off + per <= rk.len() {
                    off + per
                } else {
                    rk.len() as int
                }),
                0 <= lo <= hi <= rk.len(),
                f.gd == (match &query.gd {
                    Some(g) => Some(g@),
                    None => None::<Seq<char>>,
                }),
                f.platforms == platforms@,
                forall|a: int|
                    0 <= a < rk.len() ==> 0 <= (#[trigger] rk[a]).1 < store.mods@.len()
                        && mod_matches(*store, f, rk[a].1 as int),
                data@.len() == (if k <= lo {
                    0int
                } else if k as int <= hi {
                    k - lo
                } else {
                    hi - lo
                }),
                forall|j: int|
                    0 <= j < data@.len() ==> listed_mod_ok(
                        *store,
                        f,
                        #[trigger] data@[j],
                        rk[lo + j].1 as int,
                    ),
            decreases nlen - k,
        {
            let in_window = per_page > 0 && (k as u64) / per_page == page - 1;
            proof {
                if per_page > 0 {
                    let ki = k as int;
                    vstd::arithmetic::div_mod::lemma_fundamental_div_mod(ki, per);
                    vstd::arithmetic::div_mod::lemma_mod_division_less_than_divisor(ki, per);
                    if (k as u64) / per_page == (page - 1) as u64 {
                        assert((k as u64) / per_page == ki / per);
                        assert(ki == per * (ki / per) + ki % per);
                        assert(off <= ki < off + per) by {
                            vstd::arithmetic::mul::lemma_mul_is_commutative(
                                spec_page(*query) - 1,
                                per,
                            );
                        }
                    } else {
                        if off <= ki < off + per {
                            vstd::arithmetic::div_mod::lemma_fundamental_div_mod_converse(
                                ki,
                                per,
                                spec_page(*query) - 1,
                                ki - off,
                            );
                            assert(false);
                        }
                    }
                } else {
                    assert(hi == lo);
                }
                assert(in_window <==> (lo <= k < hi));
            }
            if in_window {
                proof {
                    assert(data@.len() == k - lo);
                    assert(0 <= (rk[k as int]).1 < store.mods@.len());
                    assert(mod_matches(*store, f, rk[k as int].1 as int));
                }
                let e = sorted[k];
                let built = build_listed_mod(store, e.1, &query.gd, &platforms, Ghost(f));
                data.push(built);
                proof {
                    assert(rk[lo + (k - lo)] == rk[k as int]);
                }
            }
            k = k + 1;
        }
        proof {
            assert(data@.len() == hi - lo);
            assert(count == ms.len());
        }
        Ok(PaginatedData { data, count })
    }
}

/// One `per`-sized page of a ranking, pages counted from 0.
pub open spec fn page_of(rk: Seq<(u64, usize)>, per: int, p: int) -> Seq<(u64, usize)> {
    let len = rk.len() as int;
    let lo = if p * per <= len {
        p * per
    } else {
        len
    };
    let hi = if p * per + per <= len {
        p * per + per
    } else {
        len
    };
    if 0 <= lo <= hi <= len {
        rk.subrange(lo, hi)
    } else {
        Seq::empty()
    }
}

/// The first `k` pages of a ranking, walked in order.
pub open spec fn pages_concat(rk: Seq<(u64, usize)>, per: int, k: int) -> Seq<(u64, usize)>
    decreases k,
{
    if k <= 0 {
        Seq::empty()
    } else {
        pages_concat(rk, per, k - 1) + page_of(rk, per, k - 1)
    }
}

/// The first `k` pages are exactly the ranking's first `k * per` entries.
proof fn lemma_pages_prefix(rk: Seq<(u64, usize)>, per: int, k: int)
    requires
        per >= 1,
        k >= 0,
    ensures
        pages_concat(rk, per, k) == rk.take(
            if k * per <= rk.len() {
                k * per
            } else {
                rk.len() as int
            },
        ),
    decreases k,
{
    if k > 0 {
        lemma_pages_prefix(rk, per, k - 1);
        assert(k * per == (k - 1) * per + per) by (nonlinear_arith);
        assert((k - 1) * per >= 0) by (nonlinear_arith)
            requires
                k >= 1 && per >= 1,
        ;
        assert(pages_concat(rk, per, k) =~= rk.take(
            if k * per <= rk.len() {
                k * per
            } else {
                rk.len() as int
            },
        ));
    } else {
        assert(pages_concat(rk, per, 0) =~= rk.take(0));
    }
}

/// Paging through one filtered listing is consistent with its count:
/// walking the `per`-sized pages in order yields every matching package
/// exactly once — as many as the count, no duplicates, no omissions.
pub proof fn lemma_pages_cover_ranking(
    c: Catalog,
    f: ListingFilter,
    sort: IndexSortType,
    per: int,
    k: int,
)
    requires
        per >= 1,
        k >= 0,
        k * per >= ranking(c, f, sort).len(),
        c.mods@.len() <= usize::MAX,
    ensures
        pages_concat(ranking(c, f, sort), per, k) == ranking(c, f, sort),
        ranking(c, f, sort).len() == match_seq(c, f, sort, c.mods@.len() as int).len(),
        forall|a: int, b: int|
            0 <= a < b < ranking(c, f, sort).len() ==> (#[trigger] ranking(c, f, sort)[a]).1
                != (#[trigger] ranking(c, f, sort)[b]).1,
{
    broadcast use group_to_multiset_ensures;

    let ms = match_seq(c, f, sort, c.mods@.len() as int);
    let rk = ranking(c, f, sort);
    lemma_pages_prefix(rk, per, k);
    assert(rk.take(rk.len() as int) =~= rk);
    ms.lemma_sort_by_ensures(rank_order());
    vstd::seq_lib::to_multiset_len(rk);
    vstd::seq_lib::to_multiset_len(ms);
    lemma_match_seq_elems(c, f, sort, c.mods@.len() as int);
    assert forall|i: int, j: int| 0 <= i < ms.len() && 0 <= j < ms.len() && i != j implies ms[i]
        != ms[j] by {
        if i < j {
            assert(ms[i].1 < ms[j].1);
        } else {
            assert(ms[j].1 < ms[i].1);
        }
    }
    assert(ms.no_duplicates());
    ms.lemma_multiset_has_no_duplicates();
    rk.lemma_multiset_has_no_duplicates_conv();
    assert forall|a: int, b: int| 0 <= a < b < rk.len() implies (#[trigger] rk[a]).1
        != (#[trigger] rk[b]).1 by {
        let e1 = rk[a];
        let e2 = rk[b];
        assert(e1 != e2);
        if e1.1 == e2.1 {
            assert(rk.contains(e1));
            assert(rk.contains(e2));
            assert(ms.to_multiset().contains(e1));
            assert(ms.to_multiset().contains(e2));
            assert(ms.contains(e1));
            assert(ms.contains(e2));
            let i1 = choose|i: int| 0 <= i < ms.len() && ms[i] == e1;
            let i2 = choose|i: int| 0 <= i < ms.len() && ms[i] == e2;
            if i1 < i2 {
                assert(ms[i1].1 < ms[i2].1);
            } else if i2 < i1 {
                assert(ms[i2].1 < ms[i1].1);
            }
            assert(false);
        }
    }
}

/// The served forms of the package's validated versions, in submission
/// order, drawn from the first `j` version rows.
pub open spec fn validated_versions_of(c: Catalog, id: Seq<char>, j: int) -> Seq<
    crate::api::ModVersion,
>
    decreases j,
{
    if j <= 0 {
        Seq::empty()
    } else {
        let p = validated_versions_of(c, id, j - 1);
        if c.versions@[j - 1].mod_id@ == id && c.versions@[j - 1].validated {
            p.push(mod_version_of_row(c.versions@[j - 1]))
        } else {
            p
        }
    }
}

impl crate::api::Mod {
    /// Serves one package with all its validated versions, developers and
    /// tags assembled; a package without a validated version is absent.
    pub fn get_one(id: &str, store: &Catalog) -> (r: Result<Option<crate::api::Mod>, ApiError>)
        requires
            store.wf(),
        ensures
            match r {
                Ok(None) => !(store.has_mod(id@) && store.has_validated_version_of(id@)),
                Ok(Some(m)) => store.has_mod(id@) && store.has_validated_version_of(id@) && {
                    let i = store.mod_idx(id@);
                    &&& m.id == store.mods@[i].id
                    &&& m.repository == store.mods@[i].repository
                    &&& m.latest_version == store.mods@[i].latest_version
                    &&& m.validated
                    &&& m.featured == store.mods@[i].featured
                    &&& m.download_count == store.mods@[i].download_count
                    &&& m.about == store.mods@[i].about
                    &&& m.changelog == store.mods@[i].changelog
                    &&& m.versions@ == validated_versions_of(
                        *store,
                        id@,
                        store.versions@.len() as int,
                    )
                    &&& m.tags@ == mod_tag_names(*store, id@, store.tag_links@.len() as int)
                    &&& m.developers@ == mod_developers(*store, id@, store.dev_links@.len() as int)
                },
                Err(_) => false,
            },
    {
        let mi = match store.find_mod(id) {
            Some(i) => i,
            None => {
                return Ok(None);
            },
        };
        if store.find_latest_validated(id).is_none() {
            return Ok(None);
        }
        proof {
            let c = store.mod_idx(id@);
            assert(store.has_mod(id@));
            if c < mi as int {
                assert(store.mods@[c].id@ != store.mods@[mi as int].id@);
            } else if (mi as int) < c {
                assert(store.mods@[mi as int].id@ != store.mods@[c].id@);
            }
            assert(c == mi);
        }
        let n = store.versions.len();
        let mut versions: Vec<crate::api::ModVersion> = Vec::new();
        let mut k: usize = 0;
        while k < n
            invariant
                k <= n,
                n == store.versions@.len(),
                store.wf(),
                versions@ == validated_versions_of(*store, id@, k as int),
            decreases n - k,
        {
            if store.versions[k].validated && str_eq(store.versions[k].mod_id.as_str(), id) {
                versions.push(build_mod_version(&store.versions[k]));
            }
            proof {
                assert(versions@ =~= validated_versions_of(*store, id@, k as int + 1));
            }
            k = k + 1;
        }
        Ok(
            Some(
                crate::api::Mod {
                    id: store.mods[mi].id.clone(),
                    repository: crate::lifecycle::clone_opt_string(&store.mods[mi].repository),
                    latest_version: store.mods[mi].latest_version.clone(),
                    validated: true,
                    featured: store.mods[mi].featured,
                    download_count: store.mods[mi].download_count,
                    developers: collect_developers(store, id),
                    versions,
                    tags: collect_tag_names(store, id),
                    about: crate::lifecycle::clone_opt_string(&store.mods[mi].about),
                    changelog: crate::lifecycle::clone_opt_string(&store.mods[mi].changelog),
                },
            ),
        )
    }
}

impl crate::api::ModVersion {
    /// Serves one version of one package, addressed by its version string.
    pub fn get_one(id: &str, version: &str, store: &Catalog) -> (r: Result<
        crate::api::ModVersion,
        ApiError,
    >)
        requires
            store.wf(),
        ensures
            match r {
                Ok(mv) => store.has_version_string(id@, version@) && mv == mod_version_of_row(
                    store.versions@[store.version_string_idx(id@, version@)],
                ),
                Err(e) => !store.has_version_string(id@, version@) && (e matches ApiError::NotFound(
                    MissingEntity::Version { mod_id: m, version: v },
                ) && m@ == id@ && v@ == version@),
            },
    {
        let vi = match store.find_version_string(id, version) {
            Some(i) => i,
            None => {
                return Err(
                    ApiError::NotFound(
                        MissingEntity::Version {
                            mod_id: id.to_owned(),
                            version: version.to_owned(),
                        },
                    ),
                );
            },
        };
        proof {
            assert(exists|i: int| store.is_last_string_match(i, id@, version@));
            let c = store.version_string_idx(id@, version@);
            assert(store.is_last_string_match(c, id@, version@));
            if c < vi {
                assert(!(store.versions@[vi as int].mod_id@ == id@
                    && store.versions@[vi as int].version@ == version@));
            } else if vi < c {
                assert(!(store.versions@[c].mod_id@ == id@ && store.versions@[c].version@
                    == version@));
            }
            assert(c == vi);
        }
        Ok(build_mod_version(&store.versions[vi]))
    }

    /// Serves the package's latest validated version: greatest internal
    /// id, the same signal the latest-version resolver trusts.
    pub fn get_latest_for_mod(id: &str, store: &Catalog) -> (r: Result<
        crate::api::ModVersion,
        ApiError,
    >)
        requires
            store.wf(),
        ensures
            match r {
                Ok(mv) => store.has_validated_version_of(id@) && mv == mod_version_of_row(
                    store.versions@[store.latest_validated_idx(id@)],
                ),
                Err(e) => !store.has_validated_version_of(id@) && (e matches ApiError::NotFound(
                    MissingEntity::Mod(m),
                ) && m@ == id@),
            },
    {
        let vi = match store.find_latest_validated(id) {
            Some(i) => i,
            None => {
                return Err(ApiError::NotFound(MissingEntity::Mod(id.to_owned())));
            },
        };
        proof {
            assert(exists|i: int| store.is_latest_validated_of(i, id@));
            let c = store.latest_validated_idx(id@);
            assert(store.is_latest_validated_of(c, id@));
            if c < vi {
                assert(!(store.versions@[vi as int].mod_id@ == id@
                    && store.versions@[vi as int].validated));
            } else if vi < c {
                assert(!(store.versions@[c].mod_id@ == id@ && store.versions@[c].validated));
            }
            assert(c == vi);
        }
        Ok(build_mod_version(&store.versions[vi]))
    }

    /// Serves the artifact location of one version.
    pub fn get_download_url(id: &str, version: &str, store: &Catalog) -> (r: Result<
        String,
        ApiError,
    >)
        requires
            store.wf(),
        ensures
            match r {
                Ok(u) => store.has_version_string(id@, version@) && u@
                    == store.versions@[store.version_string_idx(id@, version@)].download_link@,
                Err(e) => !store.has_version_string(id@, version@) && (e matches ApiError::NotFound(
                    MissingEntity::Version { mod_id: m, version: v },
                ) && m@ == id@ && v@ == version@),
            },
    {
        let vi = match store.find_version_string(id, version) {
            Some(i) => i,
            None => {
                return Err(
                    ApiError::NotFound(
                        MissingEntity::Version {
                            mod_id: id.to_owned(),
                            version: version.to_owned(),
                        },
                    ),
                );
            },
        };
        proof {
            assert(exists|i: int| store.is_last_string_match(i, id@, version@));
            let c = store.version_string_idx(id@, version@);
            assert(store.is_last_string_match(c, id@, version@));
            if c < vi {
                assert(!(store.versions@[vi as int].mod_id@ == id@
                    && store.versions@[vi as int].version@ == version@));
            } else if vi < c {
                assert(!(store.versions@[c].mod_id@ == id@ && store.versions@[c].version@
                    == version@));
            }
            assert(c == vi);
        }
        Ok(store.versions[vi].download_link.clone())
    }
}

} // verus!
