use mod_index::api::{
    DetailedGDVersion, FetchedDeveloper, IndexQueryParams, IndexSortType, Mod, ModJson,
};
use mod_index::error::{ApiError, BadRequestKind};
use mod_index::store::Catalog;

fn gd(win: Option<&str>, android: Option<&str>) -> DetailedGDVersion {
    DetailedGDVersion {
        win: win.map(|s| s.to_string()),
        android: android.map(|s| s.to_string()),
        mac: None,
        ios: None,
        android32: None,
        android64: None,
    }
}

fn manifest(id: &str, name: &str, gd: DetailedGDVersion) -> ModJson {
    ModJson {
        id: id.to_string(),
        version: "1.0.0".to_string(),
        name: name.to_string(),
        description: None,
        geode: "2.0.0".to_string(),
        download_url: "https://example.invalid/mod.geode".to_string(),
        hash: "abc123".to_string(),
        early_load: false,
        api: false,
        repository: None,
        about: None,
        changelog: None,
        logo: vec![],
        gd,
    }
}

fn dev(store: &mut Catalog, name: &str, verified: bool) -> FetchedDeveloper {
    let id = store.add_developer(name.to_string(), verified, false).unwrap();
    FetchedDeveloper { id, username: name.to_string(), verified, admin: false }
}

fn query() -> IndexQueryParams {
    IndexQueryParams {
        page: None,
        per_page: None,
        tags: None,
        platforms: None,
        query: None,
        gd: None,
        developer: None,
        sort: IndexSortType::Downloads,
        featured: None,
    }
}

fn ids(page: &mod_index::api::PaginatedData<Mod>) -> Vec<String> {
    page.data.iter().map(|m| m.id.clone()).collect()
}

fn seed(store: &mut Catalog) {
    let alice = dev(store, "alice", true);
    let bob = dev(store, "bob", true);
    Mod::from_json(&manifest("alpha", "Alpha Tool", gd(Some("2.206"), None)), &alice, store)
        .unwrap();
    Mod::from_json(&manifest("beta", "Beta Gadget", gd(None, Some("2.206"))), &alice, store)
        .unwrap();
    Mod::from_json(&manifest("gamma", "Gamma Tool", gd(Some("2.200"), None)), &bob, store)
        .unwrap();
    // give beta two downloads and gamma one, so the downloads order is
    // beta, gamma, alpha
    store.record_download("beta", "1.0.0", 1).unwrap();
    store.record_download("beta", "1.0.0", 2).unwrap();
    store.record_download("gamma", "1.0.0", 3).unwrap();
}

#[test]
fn listing_ranks_by_downloads() {
    let mut store = Catalog::new();
    seed(&mut store);
    let page = Mod::get_index(&store, &query()).unwrap();
    assert_eq!(page.count, 3);
    assert_eq!(ids(&page), vec!["beta", "gamma", "alpha"]);
    assert_eq!(page.data[0].download_count, 2);
    assert_eq!(page.data[0].versions.len(), 1);
    assert_eq!(page.data[0].versions[0].version, "1.0.0");
}

#[test]
fn pages_sum_to_count_without_overlap() {
    let mut store = Catalog::new();
    seed(&mut store);
    let mut q = query();
    q.per_page = Some(2);
    q.page = Some(1);
    let first = Mod::get_index(&store, &q).unwrap();
    q.page = Some(2);
    let second = Mod::get_index(&store, &q).unwrap();
    q.page = Some(3);
    let third = Mod::get_index(&store, &q).unwrap();
    assert_eq!(first.count, 3);
    assert_eq!(second.count, 3);
    assert_eq!(ids(&first), vec!["beta", "gamma"]);
    assert_eq!(ids(&second), vec!["alpha"]);
    assert_eq!(ids(&third), Vec::<String>::new());
}

#[test]
fn page_zero_is_rejected() {
    let mut store = Catalog::new();
    seed(&mut store);
    let mut q = query();
    q.page = Some(0);
    let err = Mod::get_index(&store, &q).unwrap_err();
    assert_eq!(err, ApiError::BadRequest(BadRequestKind::InvalidPage));
}

#[test]
fn unknown_developer_yields_empty_listing() {
    let mut store = Catalog::new();
    seed(&mut store);
    let mut q = query();
    q.developer = Some("ghost".to_string());
    let page = Mod::get_index(&store, &q).unwrap();
    assert_eq!(page.count, 0);
    assert_eq!(page.data.len(), 0);
}

#[test]
fn developer_filter_narrows() {
    let mut store = Catalog::new();
    seed(&mut store);
    let mut q = query();
    q.developer = Some("bob".to_string());
    let page = Mod::get_index(&store, &q).unwrap();
    assert_eq!(page.count, 1);
    assert_eq!(ids(&page), vec!["gamma"]);
}

#[test]
fn platform_filter_and_android_expansion() {
    let mut store = Catalog::new();
    seed(&mut store);
    let mut q = query();
    q.platforms = Some("win".to_string());
    let page = Mod::get_index(&store, &q).unwrap();
    assert_eq!(ids(&page), vec!["gamma", "alpha"]);
    // the android meta-platform expands to android32 and android64;
    // beta's submission declared the meta entry, which stands for both
    q.platforms = Some(" android ".to_string());
    let page = Mod::get_index(&store, &q).unwrap();
    assert_eq!(ids(&page), vec!["beta"]);
}

#[test]
fn unknown_platform_is_rejected_by_name() {
    let mut store = Catalog::new();
    seed(&mut store);
    let mut q = query();
    q.platforms = Some("win,toaster".to_string());
    let err = Mod::get_index(&store, &q).unwrap_err();
    assert_eq!(err, ApiError::BadRequest(BadRequestKind::InvalidPlatform("toaster".to_string())));
}

#[test]
fn text_search_is_case_insensitive() {
    let mut store = Catalog::new();
    seed(&mut store);
    let mut q = query();
    q.query = Some("TOOL".to_string());
    let page = Mod::get_index(&store, &q).unwrap();
    assert_eq!(page.count, 2);
    assert_eq!(ids(&page), vec!["gamma", "alpha"]);
}

#[test]
fn runtime_version_filter() {
    let mut store = Catalog::new();
    seed(&mut store);
    let mut q = query();
    q.gd = Some("2.200".to_string());
    let page = Mod::get_index(&store, &q).unwrap();
    assert_eq!(ids(&page), vec!["gamma"]);
}

#[test]
fn featured_filter() {
    let mut store = Catalog::new();
    seed(&mut store);
    Mod::update_mod("alpha", true, &mut store).unwrap();
    let mut q = query();
    q.featured = Some(true);
    let page = Mod::get_index(&store, &q).unwrap();
    assert_eq!(ids(&page), vec!["alpha"]);
}

#[test]
fn tag_filter_with_unknown_tags_dropped() {
    let mut store = Catalog::new();
    seed(&mut store);
    let tools = store.add_tag("tools".to_string()).unwrap();
    let fun = store.add_tag("fun".to_string()).unwrap();
    store.add_mod_tag("alpha", tools).unwrap();
    store.add_mod_tag("gamma", tools).unwrap();
    store.add_mod_tag("beta", fun).unwrap();
    // a tag already attached is a duplicate
    assert_eq!(
        store.add_mod_tag("alpha", tools).unwrap_err(),
        ApiError::BadRequest(BadRequestKind::DuplicateTag)
    );
    let mut q = query();
    q.tags = Some("tools".to_string());
    let page = Mod::get_index(&store, &q).unwrap();
    assert_eq!(page.count, 2);
    assert_eq!(ids(&page), vec!["gamma", "alpha"]);
    assert_eq!(page.data[0].tags, vec!["tools".to_string()]);
    // unknown names in the list are dropped, not errors
    q.tags = Some("tools, mystery".to_string());
    let page = Mod::get_index(&store, &q).unwrap();
    assert_eq!(page.count, 2);
    // a fully unknown tag list resolves to no ids and filters nothing
    q.tags = Some("mystery".to_string());
    let page = Mod::get_index(&store, &q).unwrap();
    assert_eq!(page.count, 3);
}

#[test]
fn unvalidated_mods_are_not_listed() {
    let mut store = Catalog::new();
    let carol = dev(&mut store, "carol", false);
    Mod::from_json(&manifest("delta", "Delta", gd(Some("2.206"), None)), &carol, &mut store)
        .unwrap();
    let page = Mod::get_index(&store, &query()).unwrap();
    assert_eq!(page.count, 0);
    store.set_version_flags("delta", "1.0.0", Some(true), None).unwrap();
    let page = Mod::get_index(&store, &query()).unwrap();
    assert_eq!(page.count, 1);
}
