use mod_index::api::{DetailedGDVersion, FetchedDeveloper, Mod, ModVersion};
use mod_index::error::{ApiError, BadRequestKind, MissingEntity};
use mod_index::store::Catalog;

fn manifest(id: &str, version: &str, name: &str) -> mod_index::api::ModJson {
    mod_index::api::ModJson {
        id: id.to_string(),
        version: version.to_string(),
        name: name.to_string(),
        description: None,
        geode: "2.0.0".to_string(),
        download_url: "https://example.invalid/mod.geode".to_string(),
        hash: "abc123".to_string(),
        early_load: false,
        api: false,
        repository: None,
        about: None,
        changelog: None,
        logo: vec![],
        gd: DetailedGDVersion {
            win: Some("2.206".to_string()),
            android: None,
            mac: None,
            ios: None,
            android32: None,
            android64: None,
        },
    }
}

fn dev(store: &mut Catalog, name: &str, verified: bool) -> FetchedDeveloper {
    let id = store.add_developer(name.to_string(), verified, false).unwrap();
    FetchedDeveloper { id, username: name.to_string(), verified, admin: false }
}

fn owner_names(store: &Catalog, id: &str) -> Vec<String> {
    let m = Mod::get_one(id, store).unwrap().unwrap();
    m.developers.iter().filter(|d| d.is_owner).map(|d| d.username.clone()).collect()
}

#[test]
fn assign_owner_transfers_and_keeps_one_owner() {
    let mut store = Catalog::new();
    let alice = dev(&mut store, "alice", true);
    let bob = dev(&mut store, "bob", false);
    Mod::from_json(&manifest("p", "1.0.0", "P"), &alice, &mut store).unwrap();
    assert_eq!(owner_names(&store, "p"), vec!["alice".to_string()]);
    // transfer to a developer not yet on the package inserts an owner edge
    Mod::assign_owner("p", bob.id, &mut store).unwrap();
    assert_eq!(owner_names(&store, "p"), vec!["bob".to_string()]);
    // reassigning the current owner changes nothing
    Mod::assign_owner("p", bob.id, &mut store).unwrap();
    assert_eq!(owner_names(&store, "p"), vec!["bob".to_string()]);
    // transfer back promotes the existing edge
    Mod::assign_owner("p", alice.id, &mut store).unwrap();
    assert_eq!(owner_names(&store, "p"), vec!["alice".to_string()]);
}

#[test]
fn assign_dev_rejects_duplicates() {
    let mut store = Catalog::new();
    let alice = dev(&mut store, "alice", true);
    let bob = dev(&mut store, "bob", false);
    Mod::from_json(&manifest("p", "1.0.0", "P"), &alice, &mut store).unwrap();
    Mod::assign_dev("p", bob.id, &mut store).unwrap();
    let err = Mod::assign_dev("p", bob.id, &mut store).unwrap_err();
    assert_eq!(err, ApiError::BadRequest(BadRequestKind::DuplicateDeveloper));
    let err = Mod::assign_dev("p", alice.id, &mut store).unwrap_err();
    assert_eq!(err, ApiError::BadRequest(BadRequestKind::DuplicateDeveloper));
}

#[test]
fn unassign_dev_owner_and_non_member() {
    let mut store = Catalog::new();
    let alice = dev(&mut store, "alice", true);
    let bob = dev(&mut store, "bob", false);
    let carol = dev(&mut store, "carol", false);
    Mod::from_json(&manifest("p", "1.0.0", "P"), &alice, &mut store).unwrap();
    Mod::assign_dev("p", bob.id, &mut store).unwrap();
    // the owner can never be unassigned
    let err = Mod::unassign_dev("p", alice.id, &mut store).unwrap_err();
    assert_eq!(err, ApiError::BadRequest(BadRequestKind::OwnerUnassign));
    // a developer not on the package is reported absent
    let err = Mod::unassign_dev("p", carol.id, &mut store).unwrap_err();
    assert_eq!(
        err,
        ApiError::NotFound(MissingEntity::Assignment {
            mod_id: "p".to_string(),
            developer_id: carol.id,
        })
    );
    // a non-owner edge is removed
    Mod::unassign_dev("p", bob.id, &mut store).unwrap();
    let m = Mod::get_one("p", &store).unwrap().unwrap();
    assert_eq!(m.developers.len(), 1);
}

#[test]
fn assign_owner_missing_endpoints() {
    let mut store = Catalog::new();
    let alice = dev(&mut store, "alice", true);
    Mod::from_json(&manifest("p", "1.0.0", "P"), &alice, &mut store).unwrap();
    let err = Mod::assign_owner("ghost", alice.id, &mut store).unwrap_err();
    assert_eq!(err, ApiError::NotFound(MissingEntity::Mod("ghost".to_string())));
    let err = Mod::assign_owner("p", 999, &mut store).unwrap_err();
    assert_eq!(err, ApiError::NotFound(MissingEntity::Developer(999)));
}

fn version_count(store: &Catalog, id: &str, version: &str) -> u64 {
    ModVersion::get_one(id, version, store).unwrap().download_count
}

fn mod_count(store: &Catalog, id: &str) -> u64 {
    Mod::get_one(id, store).unwrap().unwrap().download_count
}

#[test]
fn download_counted_once_per_client() {
    let mut store = Catalog::new();
    let alice = dev(&mut store, "alice", true);
    Mod::from_json(&manifest("p", "1.0.0", "P"), &alice, &mut store).unwrap();
    store.record_download("p", "1.0.0", 7001).unwrap();
    assert_eq!(version_count(&store, "p", "1.0.0"), 1);
    assert_eq!(mod_count(&store, "p"), 1);
    // the same client again is a no-op
    store.record_download("p", "1.0.0", 7001).unwrap();
    assert_eq!(version_count(&store, "p", "1.0.0"), 1);
    assert_eq!(mod_count(&store, "p"), 1);
    // a distinct client counts
    store.record_download("p", "1.0.0", 7002).unwrap();
    assert_eq!(version_count(&store, "p", "1.0.0"), 2);
    assert_eq!(mod_count(&store, "p"), 2);
}

#[test]
fn download_of_unvalidated_version_skips_mod_counter() {
    let mut store = Catalog::new();
    let bob = dev(&mut store, "bob", false);
    Mod::from_json(&manifest("p", "1.0.0", "P"), &bob, &mut store).unwrap();
    store.record_download("p", "1.0.0", 7001).unwrap();
    assert_eq!(version_count(&store, "p", "1.0.0"), 1);
    // the package counter only counts validated versions' downloads
    store.set_version_flags("p", "1.0.0", Some(true), None).unwrap();
    assert_eq!(mod_count(&store, "p"), 0);
}

#[test]
fn download_of_missing_version_not_found() {
    let mut store = Catalog::new();
    let alice = dev(&mut store, "alice", true);
    Mod::from_json(&manifest("p", "1.0.0", "P"), &alice, &mut store).unwrap();
    let err = store.record_download("p", "9.9.9", 7001).unwrap_err();
    assert!(matches!(err, ApiError::NotFound(MissingEntity::Version { .. })));
}

#[test]
fn refresh_is_idempotent_at_rest() {
    let mut store = Catalog::new();
    let alice = dev(&mut store, "alice", true);
    Mod::from_json(&manifest("p", "1.0.0", "P"), &alice, &mut store).unwrap();
    store.record_download("p", "1.0.0", 7001).unwrap();
    Mod::calculate_cached_downloads("p", &mut store).unwrap();
    Mod::calculate_cached_downloads("p", &mut store).unwrap();
    let vid = ModVersion::get_one("p", "1.0.0", &store).unwrap().id;
    ModVersion::calculate_cached_downloads(vid, &mut store).unwrap();
    assert_eq!(version_count(&store, "p", "1.0.0"), 1);
    assert_eq!(mod_count(&store, "p"), 1);
}
