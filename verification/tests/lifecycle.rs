use mod_index::api::{DetailedGDVersion, FetchedDeveloper, Mod, ModJson, ModVersion};
use mod_index::error::{ApiError, BadRequestKind, MissingEntity};
use mod_index::store::Catalog;

fn gd_win() -> DetailedGDVersion {
    DetailedGDVersion {
        win: Some("2.206".to_string()),
        android: None,
        mac: None,
        ios: None,
        android32: None,
        android64: None,
    }
}

fn manifest(id: &str, version: &str, name: &str) -> ModJson {
    ModJson {
        id: id.to_string(),
        version: version.to_string(),
        name: name.to_string(),
        description: Some("a mod".to_string()),
        geode: "2.0.0".to_string(),
        download_url: "https://example.invalid/mod.geode".to_string(),
        hash: "abc123".to_string(),
        early_load: false,
        api: false,
        repository: None,
        about: Some("about text".to_string()),
        changelog: None,
        logo: vec![1, 2, 3],
        gd: gd_win(),
    }
}

fn verified_dev(store: &mut Catalog, name: &str) -> FetchedDeveloper {
    let id = store.add_developer(name.to_string(), true, false).unwrap();
    FetchedDeveloper { id, username: name.to_string(), verified: true, admin: false }
}

fn unverified_dev(store: &mut Catalog, name: &str) -> FetchedDeveloper {
    let id = store.add_developer(name.to_string(), false, false).unwrap();
    FetchedDeveloper { id, username: name.to_string(), verified: false, admin: false }
}

fn latest_of(store: &Catalog, id: &str) -> String {
    let m = Mod::get_one(id, store).unwrap().unwrap();
    m.latest_version
}

#[test]
fn first_submission_creates_mod_and_owner() {
    let mut store = Catalog::new();
    let dev = verified_dev(&mut store, "alice");
    assert!(Mod::from_json(&manifest("com.example.alpha", "1.0.0", "Alpha"), &dev, &mut store)
        .is_ok());
    let m = Mod::get_one("com.example.alpha", &store).unwrap().unwrap();
    assert_eq!(m.latest_version, "1.0.0");
    assert_eq!(m.versions.len(), 1);
    assert_eq!(m.versions[0].version, "1.0.0");
    assert_eq!(m.developers.len(), 1);
    assert!(m.developers[0].is_owner);
    assert_eq!(m.developers[0].username, "alice");
}

#[test]
fn duplicate_mod_id_is_rejected() {
    let mut store = Catalog::new();
    let dev = verified_dev(&mut store, "alice");
    Mod::from_json(&manifest("com.example.alpha", "1.0.0", "Alpha"), &dev, &mut store).unwrap();
    let err = Mod::from_json(&manifest("com.example.alpha", "2.0.0", "Alpha"), &dev, &mut store)
        .unwrap_err();
    assert_eq!(
        err,
        ApiError::BadRequest(BadRequestKind::ModAlreadyExists("com.example.alpha".to_string()))
    );
}

#[test]
fn invalid_semver_is_rejected() {
    let mut store = Catalog::new();
    let dev = verified_dev(&mut store, "alice");
    let err =
        Mod::from_json(&manifest("com.example.alpha", "banana", "Alpha"), &dev, &mut store)
            .unwrap_err();
    assert_eq!(err, ApiError::BadRequest(BadRequestKind::InvalidSemver("banana".to_string())));
    // the declared runtime version is validated too
    let mut bad = manifest("com.example.alpha", "1.0.0", "Alpha");
    bad.geode = "not-a-version".to_string();
    let err = Mod::from_json(&bad, &dev, &mut store).unwrap_err();
    assert_eq!(
        err,
        ApiError::BadRequest(BadRequestKind::InvalidSemver("not-a-version".to_string()))
    );
}

#[test]
fn v_prefix_is_accepted() {
    let mut store = Catalog::new();
    let dev = verified_dev(&mut store, "alice");
    assert!(Mod::from_json(&manifest("com.example.alpha", "v1.0.0", "Alpha"), &dev, &mut store)
        .is_ok());
}

#[test]
fn non_increasing_versions_fail_greater_succeed() {
    let mut store = Catalog::new();
    let dev = verified_dev(&mut store, "alice");
    Mod::from_json(&manifest("com.example.alpha", "1.2.0", "Alpha"), &dev, &mut store).unwrap();
    // equal is rejected
    let err = Mod::new_version(&manifest("com.example.alpha", "1.2.0", "Alpha"), &dev, &mut store)
        .unwrap_err();
    assert_eq!(
        err,
        ApiError::BadRequest(BadRequestKind::VersionNotGreater {
            submitted: "1.2.0".to_string(),
            current: "1.2.0".to_string(),
        })
    );
    // smaller is rejected
    let err = Mod::new_version(&manifest("com.example.alpha", "1.1.9", "Alpha"), &dev, &mut store)
        .unwrap_err();
    assert!(matches!(err, ApiError::BadRequest(BadRequestKind::VersionNotGreater { .. })));
    // strictly greater succeeds
    assert!(
        Mod::new_version(&manifest("com.example.alpha", "1.3.0", "Alpha"), &dev, &mut store)
            .is_ok()
    );
    // pre-release precedence: 2.0.0-alpha is greater than 1.3.0 but smaller than 2.0.0
    assert!(Mod::new_version(
        &manifest("com.example.alpha", "2.0.0-alpha", "Alpha"),
        &dev,
        &mut store
    )
    .is_ok());
    let err =
        Mod::new_version(&manifest("com.example.alpha", "2.0.0-alpha", "Alpha"), &dev, &mut store)
            .unwrap_err();
    assert!(matches!(err, ApiError::BadRequest(BadRequestKind::VersionNotGreater { .. })));
    assert!(
        Mod::new_version(&manifest("com.example.alpha", "2.0.0", "Alpha"), &dev, &mut store)
            .is_ok()
    );
}

#[test]
fn new_version_requires_validated_mod() {
    let mut store = Catalog::new();
    let dev = unverified_dev(&mut store, "bob");
    // first submission by an unverified developer stays unvalidated
    Mod::from_json(&manifest("com.example.beta", "1.0.0", "Beta"), &dev, &mut store).unwrap();
    let err = Mod::new_version(&manifest("com.example.beta", "1.1.0", "Beta"), &dev, &mut store)
        .unwrap_err();
    assert_eq!(
        err,
        ApiError::NotFound(MissingEntity::ValidatedMod("com.example.beta".to_string()))
    );
}

#[test]
fn latest_pointer_follows_validation() {
    // package with validated 1.0.0 (seq 1) and unvalidated 1.2.0 (seq 2)
    let mut store = Catalog::new();
    let alice = verified_dev(&mut store, "alice");
    let bob = unverified_dev(&mut store, "bob");
    Mod::from_json(&manifest("p", "1.0.0", "P"), &alice, &mut store).unwrap();
    Mod::new_version(&manifest("p", "1.2.0", "P"), &bob, &mut store).unwrap();
    assert_eq!(latest_of(&store, "p"), "1.0.0");
    // validating seq 2 moves the pointer to 1.2.0
    store.set_version_flags("p", "1.2.0", Some(true), None).unwrap();
    assert_eq!(latest_of(&store, "p"), "1.2.0");
    // submitting 1.1.0 afterwards fails: not greater than 1.2.0
    let err = Mod::new_version(&manifest("p", "1.1.0", "P"), &alice, &mut store).unwrap_err();
    assert!(matches!(err, ApiError::BadRequest(BadRequestKind::VersionNotGreater { .. })));
    // submitting 1.3.0 succeeds and, once validated, becomes latest
    Mod::new_version(&manifest("p", "1.3.0", "P"), &bob, &mut store).unwrap();
    assert_eq!(latest_of(&store, "p"), "1.2.0");
    store.set_version_flags("p", "1.3.0", Some(true), None).unwrap();
    assert_eq!(latest_of(&store, "p"), "1.3.0");
}

#[test]
fn unvalidating_leaves_pointer_when_nothing_validated() {
    let mut store = Catalog::new();
    let alice = verified_dev(&mut store, "alice");
    Mod::from_json(&manifest("p", "1.0.0", "P"), &alice, &mut store).unwrap();
    store.set_version_flags("p", "1.0.0", Some(false), None).unwrap();
    // no validated version exists: the pointer stays as it was
    let vr = ModVersion::get_one("p", "1.0.0", &store).unwrap();
    assert_eq!(vr.version, "1.0.0");
    let err = ModVersion::get_latest_for_mod("p", &store).unwrap_err();
    assert_eq!(err, ApiError::NotFound(MissingEntity::Mod("p".to_string())));
}

#[test]
fn update_mod_sets_featured() {
    let mut store = Catalog::new();
    let alice = verified_dev(&mut store, "alice");
    Mod::from_json(&manifest("p", "1.0.0", "P"), &alice, &mut store).unwrap();
    Mod::update_mod("p", true, &mut store).unwrap();
    let m = Mod::get_one("p", &store).unwrap().unwrap();
    assert!(m.featured);
    let err = Mod::update_mod("ghost", true, &mut store).unwrap_err();
    assert_eq!(err, ApiError::NotFound(MissingEntity::Mod("ghost".to_string())));
}

#[test]
fn version_flags_not_found() {
    let mut store = Catalog::new();
    let alice = verified_dev(&mut store, "alice");
    Mod::from_json(&manifest("p", "1.0.0", "P"), &alice, &mut store).unwrap();
    let err = store.set_version_flags("p", "9.9.9", Some(true), None).unwrap_err();
    assert!(matches!(err, ApiError::NotFound(MissingEntity::Version { .. })));
}

#[test]
fn logo_served_only_for_validated() {
    let mut store = Catalog::new();
    let alice = verified_dev(&mut store, "alice");
    let bob = unverified_dev(&mut store, "bob");
    Mod::from_json(&manifest("p", "1.0.0", "P"), &alice, &mut store).unwrap();
    Mod::from_json(&manifest("q", "1.0.0", "Q"), &bob, &mut store).unwrap();
    assert_eq!(Mod::get_logo_for_mod("p", &store).unwrap(), Some(vec![1, 2, 3]));
    assert_eq!(Mod::get_logo_for_mod("q", &store).unwrap(), None);
}

#[test]
fn download_url_served() {
    let mut store = Catalog::new();
    let alice = verified_dev(&mut store, "alice");
    Mod::from_json(&manifest("p", "1.0.0", "P"), &alice, &mut store).unwrap();
    let url = ModVersion::get_download_url("p", "1.0.0", &store).unwrap();
    assert_eq!(url, "https://example.invalid/mod.geode");
}
