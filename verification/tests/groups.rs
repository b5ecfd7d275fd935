use dino_park_evo::groups::Signer;
use dino_park_evo::groups::merge_groups;
use dino_park_evo::groups::update_groups;
use dino_park_evo::schema::GroupAttribute;
use dino_park_evo::schema::Profile;
use dino_park_evo::schema::PublisherAuthority;
use dino_park_evo::schema::SignError;

struct FakeSigner {}

impl Signer for FakeSigner {
    fn sign_attribute(&self, attr: &mut GroupAttribute) -> Result<(), SignError> {
        attr.signature.value = String::from("fake-signature");
        Ok(())
    }
}

struct RefusingSigner {}

impl Signer for RefusingSigner {
    fn sign_attribute(&self, _attr: &mut GroupAttribute) -> Result<(), SignError> {
        Err(SignError {
            message: String::from("key unavailable"),
        })
    }
}

#[test]
fn valid_update() -> Result<(), SignError> {
    let profile = Profile::default();
    let updated_profile = update_groups(profile.clone(), vec![], &FakeSigner {})?;
    assert!(updated_profile.mozilliansorg.values.is_some());
    assert_eq!(
        updated_profile.mozilliansorg.signature.publisher,
        PublisherAuthority::Mozilliansorg
    );
    assert!(updated_profile.mozilliansorg.metadata.verified);
    assert!(updated_profile
        .mozilliansorg
        .values
        .map(|v| v.is_empty())
        .unwrap_or_default());
    Ok(())
}

#[test]
fn groups_get_added() -> Result<(), SignError> {
    let profile = Profile::default();
    let updated_profile = update_groups(
        profile.clone(),
        vec![String::from("test1"), String::from("test2")],
        &FakeSigner {},
    )?;
    assert!(updated_profile.mozilliansorg.values.is_some());
    assert!(updated_profile
        .mozilliansorg
        .values
        .map(|v| v.len() == 2)
        .unwrap_or_default());
    Ok(())
}

#[test]
fn duplicate_groups_collapse() {
    let profile = Profile::default();
    let updated = update_groups(
        profile,
        vec![String::from("a"), String::from("b"), String::from("a")],
        &FakeSigner {},
    )
    .unwrap();
    let values = updated.mozilliansorg.values.unwrap();
    assert_eq!(values, vec![String::from("a"), String::from("b")]);
}

#[test]
fn empty_groups_give_present_empty_mapping() {
    // Even a profile that already carries groups ends up with a present but
    // empty mapping when the empty list is merged.
    let first = update_groups(
        Profile::default(),
        vec![String::from("a")],
        &FakeSigner {},
    )
    .unwrap();
    let second = update_groups(first, vec![], &FakeSigner {}).unwrap();
    assert_eq!(second.mozilliansorg.values, Some(vec![]));
}

#[test]
fn created_is_stamped_once() {
    let profile = Profile::default();
    assert!(profile.mozilliansorg.metadata.created.is_empty());
    let first = update_groups(profile, vec![String::from("a")], &FakeSigner {}).unwrap();
    let created = first.mozilliansorg.metadata.created.clone();
    assert!(!created.is_empty());
    assert_eq!(created, first.mozilliansorg.metadata.last_modified);
    let second = update_groups(first, vec![String::from("b")], &FakeSigner {}).unwrap();
    assert_eq!(second.mozilliansorg.metadata.created, created);
}

#[test]
fn always_verified_and_signed() {
    let updated = update_groups(
        Profile::default(),
        vec![String::from("g")],
        &FakeSigner {},
    )
    .unwrap();
    assert!(updated.mozilliansorg.metadata.verified);
    assert!(!updated.mozilliansorg.signature.value.is_empty());
}

#[test]
fn signer_failure_aborts_with_its_error() {
    let result = update_groups(
        Profile::default(),
        vec![String::from("a")],
        &RefusingSigner {},
    );
    match result {
        Ok(_) => panic!("signing failure must abort the merge"),
        Err(e) => assert_eq!(e.message, String::from("key unavailable")),
    }
}

#[test]
fn merge_carries_only_identity_forward() {
    let mut profile = Profile::default();
    profile.user_id = String::from("ad|someone");
    profile.active = true;
    let now = String::from("2018-01-26T18:30:09Z");
    let merged = merge_groups(profile, vec![String::from("nda")], &now);
    assert_eq!(merged.user_id, String::from("ad|someone"));
    assert!(merged.active);
    assert_eq!(merged.mozilliansorg.metadata.created, now);
    assert_eq!(merged.mozilliansorg.metadata.last_modified, now);
    assert!(merged.mozilliansorg.metadata.verified);
    assert_eq!(merged.mozilliansorg.values, Some(vec![String::from("nda")]));
}

#[test]
fn merge_keeps_existing_created() {
    let mut profile = Profile::default();
    profile.mozilliansorg.values = Some(vec![String::from("old-group")]);
    profile.mozilliansorg.metadata.created = String::from("2015-03-01T00:00:00Z");
    let now = String::from("2018-01-26T18:30:09Z");
    let merged = merge_groups(profile, vec![], &now);
    assert_eq!(
        merged.mozilliansorg.metadata.created,
        String::from("2015-03-01T00:00:00Z")
    );
    assert_eq!(merged.mozilliansorg.metadata.last_modified, now);
}
