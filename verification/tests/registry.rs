use secure_storage_backend::envelope::{KeyEncryptionKey, SealMaterial};
use secure_storage_backend::lifecycle::LinkState;
use secure_storage_backend::models::{File, SharedLink};
use secure_storage_backend::registry::{
    CreateLinkError, NotFound, RedeemError, SharedLinkRegistry, StoreError,
};
use secure_storage_backend::utils::password::{compare_password, HashError, VerifyError};

fn kek() -> KeyEncryptionKey {
    KeyEncryptionKey::new(vec![7; 32]).unwrap()
}

fn sealed(id: u128, plaintext: &[u8]) -> File {
    let material = SealMaterial::new(vec![1; 32], vec![2; 12], vec![3; 12]).unwrap();
    File::seal_with(plaintext, format!("file-{}", id), Some(1), &kek(), id, 1_000, material)
        .unwrap()
}

fn registry_with_file(id: u128) -> SharedLinkRegistry {
    let mut registry = SharedLinkRegistry::new();
    assert_eq!(registry.store_file(sealed(id, b"contents")), Ok(()));
    registry
}

#[test]
fn a_new_registry_is_empty() {
    let registry = SharedLinkRegistry::new();
    assert_eq!(registry.file_count(), 0);
    assert_eq!(registry.link_count(), 0);
    assert!(registry.file(1).is_none());
    assert!(registry.link(1).is_none());
}

#[test]
fn store_file_files_the_envelope_under_its_identifier() {
    let registry = registry_with_file(10);
    assert_eq!(registry.file_count(), 1);
    let file = registry.file(10).unwrap();
    assert_eq!(file.id, 10);
    assert_eq!(file.open(&kek()), Ok(b"contents".to_vec()));
    assert!(registry.file(11).is_none());
}

#[test]
fn store_file_refuses_a_taken_identifier() {
    let mut registry = registry_with_file(10);
    assert_eq!(registry.store_file(sealed(10, b"other")), Err(StoreError::DuplicateId));
    assert_eq!(registry.file_count(), 1);
    assert_eq!(registry.file(10).unwrap().open(&kek()), Ok(b"contents".to_vec()));
}

#[test]
fn store_file_refuses_an_incomplete_envelope() {
    let mut registry = SharedLinkRegistry::new();
    let mut no_key = sealed(1, b"x");
    no_key.encrypted_aes_key.clear();
    assert_eq!(registry.store_file(no_key), Err(StoreError::IncompleteEnvelope));
    let mut no_iv = sealed(2, b"x");
    no_iv.iv.clear();
    assert_eq!(registry.store_file(no_iv), Err(StoreError::IncompleteEnvelope));
    let mut no_ciphertext = sealed(3, b"x");
    no_ciphertext.encrypted_file.clear();
    assert_eq!(registry.store_file(no_ciphertext), Err(StoreError::IncompleteEnvelope));
    assert_eq!(registry.file_count(), 0);
}

#[test]
fn create_link_computes_the_expiration() {
    let mut registry = registry_with_file(10);
    let link = registry.create_link_at(500, 10, 77, "hunter2X", 3600, 1_000_000).unwrap();
    assert_eq!(link.id, 500);
    assert_eq!(link.file_id, Some(10));
    assert_eq!(link.recipient_user_id, 77);
    assert_eq!(link.created_at, 1_000_000);
    assert_eq!(link.expiration_date, 1_003_600);
    assert_ne!(link.password, "hunter2X");
    assert_eq!(compare_password("hunter2X", &link.password), Ok(true));
    let stored = registry.link(500).unwrap();
    assert_eq!(stored.expiration_date, 1_003_600);
    assert_eq!(stored.password, link.password);
    assert_eq!(registry.link_count(), 1);
}

#[test]
fn create_link_rejects_a_ttl_that_is_not_positive() {
    let mut registry = registry_with_file(10);
    for ttl in [0, -1, -3600, i64::MIN] {
        assert_eq!(
            registry.create_link_at(500, 10, 77, "hunter2X", ttl, 1_000).err(),
            Some(CreateLinkError::InvalidTtl)
        );
    }
    assert_eq!(registry.link_count(), 0);
}

#[test]
fn create_link_rejects_an_expiration_beyond_the_clock() {
    let mut registry = registry_with_file(10);
    assert_eq!(
        registry.create_link_at(500, 10, 77, "hunter2X", i64::MAX, 1).err(),
        Some(CreateLinkError::InvalidTtl)
    );
    assert_eq!(
        registry.create_link_at(500, 10, 77, "hunter2X", 1, i64::MAX).err(),
        Some(CreateLinkError::InvalidTtl)
    );
    assert!(registry.create_link_at(500, 10, 77, "hunter2X", i64::MAX, 0).is_ok());
    assert_eq!(registry.link(500).unwrap().expiration_date, i64::MAX);
}

#[test]
fn create_link_propagates_the_policy_errors() {
    let mut registry = registry_with_file(10);
    assert_eq!(
        registry.create_link_at(500, 10, 77, "short", 3600, 1_000).err(),
        Some(CreateLinkError::Credential(HashError::TooShort))
    );
    assert_eq!(
        registry.create_link_at(500, 10, 77, &"a".repeat(65), 3600, 1_000).err(),
        Some(CreateLinkError::Credential(HashError::TooLong))
    );
    // The password is looked at before the time to live.
    assert_eq!(
        registry.create_link_at(500, 10, 77, "short", 0, 1_000).err(),
        Some(CreateLinkError::Credential(HashError::TooShort))
    );
    assert_eq!(registry.link_count(), 0);
}

#[test]
fn create_link_needs_a_stored_file() {
    let mut registry = registry_with_file(10);
    assert_eq!(
        registry.create_link_at(500, 11, 77, "hunter2X", 3600, 1_000).err(),
        Some(CreateLinkError::FileNotFound)
    );
    assert_eq!(registry.link_count(), 0);
}

#[test]
fn create_link_refuses_a_taken_identifier() {
    let mut registry = registry_with_file(10);
    assert!(registry.create_link_at(500, 10, 77, "hunter2X", 3600, 1_000).is_ok());
    assert_eq!(
        registry.create_link_at(500, 10, 78, "hunter2X", 7200, 1_000).err(),
        Some(CreateLinkError::DuplicateId)
    );
    assert_eq!(registry.link_count(), 1);
    assert_eq!(registry.link(500).unwrap().recipient_user_id, 77);
}

#[test]
fn register_link_stores_the_hash_it_is_given() {
    let mut registry = registry_with_file(10);
    let link = registry.register_link(500, 10, 77, String::from("$hash"), 60, 1_000).unwrap();
    assert_eq!(link.password, "$hash");
    assert_eq!(link.expiration_date, 1_060);
    assert_eq!(registry.link(500).unwrap().password, "$hash");
    assert_eq!(
        registry.register_link(501, 10, 77, String::from("$hash"), 0, 1_000).err(),
        Some(CreateLinkError::InvalidTtl)
    );
    assert_eq!(
        registry.register_link(501, 12, 77, String::from("$hash"), 60, 1_000).err(),
        Some(CreateLinkError::FileNotFound)
    );
    assert_eq!(
        registry.register_link(500, 10, 77, String::from("$hash"), 60, 1_000).err(),
        Some(CreateLinkError::DuplicateId)
    );
    // The time to live is looked at before the file, the file before the
    // identifier.
    assert_eq!(
        registry.register_link(500, 12, 77, String::from("$hash"), 0, 1_000).err(),
        Some(CreateLinkError::InvalidTtl)
    );
    assert_eq!(
        registry.register_link(500, 12, 77, String::from("$hash"), 60, 1_000).err(),
        Some(CreateLinkError::FileNotFound)
    );
}

#[test]
fn create_link_draws_identifier_and_instant() {
    let mut registry = registry_with_file(10);
    let first = registry.create_link(10, 77, "hunter2X", 3600).unwrap();
    let second = registry.create_link(10, 77, "hunter2X", 3600).unwrap();
    assert_ne!(first.id, second.id);
    assert_ne!(first.password, second.password);
    assert_eq!(first.expiration_date, first.created_at + 3600);
    assert!(first.created_at > 1_600_000_000);
    assert_eq!(registry.link_count(), 2);
    assert_eq!(registry.redeem(first.id, "hunter2X").map(|file| file.id), Ok(10));
    assert_eq!(registry.redeem(first.id, "wrongpass").err(), Some(RedeemError::WrongPassword));
    assert_eq!(
        registry.create_link(10, 77, "hunter2X", 0).err(),
        Some(CreateLinkError::InvalidTtl)
    );
}

#[test]
fn redeem_scenario_with_hunter2x() {
    let mut registry = registry_with_file(10);
    let now = 1_000_000;
    let link = registry.create_link_at(500, 10, 77, "hunter2X", 3600, now).unwrap();
    let file = registry.redeem_at(link.id, "hunter2X", now).unwrap();
    assert_eq!(file.id, 10);
    assert_eq!(file.open(&kek()), Ok(b"contents".to_vec()));
    assert_eq!(
        registry.redeem_at(link.id, "wrongpass", now).err(),
        Some(RedeemError::WrongPassword)
    );
    assert_eq!(
        registry.redeem_at(link.id, "hunter2X", now + 3601).err(),
        Some(RedeemError::Expired)
    );
}

#[test]
fn redeem_after_revoke_is_not_found() {
    let mut registry = registry_with_file(10);
    let link = registry.create_link_at(500, 10, 77, "hunter2X", 3600, 1_000).unwrap();
    assert_eq!(registry.revoke(link.id), Ok(()));
    assert_eq!(
        registry.redeem_at(link.id, "hunter2X", 1_000).err(),
        Some(RedeemError::NotFound)
    );
    assert_eq!(registry.link_count(), 0);
    assert_eq!(registry.file_count(), 1);
}

#[test]
fn a_link_is_expired_at_its_expiration_instant() {
    let mut registry = registry_with_file(10);
    registry.create_link_at(500, 10, 77, "hunter2X", 3600, 1_000).unwrap();
    assert!(registry.redeem_at(500, "hunter2X", 4_599).is_ok());
    assert_eq!(registry.redeem_at(500, "hunter2X", 4_600).err(), Some(RedeemError::Expired));
    assert_eq!(registry.redeem_at(500, "hunter2X", 4_601).err(), Some(RedeemError::Expired));
    assert!(registry.link(500).unwrap().is_live(4_599));
    assert!(!registry.link(500).unwrap().is_live(4_600));
}

#[test]
fn a_link_with_the_shortest_ttl_is_live_for_one_second() {
    let mut registry = registry_with_file(10);
    registry.create_link_at(500, 10, 77, "hunter2X", 1, 1_000).unwrap();
    assert!(registry.redeem_at(500, "hunter2X", 1_000).is_ok());
    assert_eq!(registry.redeem_at(500, "hunter2X", 1_001).err(), Some(RedeemError::Expired));
}

#[test]
fn redeem_does_not_consume_the_link() {
    let mut registry = registry_with_file(10);
    registry.create_link_at(500, 10, 77, "hunter2X", 3600, 1_000).unwrap();
    for at in [1_000, 1_001, 2_000, 4_599] {
        assert_eq!(registry.redeem_at(500, "hunter2X", at).map(|file| file.id), Ok(10));
    }
    assert_eq!(registry.link_count(), 1);
}

#[test]
fn redeem_of_a_missing_link_is_not_found() {
    let registry = registry_with_file(10);
    assert_eq!(registry.redeem_at(500, "hunter2X", 1_000).err(), Some(RedeemError::NotFound));
    assert_eq!(registry.redeem(500, "hunter2X").err(), Some(RedeemError::NotFound));
    // Not found whatever the password looks like.
    assert_eq!(registry.redeem_at(500, "short", 1_000).err(), Some(RedeemError::NotFound));
}

#[test]
fn redeem_checks_expiry_before_the_password() {
    let mut registry = registry_with_file(10);
    registry.create_link_at(500, 10, 77, "hunter2X", 3600, 1_000).unwrap();
    assert_eq!(registry.redeem_at(500, "wrongpass", 5_000).err(), Some(RedeemError::Expired));
    assert_eq!(registry.redeem_at(500, "short", 5_000).err(), Some(RedeemError::Expired));
}

#[test]
fn redeem_hands_on_what_the_comparison_could_not_do() {
    let mut registry = registry_with_file(10);
    registry.create_link_at(500, 10, 77, "hunter2X", 3600, 1_000).unwrap();
    assert_eq!(
        registry.redeem_at(500, "short", 1_000).err(),
        Some(RedeemError::Credential(VerifyError::TooShort))
    );
    assert_eq!(
        registry.redeem_at(500, &"a".repeat(65), 1_000).err(),
        Some(RedeemError::Credential(VerifyError::TooLong))
    );
    registry.register_link(501, 10, 77, String::from("not a hash"), 3600, 1_000).unwrap();
    assert_eq!(
        registry.redeem_at(501, "hunter2X", 1_000).err(),
        Some(RedeemError::Credential(VerifyError::MalformedHash))
    );
}

#[test]
fn release_decides_on_the_verdict() {
    let mut registry = registry_with_file(10);
    registry.register_link(500, 10, 77, String::from("$hash"), 3600, 1_000).unwrap();
    assert_eq!(registry.release(500, 1_000, Ok(true)).map(|file| file.id), Ok(10));
    assert_eq!(registry.release(500, 1_000, Ok(false)).err(), Some(RedeemError::WrongPassword));
    assert_eq!(
        registry.release(500, 1_000, Err(VerifyError::MalformedHash)).err(),
        Some(RedeemError::Credential(VerifyError::MalformedHash))
    );
    assert_eq!(registry.release(500, 4_600, Ok(true)).err(), Some(RedeemError::Expired));
    assert_eq!(registry.release(501, 1_000, Ok(true)).err(), Some(RedeemError::NotFound));
}

#[test]
fn live_link_tells_missing_from_expired() {
    let mut registry = registry_with_file(10);
    registry.register_link(500, 10, 77, String::from("$hash"), 3600, 1_000).unwrap();
    assert_eq!(registry.live_link(500, 1_000).map(|link| link.id), Ok(500));
    assert_eq!(registry.live_link(500, 4_600).err(), Some(RedeemError::Expired));
    assert_eq!(registry.live_link(9, 1_000).err(), Some(RedeemError::NotFound));
}

#[test]
fn revoke_deletes_whatever_the_expiration() {
    let mut registry = registry_with_file(10);
    registry.register_link(500, 10, 77, String::from("$hash"), 3600, 1_000).unwrap();
    registry.register_link(501, 10, 78, String::from("$hash"), 3600, 1_000).unwrap();
    assert_eq!(registry.revoke(999), Err(NotFound));
    assert_eq!(registry.revoke(500), Ok(()));
    assert_eq!(registry.revoke(500), Err(NotFound));
    assert!(registry.link(500).is_none());
    assert!(registry.link(501).is_some());
    assert_eq!(registry.link_count(), 1);
    assert_eq!(registry.file_count(), 1);
}

#[test]
fn many_links_may_point_at_one_file() {
    let mut registry = registry_with_file(10);
    registry.create_link_at(500, 10, 77, "hunter2X", 3600, 1_000).unwrap();
    registry.create_link_at(501, 10, 78, "other-password", 60, 1_000).unwrap();
    assert_eq!(registry.redeem_at(500, "hunter2X", 1_000).map(|file| file.id), Ok(10));
    assert_eq!(registry.redeem_at(501, "other-password", 1_000).map(|file| file.id), Ok(10));
    assert_eq!(
        registry.redeem_at(501, "hunter2X", 1_000).err(),
        Some(RedeemError::WrongPassword)
    );
}

#[test]
fn delete_file_takes_its_links_along() {
    let mut registry = registry_with_file(10);
    registry.store_file(sealed(11, b"other")).unwrap();
    registry.register_link(500, 10, 77, String::from("$a"), 3600, 1_000).unwrap();
    registry.register_link(501, 11, 77, String::from("$b"), 3600, 1_000).unwrap();
    registry.register_link(502, 10, 78, String::from("$c"), 3600, 1_000).unwrap();
    assert_eq!(registry.delete_file(12), Err(NotFound));
    assert_eq!(registry.delete_file(10), Ok(()));
    assert!(registry.file(10).is_none());
    assert!(registry.file(11).is_some());
    assert!(registry.link(500).is_none());
    assert!(registry.link(502).is_none());
    assert_eq!(registry.link(501).unwrap().password, "$b");
    assert_eq!(registry.release(500, 1_000, Ok(true)).err(), Some(RedeemError::NotFound));
    assert_eq!(registry.file_count(), 1);
    assert_eq!(registry.link_count(), 1);
}

#[test]
fn store_link_keeps_the_record_as_it_stands() {
    let mut registry = registry_with_file(10);
    let record = |id: u128, file_id: Option<u128>, created_at: i64, expiration_date: i64| {
        SharedLink {
            id,
            file_id,
            recipient_user_id: 77,
            password: String::from("$hash"),
            expiration_date,
            created_at,
        }
    };
    assert_eq!(registry.store_link(record(500, Some(10), 1_000, 2_000)), Ok(()));
    assert_eq!(registry.link(500).unwrap().expiration_date, 2_000);
    assert_eq!(registry.link(500).unwrap().created_at, 1_000);
    assert_eq!(
        registry.store_link(record(500, Some(10), 1_000, 2_000)),
        Err(StoreError::DuplicateId)
    );
    assert_eq!(
        registry.store_link(record(501, Some(11), 1_000, 2_000)),
        Err(StoreError::UnknownFile)
    );
    assert_eq!(registry.store_link(record(501, None, 1_000, 2_000)), Err(StoreError::UnknownFile));
    assert_eq!(
        registry.store_link(record(501, Some(10), 1_000, 1_000)),
        Err(StoreError::InvalidExpiration)
    );
    assert_eq!(
        registry.store_link(record(501, Some(10), 1_000, 999)),
        Err(StoreError::InvalidExpiration)
    );
    assert_eq!(registry.link_count(), 1);
}

#[test]
fn link_state_follows_the_life_of_a_link() {
    let mut registry = registry_with_file(10);
    assert_eq!(registry.link_state(500, 1_000), LinkState::Deleted);
    registry.register_link(500, 10, 77, String::from("$a"), 60, 1_000).unwrap();
    registry.register_link(501, 10, 77, String::from("$b"), 60, 1_000).unwrap();
    assert_eq!(registry.link_state(500, 1_000), LinkState::Active);
    assert_eq!(registry.link_state(500, 1_059), LinkState::Active);
    assert_eq!(registry.link_state(500, 1_060), LinkState::Expired);
    assert_eq!(registry.link_state(500, 9_999), LinkState::Expired);
    registry.revoke(501).unwrap();
    assert_eq!(registry.link_state(501, 1_000), LinkState::Deleted);
    registry.delete_expired_files(1_060);
    assert_eq!(registry.link_state(500, 1_060), LinkState::Deleted);
    assert_eq!(registry.link_state(500, 1_000), LinkState::Deleted);
}

#[test]
fn expired_links_lists_what_a_sweep_would_delete() {
    let mut registry = registry_with_file(10);
    registry.store_file(sealed(11, b"b")).unwrap();
    registry.store_file(sealed(12, b"c")).unwrap();
    registry.store_file(sealed(13, b"d")).unwrap();
    registry.register_link(500, 10, 77, String::from("$a"), 60, 1_000).unwrap();
    registry.register_link(501, 11, 77, String::from("$b"), 600, 1_000).unwrap();
    registry.register_link(502, 11, 77, String::from("$c"), 30, 1_000).unwrap();
    registry.register_link(503, 12, 77, String::from("$d"), 60, 1_000).unwrap();
    assert_eq!(registry.expired_links(1_000), Vec::<u128>::new());
    assert_eq!(registry.expired_links(1_030), vec![502]);
    assert_eq!(registry.expired_links(1_060), vec![500, 502, 503]);
    assert_eq!(registry.expired_links(5_000), vec![500, 501, 502, 503]);
    assert_eq!(registry.reclaimable_files(1_000), Vec::<u128>::new());
    assert_eq!(registry.reclaimable_files(1_030), Vec::<u128>::new());
    assert_eq!(registry.reclaimable_files(1_060), vec![10, 12]);
    assert_eq!(registry.reclaimable_files(5_000), vec![10, 11, 12]);
    // Listing changes nothing.
    assert_eq!(registry.link_count(), 4);
    assert_eq!(registry.file_count(), 4);
    let doomed_links = registry.expired_links(1_060);
    let doomed_files = registry.reclaimable_files(1_060);
    let report = registry.delete_expired_files(1_060);
    assert_eq!(report.removed_links, doomed_links.len());
    assert_eq!(report.removed_files, doomed_files.len());
    for id in doomed_links {
        assert!(registry.link(id).is_none());
    }
    for id in doomed_files {
        assert!(registry.file(id).is_none());
    }
    assert!(registry.file(11).is_some());
    assert!(registry.file(13).is_some());
    assert!(registry.link(501).is_some());
}
