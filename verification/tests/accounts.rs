use secure_storage_backend::models::User;
use secure_storage_backend::utils::password::{compare_password, HashError, VerifyError};

fn registered() -> User {
    User::register(7, String::from("Ada"), String::from("ada@example.org"), "hunter2X", 1_000)
        .unwrap()
}

#[test]
fn register_hashes_the_password() {
    let user = registered();
    assert_eq!(user.id, 7);
    assert_eq!(user.name, "Ada");
    assert_eq!(user.email, "ada@example.org");
    assert_eq!(user.public_key, None);
    assert_eq!(user.created_at, 1_000);
    assert_eq!(user.updated_at, 1_000);
    assert_ne!(user.password, "hunter2X");
    assert_eq!(compare_password("hunter2X", &user.password), Ok(true));
}

#[test]
fn register_rejects_passwords_outside_the_policy() {
    let short = User::register(7, String::from("Ada"), String::from("a@b.c"), "short", 1_000);
    assert_eq!(short.err(), Some(HashError::TooShort));
    let long = User::register(7, String::from("Ada"), String::from("a@b.c"), &"a".repeat(65), 0);
    assert_eq!(long.err(), Some(HashError::TooLong));
}

#[test]
fn verify_password_compares_with_the_account_hash() {
    let user = registered();
    assert_eq!(user.verify_password("hunter2X"), Ok(true));
    assert_eq!(user.verify_password("hunter2Y"), Ok(false));
    assert_eq!(user.verify_password("short"), Err(VerifyError::TooShort));
    let mut broken = registered();
    broken.password = String::from("not a hash");
    assert_eq!(broken.verify_password("hunter2X"), Err(VerifyError::MalformedHash));
}

#[test]
fn change_password_replaces_the_hash() {
    let mut user = registered();
    let before = user.password.clone();
    assert_eq!(user.change_password("a new password", 2_000), Ok(()));
    assert_ne!(user.password, before);
    assert_eq!(user.updated_at, 2_000);
    assert_eq!(user.created_at, 1_000);
    assert_eq!(user.name, "Ada");
    assert_eq!(user.email, "ada@example.org");
    assert_eq!(user.id, 7);
    assert_eq!(user.verify_password("a new password"), Ok(true));
    assert_eq!(user.verify_password("hunter2X"), Ok(false));
}

#[test]
fn a_rejected_password_change_leaves_the_account_alone() {
    let mut user = registered();
    let before = user.password.clone();
    assert_eq!(user.change_password("short", 2_000), Err(HashError::TooShort));
    assert_eq!(user.change_password(&"a".repeat(65), 2_000), Err(HashError::TooLong));
    assert_eq!(user.password, before);
    assert_eq!(user.updated_at, 1_000);
    assert_eq!(user.verify_password("hunter2X"), Ok(true));
}
