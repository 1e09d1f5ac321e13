//! Credential storage and verification, exercised end to end with the
//! real digest and random generator.

use polls::auth::{User, UserRole};

#[test]
fn verify_accepts_the_creating_password() {
    let user = User::new(UserRole::General, String::from("hunter2"));
    assert!(user.authenticate(String::from("hunter2")));
}

#[test]
fn verify_rejects_other_passwords() {
    let user = User::new(UserRole::General, String::from("hunter2"));
    assert!(!user.authenticate(String::from("hunter3")));
    assert!(!user.authenticate(String::from("")));
    assert!(!user.authenticate(String::from("hunter2 ")));
    assert!(!user.authenticate(String::from("Hunter2")));
}

#[test]
fn verify_accepts_empty_password_only_for_empty() {
    let user = User::new(UserRole::Admin, String::from(""));
    assert!(user.authenticate(String::from("")));
    assert!(!user.authenticate(String::from("x")));
}

#[test]
fn same_password_twice_gives_different_salts_and_hashes() {
    let first = User::new(UserRole::General, String::from("correct horse"));
    let second = User::new(UserRole::General, String::from("correct horse"));
    assert_ne!(first.password_salt(), second.password_salt());
    assert_ne!(first.password_hash(), second.password_hash());
}

#[test]
fn salts_do_not_repeat_across_a_sample() {
    let mut salts: Vec<Vec<u8>> = Vec::new();
    for _ in 0..32 {
        let user = User::new(UserRole::General, String::from("pw"));
        let salt = user.password_salt().clone();
        assert!(!salts.contains(&salt));
        salts.push(salt);
    }
}

#[test]
fn stored_parts_have_the_fixed_lengths() {
    let user = User::new(UserRole::General, String::from("pw"));
    assert_eq!(user.password_salt().len(), 16);
    assert_eq!(user.password_hash().len(), 64);
    assert_eq!(user.role(), UserRole::General);
}

#[test]
fn from_parts_round_trips_a_record() {
    let user = User::new(UserRole::Admin, String::from("secret"));
    let rebuilt = User::from_parts(
        UserRole::Admin,
        user.password_salt().clone(),
        user.password_hash().clone(),
    )
    .unwrap();
    assert!(rebuilt.authenticate(String::from("secret")));
    assert!(!rebuilt.authenticate(String::from("wrong")));
    assert_eq!(rebuilt.role(), UserRole::Admin);
}

#[test]
fn from_parts_refuses_wrong_lengths() {
    assert!(User::from_parts(UserRole::General, vec![0u8; 15], vec![0u8; 64]).is_none());
    assert!(User::from_parts(UserRole::General, vec![0u8; 16], vec![0u8; 63]).is_none());
    assert!(User::from_parts(UserRole::General, vec![], vec![]).is_none());
    assert!(User::from_parts(UserRole::General, vec![0u8; 16], vec![0u8; 64]).is_some());
}
