//! Session issuance and validation against a simulated clock.

use polls::auth::{User, UserRole};
use polls::session::SessionError;
use polls::state::{AppState, LoginError};

fn state_with_user(name: &str, password: &str, role: UserRole) -> AppState {
    let mut state = AppState::restore(vec![7u8; 64], 0);
    let user = User::new(role, String::from(password));
    let ok = state.restore_user(
        String::from(name),
        role,
        user.password_salt().clone(),
        user.password_hash().clone(),
    );
    assert!(ok);
    state
}

#[test]
fn issue_then_validate_returns_the_owner() {
    let mut state = state_with_user("alice", "pw", UserRole::General);
    let token = state.new_user_session_at(String::from("alice"), 1_000);
    let identity = state.validate_session(&token, 1_000).unwrap();
    assert_eq!(identity.username, "alice");
    assert_eq!(identity.role, UserRole::General);
}

#[test]
fn tokens_are_long_and_alphanumeric() {
    let mut state = state_with_user("alice", "pw", UserRole::General);
    let token = state.new_user_session_at(String::from("alice"), 0);
    assert_eq!(token.len(), 32);
    assert!(token.bytes().all(|b| b.is_ascii_alphanumeric()));
}

#[test]
fn validation_fails_expired_once_the_clock_passes_expiration() {
    let mut state = state_with_user("alice", "pw", UserRole::General);
    let issued_at = 1_000i64;
    let token = state.new_user_session_at(String::from("alice"), issued_at);
    let seven_days = 7 * 24 * 60 * 60;
    assert!(state.validate_session(&token, issued_at + seven_days - 1).is_ok());
    assert_eq!(
        state.validate_session(&token, issued_at + seven_days),
        Err(SessionError::Expired),
        "a session is expired exactly at its expiration instant"
    );
    assert_eq!(state.validate_session(&token, issued_at + 8 * 24 * 60 * 60), Err(SessionError::Expired));
}

#[test]
fn unknown_tokens_are_invalid() {
    let state = state_with_user("alice", "pw", UserRole::General);
    assert_eq!(
        state.validate_session(&String::from("nosuchtoken"), 0),
        Err(SessionError::InvalidToken)
    );
}

#[test]
fn expired_records_stay_in_the_map() {
    let mut state = state_with_user("alice", "pw", UserRole::General);
    let token = state.new_user_session_at(String::from("alice"), 0);
    let far_later = 100 * 24 * 60 * 60;
    assert_eq!(state.validate_session(&token, far_later), Err(SessionError::Expired));
    // The record was not removed by validation: it still reads as
    // expired rather than invalid, and counts among the entries.
    assert_eq!(state.validate_session(&token, far_later), Err(SessionError::Expired));
    assert_eq!(state.sessions_map().len(), 1);
}

#[test]
fn login_issues_a_session_for_good_credentials() {
    let mut state = state_with_user("alice", "pw", UserRole::General);
    let token = state.login_at(String::from("alice"), String::from("pw"), 50).unwrap();
    let identity = state.validate_session(&token, 51).unwrap();
    assert_eq!(identity.username, "alice");
}

#[test]
fn login_gives_one_answer_for_bad_password_and_unknown_user() {
    let mut state = state_with_user("alice", "pw", UserRole::General);
    assert_eq!(
        state.login_at(String::from("alice"), String::from("wrong"), 50),
        Err(LoginError::UnknownUserOrBadPassword)
    );
    assert_eq!(
        state.login_at(String::from("bob"), String::from("pw"), 50),
        Err(LoginError::UnknownUserOrBadPassword)
    );
    assert_eq!(state.sessions_map().len(), 0);
}

#[test]
fn restored_session_validates_like_an_issued_one() {
    let mut state = state_with_user("alice", "pw", UserRole::General);
    state.restore_session(String::from("oldtoken"), String::from("alice"), 500);
    assert!(state.validate_session(&String::from("oldtoken"), 499).is_ok());
    assert_eq!(
        state.validate_session(&String::from("oldtoken"), 500),
        Err(SessionError::Expired)
    );
}

#[test]
fn session_for_a_vanished_user_is_invalid() {
    let mut state = AppState::restore(vec![7u8; 64], 0);
    state.restore_session(String::from("orphan"), String::from("ghost"), i64::MAX);
    assert_eq!(
        state.validate_session(&String::from("orphan"), 0),
        Err(SessionError::InvalidToken)
    );
}
