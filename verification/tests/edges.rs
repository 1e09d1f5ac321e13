//! Edge cases: repeated keys replace earlier bindings, the id counter
//! near the top of its range, and the expiration held at the largest
//! representable time.

use polls::auth::{User, UserRole};
use polls::models::Vote;
use polls::session::SessionError;
use polls::state::AppState;

#[test]
fn restoring_a_user_again_replaces_the_record() {
    let mut state = AppState::restore(vec![0u8; 64], 0);
    let old_user = User::new(UserRole::General, String::from("oldpw"));
    let new_user = User::new(UserRole::Admin, String::from("newpw"));
    assert!(state.restore_user(
        String::from("alice"),
        UserRole::General,
        old_user.password_salt().clone(),
        old_user.password_hash().clone(),
    ));
    assert!(state.restore_user(
        String::from("alice"),
        UserRole::Admin,
        new_user.password_salt().clone(),
        new_user.password_hash().clone(),
    ));
    assert_eq!(state.users_map().len(), 1);
    assert!(state.login_at(String::from("alice"), String::from("oldpw"), 0).is_err());
    let token = state.login_at(String::from("alice"), String::from("newpw"), 0).unwrap();
    let identity = state.validate_session(&token, 1).unwrap();
    assert_eq!(identity.role, UserRole::Admin);
}

#[test]
fn restoring_a_session_again_replaces_the_record() {
    let mut state = AppState::restore(vec![0u8; 64], 0);
    state.restore_session(String::from("tok"), String::from("a"), 100);
    state.restore_session(String::from("tok"), String::from("b"), 200);
    assert_eq!(state.sessions_map().len(), 1);
    let record = state.sessions_map().get(&String::from("tok")).unwrap();
    assert_eq!(record.username, "b");
    assert_eq!(record.expiration, 200);
}

#[test]
fn restoring_a_poll_again_replaces_the_record() {
    let mut state = AppState::restore(vec![0u8; 64], 0);
    state
        .restore_poll(1, vec![String::from("a")], 0, 5, vec![Vote(vec![3])])
        .unwrap();
    state.restore_poll(1, vec![String::from("a")], 0, 5, vec![]).unwrap();
    assert_eq!(state.polls_map().len(), 1);
    assert_eq!(state.list_votes(1).unwrap().len(), 0);
}

#[test]
fn counter_reaches_the_top_of_its_range() {
    let mut state = AppState::restore(vec![0u8; 64], usize::MAX - 1);
    assert_eq!(state.get_new_id(), usize::MAX);
    assert_eq!(state.counter(), usize::MAX);
}

#[test]
fn expiration_is_held_at_the_largest_representable_time() {
    let mut state = AppState::restore(vec![0u8; 64], 0);
    let user = User::new(UserRole::General, String::from("pw"));
    assert!(state.restore_user(
        String::from("alice"),
        UserRole::General,
        user.password_salt().clone(),
        user.password_hash().clone(),
    ));
    let token = state.new_user_session_at(String::from("alice"), i64::MAX - 10);
    assert!(state.validate_session(&token, i64::MAX - 1).is_ok());
    assert_eq!(state.validate_session(&token, i64::MAX), Err(SessionError::Expired));
}
