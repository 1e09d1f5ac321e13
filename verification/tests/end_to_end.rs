//! The whole path a request takes: bootstrap, login, signed cookie,
//! authenticated request, and expiration under a simulated clock.

use polls::auth::UserRole;
use polls::codec::encode_cookie;
use polls::state::{AppState, AuthError, LoginError};

const DAY: i64 = 24 * 60 * 60;

#[test]
fn bootstrap_login_authenticate_and_expire() {
    let (mut state, admin_password) = AppState::bootstrap();
    assert!(admin_password.len() >= 16);
    assert!(admin_password.bytes().all(|b| b.is_ascii_alphanumeric()));

    let login_time = 1_700_000_000i64;
    let token = state
        .login_at(String::from("admin"), admin_password, login_time)
        .unwrap();

    let cookie = encode_cookie(&token, state.signing_key());
    let identity = state.authenticate_request(Some(cookie.as_str()), login_time + 1).unwrap();
    assert_eq!(identity.username, "admin");
    assert_eq!(identity.role, UserRole::Admin);

    assert_eq!(
        state.authenticate_request(Some(cookie.as_str()), login_time + 8 * DAY),
        Err(AuthError::Expired)
    );
}

#[test]
fn bootstrap_rejects_a_wrong_admin_password() {
    let (mut state, _admin_password) = AppState::bootstrap();
    assert_eq!(
        state.login_at(String::from("admin"), String::from("notthepassword"), 0),
        Err(LoginError::UnknownUserOrBadPassword)
    );
}

#[test]
fn bootstrap_state_starts_empty_but_for_the_admin() {
    let (state, _admin_password) = AppState::bootstrap();
    assert_eq!(state.users_map().len(), 1);
    assert_eq!(state.sessions_map().len(), 0);
    assert_eq!(state.polls_map().len(), 0);
    assert_eq!(state.counter(), 0);
    assert_eq!(state.signing_key().len(), 64);
}

#[test]
fn request_without_cookie_is_told_apart_from_bad_cookie() {
    let (mut state, admin_password) = AppState::bootstrap();
    let token = state.login_at(String::from("admin"), admin_password, 0).unwrap();
    let cookie = encode_cookie(&token, state.signing_key());

    assert_eq!(state.authenticate_request(None, 1), Err(AuthError::NoCookiePresent));

    let mut chars: Vec<char> = cookie.chars().collect();
    chars[3] = if chars[3] == '0' { '1' } else { '0' };
    let tampered: String = chars.iter().collect();
    assert_eq!(
        state.authenticate_request(Some(tampered.as_str()), 1),
        Err(AuthError::TamperedOrInvalid)
    );

    // A verified cookie whose token was never issued is invalid rather
    // than tampered.
    let forged_with_key = encode_cookie("neverissuedtoken", state.signing_key());
    assert_eq!(
        state.authenticate_request(Some(forged_with_key.as_str()), 1),
        Err(AuthError::InvalidToken)
    );
}

#[test]
fn cookie_signed_with_another_key_never_reaches_the_session_map() {
    let (mut state, admin_password) = AppState::bootstrap();
    let token = state.login_at(String::from("admin"), admin_password, 0).unwrap();
    let other_key = vec![42u8; 64];
    let cookie = encode_cookie(&token, &other_key);
    assert_eq!(
        state.authenticate_request(Some(cookie.as_str()), 1),
        Err(AuthError::TamperedOrInvalid)
    );
}
