//! Session records: an opaque random token maps to the owning user and
//! an absolute expiration time, in whole seconds since the Unix epoch.
//! A record past its expiration is treated as absent but stays in the
//! map; time alone drives that transition.

use vstd::prelude::*;
use crate::auth::Username;

verus! {

/// Characters in a session token. At roughly six bits of entropy per
/// alphanumeric character this gives the token far more than 128 bits.
pub const TOKEN_LENGTH: usize = 32;

/// How long an issued session lives: seven days, in seconds.
pub const SESSION_SECONDS: i64 = 604800;

pub type SessionId = String;

/// One issued session.
pub struct UserSession {
    pub expiration: i64,
    pub username: Username,
}

/// Why a token was turned away.
#[derive(Clone, Copy, PartialEq, Eq, Structural, Debug)]
pub enum SessionError {
    InvalidToken,
    Expired,
}

/// When a session issued now lapses: seven days on, held at the largest
/// representable time where the sum would not fit.
pub open spec fn session_expiration(now: i64) -> i64 {
    if now + SESSION_SECONDS <= i64::MAX {
        (now + SESSION_SECONDS) as i64
    } else {
        i64::MAX
    }
}

/// A session is active strictly before its expiration and not after.
pub open spec fn session_active(session: UserSession, now: i64) -> bool {
    now < session.expiration
}

} // verus!
