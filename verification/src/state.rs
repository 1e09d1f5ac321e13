//! The process-wide shared state: the user, session and poll maps, the
//! signing key and the id counter, together with the operations every
//! request path goes through. A caller holds the whole state under one
//! lock for the duration of one operation; each operation here is a
//! short in-memory step with an exact contract.

use vstd::prelude::*;
use vstd::string::StringExecFns;
use crate::auth::{AuthenticatedUser, User, UserRole, Username, HASH_LENGTH, SALT_LENGTH};
use crate::codec::{decode_request_cookie, spec_decode, CodecError};
use crate::crypto::{all_alphanumeric, current_timestamp, random_alphanumeric, random_bytes};
use crate::models::{Poll, PollCreationRequest, PollMetadata, PollMetadataV, Vote, VotingError};
use crate::session::{
    session_active, session_expiration, SessionError, SessionId, UserSession, SESSION_SECONDS,
    TOKEN_LENGTH,
};
use crate::store::{IdMap, StrMap};

verus! {

/// Bytes in the signing key generated at bootstrap.
pub const KEY_LENGTH: usize = 64;

/// Characters in the password generated for the bootstrap admin.
pub const ADMIN_PASSWORD_LENGTH: usize = 16;

/// Why an inbound request carried no usable identity. Which credential
/// part failed a login is never told apart; expired and invalid tokens
/// may be, since neither reveals secret material.
#[derive(Clone, Copy, PartialEq, Eq, Structural, Debug)]
pub enum AuthError {
    NoCookiePresent,
    TamperedOrInvalid,
    InvalidToken,
    Expired,
}

/// Why a login was refused: one answer on purpose, so that an unknown
/// username cannot be told apart from a wrong password.
#[derive(Clone, Copy, PartialEq, Eq, Structural, Debug)]
pub enum LoginError {
    UnknownUserOrBadPassword,
}

/// Why a ballot could not be added through the shared state.
#[derive(Clone, Copy, PartialEq, Eq, Structural, Debug)]
pub enum AddVoteError {
    PollNotFound,
    Vote(VotingError),
}

/// Why a state snapshot could not be written.
#[derive(Debug)]
pub enum SaveStateError {
    CreateFileError,
    WriteFileError,
}

/// The aggregate the process shares: all maps and counters live here and
/// are reached only through the operations below.
pub struct AppState {
    polls: IdMap<Poll>,
    users: StrMap<User>,
    user_sessions: StrMap<UserSession>,
    key: Vec<u8>,
    poll_counter: usize,
}

impl AppState {
    pub closed spec fn spec_polls_map(&self) -> IdMap<Poll> {
        self.polls
    }

    pub closed spec fn spec_users_map(&self) -> StrMap<User> {
        self.users
    }

    pub closed spec fn spec_sessions_map(&self) -> StrMap<UserSession> {
        self.user_sessions
    }

    pub open spec fn spec_polls(&self) -> Map<usize, Poll> {
        self.spec_polls_map()@
    }

    pub open spec fn spec_users(&self) -> Map<Seq<char>, User> {
        self.spec_users_map()@
    }

    pub open spec fn spec_sessions(&self) -> Map<Seq<char>, UserSession> {
        self.spec_sessions_map()@
    }

    pub closed spec fn spec_key(&self) -> Seq<u8> {
        self.key@
    }

    pub closed spec fn spec_counter(&self) -> usize {
        self.poll_counter
    }

    /// The poll entries in storage order, for listing.
    pub closed spec fn spec_poll_entries(&self) -> Seq<(usize, Poll)> {
        self.polls.entry_seq()
    }

    /// Every map keeps its keys distinct, every stored user record is
    /// well formed, and every stored poll accepts each of its ballots and
    /// sits under its own id.
    pub open spec fn wf(&self) -> bool {
        &&& self.spec_polls_map().wf()
        &&& self.spec_users_map().wf()
        &&& self.spec_sessions_map().wf()
        &&& forall|k: Seq<char>|
            self.spec_users().contains_key(k) ==> (#[trigger] self.spec_users()[k]).wf()
        &&& forall|id: usize|
            self.spec_polls().contains_key(id) ==> (#[trigger] self.spec_polls()[id])@.wf()
                && self.spec_polls()[id]@.metadata.id == id
    }

    proof fn lemma_wf_transfer(a: AppState, b: AppState)
        requires
            a.wf(),
            b.spec_polls_map() == a.spec_polls_map(),
            b.spec_users_map() == a.spec_users_map(),
            b.spec_sessions_map() == a.spec_sessions_map(),
        ensures
            b.wf(),
    {
        assert forall|k: Seq<char>| b.spec_users().contains_key(k) implies (
        #[trigger] b.spec_users()[k]).wf() by {
            assert(a.spec_users().contains_key(k));
            assert(a.spec_users()[k].wf());
        }
        assert forall|id: usize| b.spec_polls().contains_key(id) implies (
        #[trigger] b.spec_polls()[id])@.wf() && b.spec_polls()[id]@.metadata.id == id by {
            assert(a.spec_polls().contains_key(id));
            assert(a.spec_polls()[id]@.wf() && a.spec_polls()[id]@.metadata.id == id);
        }
    }

    pub fn polls_map(&self) -> (r: &IdMap<Poll>)
        ensures
            *r == self.spec_polls_map(),
    {
        &self.polls
    }

    pub fn users_map(&self) -> (r: &StrMap<User>)
        ensures
            *r == self.spec_users_map(),
    {
        &self.users
    }

    pub fn sessions_map(&self) -> (r: &StrMap<UserSession>)
        ensures
            *r == self.spec_sessions_map(),
    {
        &self.user_sessions
    }

    pub fn signing_key(&self) -> (r: &Vec<u8>)
        ensures
            r@ == self.spec_key(),
    {
        &self.key
    }

    pub fn counter(&self) -> (r: usize)
        ensures
            r == self.spec_counter(),
    {
        self.poll_counter
    }

    /// Hands out the next poll id: the counter moves up by one and the
    /// new value is the id, so every issued id is strictly greater than
    /// all before it.
    pub fn get_new_id(&mut self) -> (r: usize)
        requires
            old(self).spec_counter() < usize::MAX,
        ensures
            r == old(self).spec_counter() + 1,
            final(self).spec_counter() == r,
            final(self).spec_polls_map() == old(self).spec_polls_map(),
            final(self).spec_users_map() == old(self).spec_users_map(),
            final(self).spec_sessions_map() == old(self).spec_sessions_map(),
            final(self).spec_key() == old(self).spec_key(),
            old(self).wf() ==> final(self).wf(),
    {
        self.poll_counter = self.poll_counter + 1;
        proof {
            if old(self).wf() {
                Self::lemma_wf_transfer(*old(self), *self);
            }
        }
        self.poll_counter
    }

    /// Issues a fresh random session token for the user, expiring seven
    /// days after the given time.
    pub fn new_user_session_at(&mut self, username: Username, now: i64) -> (r: SessionId)
        requires
            old(self).wf(),
        ensures
            final(self).wf(),
            r@.len() == TOKEN_LENGTH,
            all_alphanumeric(r@),
            final(self).spec_sessions() == old(self).spec_sessions().insert(
                r@,
                (UserSession { expiration: session_expiration(now), username }),
            ),
            final(self).spec_polls_map() == old(self).spec_polls_map(),
            final(self).spec_users_map() == old(self).spec_users_map(),
            final(self).spec_key() == old(self).spec_key(),
            final(self).spec_counter() == old(self).spec_counter(),
    {
        let token = random_alphanumeric(TOKEN_LENGTH);
        let expiration: i64 = if now <= i64::MAX - SESSION_SECONDS {
            now + SESSION_SECONDS
        } else {
            i64::MAX
        };
        proof {
            assert(expiration == session_expiration(now));
        }
        self.user_sessions.insert(token.clone(), UserSession { expiration, username });
        proof {
            assert(self.spec_polls_map().wf() && self.spec_users_map().wf()
                && self.spec_sessions_map().wf());
            assert forall|k: Seq<char>| self.spec_users().contains_key(k) implies (
            #[trigger] self.spec_users()[k]).wf() by {
                assert(old(self).spec_users()[k].wf());
            }
            assert forall|id: usize| self.spec_polls().contains_key(id) implies (
            #[trigger] self.spec_polls()[id])@.wf() && self.spec_polls()[id]@.metadata.id == id by {
                assert(old(self).spec_polls()[id]@.wf() && old(self).spec_polls()[id]@.metadata.id
                    == id);
            }
            assert(self.wf());
        }
        token
    }

    /// Issues a session against the wall clock. The expiration is seven
    /// days past whatever the clock read.
    pub fn new_user_session(&mut self, username: Username) -> (r: SessionId)
        requires
            old(self).wf(),
        ensures
            final(self).wf(),
            r@.len() == TOKEN_LENGTH,
            all_alphanumeric(r@),
            final(self).spec_sessions().contains_key(r@),
            final(self).spec_sessions()[r@].username == username,
            final(self).spec_sessions() == old(self).spec_sessions().insert(
                r@,
                final(self).spec_sessions()[r@],
            ),
            final(self).spec_polls_map() == old(self).spec_polls_map(),
            final(self).spec_users_map() == old(self).spec_users_map(),
            final(self).spec_key() == old(self).spec_key(),
            final(self).spec_counter() == old(self).spec_counter(),
    {
        let now = current_timestamp();
        self.new_user_session_at(username, now)
    }

    /// What looking a token up at a given time yields: an unknown token
    /// is invalid; a known one whose expiration has been reached is
    /// expired; otherwise the owning user's name and role come back, and
    /// a token whose owner has vanished from the user map counts as
    /// invalid.
    pub open spec fn session_outcome(&self, token: Seq<char>, now: i64) -> Result<
        (Seq<char>, UserRole),
        SessionError,
    > {
        if !self.spec_sessions().contains_key(token) {
            Err(SessionError::InvalidToken)
        } else if !session_active(self.spec_sessions()[token], now) {
            Err(SessionError::Expired)
        } else if !self.spec_users().contains_key(self.spec_sessions()[token].username@) {
            Err(SessionError::InvalidToken)
        } else {
            Ok(
                (
                    self.spec_sessions()[token].username@,
                    self.spec_users()[self.spec_sessions()[token].username@].spec_role(),
                ),
            )
        }
    }

    /// Validates a session token at the given time. The record is never
    /// removed here: an expired one simply reads as expired.
    pub fn validate_session(&self, token: &String, now: i64) -> (r: Result<
        AuthenticatedUser,
        SessionError,
    >)
        requires
            self.wf(),
        ensures
            match r {
                Ok(id) => self.session_outcome(token@, now) == Ok::<(Seq<char>, UserRole), SessionError>(
                    (id.username@, id.role),
                ),
                Err(e) => self.session_outcome(token@, now) == Err::<(Seq<char>, UserRole), SessionError>(
                    e,
                ),
            },
    {
        let session = match self.user_sessions.get(token) {
            Some(s) => s,
            None => {
                return Err(SessionError::InvalidToken);
            },
        };
        if session.expiration <= now {
            return Err(SessionError::Expired);
        }
        let user = match self.users.get(&session.username) {
            Some(u) => u,
            None => {
                return Err(SessionError::InvalidToken);
            },
        };
        Ok(AuthenticatedUser { username: session.username.clone(), role: user.role() })
    }

    /// Whether the named user exists and the password matches their
    /// stored credentials.
    pub open spec fn spec_credentials_ok(&self, username: Seq<char>, password: Seq<char>) -> bool {
        self.spec_users().contains_key(username) && self.spec_users()[username].authenticates(
            password,
        )
    }

    /// Logs in against the stored credentials; on success a fresh session
    /// expiring seven days after the given time is issued. One error
    /// covers unknown user and wrong password alike.
    pub fn login_at(&mut self, username: Username, password: String, now: i64) -> (r: Result<
        SessionId,
        LoginError,
    >)
        requires
            old(self).wf(),
        ensures
            final(self).wf(),
            match r {
                Ok(token) => {
                    &&& old(self).spec_credentials_ok(username@, password@)
                    &&& token@.len() == TOKEN_LENGTH
                    &&& all_alphanumeric(token@)
                    &&& final(self).spec_sessions() == old(self).spec_sessions().insert(
                        token@,
                        (UserSession { expiration: session_expiration(now), username }),
                    )
                    &&& final(self).spec_polls_map() == old(self).spec_polls_map()
                    &&& final(self).spec_users_map() == old(self).spec_users_map()
                    &&& final(self).spec_key() == old(self).spec_key()
                    &&& final(self).spec_counter() == old(self).spec_counter()
                },
                Err(e) => {
                    &&& e == LoginError::UnknownUserOrBadPassword
                    &&& !old(self).spec_credentials_ok(username@, password@)
                    &&& *final(self) == *old(self)
                },
            },
    {
        let ok = match self.users.get(&username) {
            Some(user) => user.authenticate(password),
            None => false,
        };
        if ok {
            Ok(self.new_user_session_at(username, now))
        } else {
            Err(LoginError::UnknownUserOrBadPassword)
        }
    }

    /// Logs in against the wall clock.
    pub fn login(&mut self, username: Username, password: String) -> (r: Result<
        SessionId,
        LoginError,
    >)
        requires
            old(self).wf(),
        ensures
            final(self).wf(),
            match r {
                Ok(token) => {
                    &&& old(self).spec_credentials_ok(username@, password@)
                    &&& token@.len() == TOKEN_LENGTH
                    &&& all_alphanumeric(token@)
                    &&& final(self).spec_sessions().contains_key(token@)
                    &&& final(self).spec_sessions()[token@].username == username
                    &&& final(self).spec_sessions() == old(self).spec_sessions().insert(
                        token@,
                        final(self).spec_sessions()[token@],
                    )
                    &&& final(self).spec_polls_map() == old(self).spec_polls_map()
                    &&& final(self).spec_users_map() == old(self).spec_users_map()
                    &&& final(self).spec_key() == old(self).spec_key()
                    &&& final(self).spec_counter() == old(self).spec_counter()
                },
                Err(e) => {
                    &&& e == LoginError::UnknownUserOrBadPassword
                    &&& !old(self).spec_credentials_ok(username@, password@)
                    &&& *final(self) == *old(self)
                },
            },
    {
        let now = current_timestamp();
        self.login_at(username, password, now)
    }

    /// The cookie of a request, seen as the character sequence it carries,
    /// if any.
    pub open spec fn opt_cookie_view(cookie: Option<&str>) -> Option<Seq<char>> {
        match cookie {
            Some(c) => Some(c@),
            None => None,
        }
    }

    /// What authenticating a request yields: no cookie, an unverifiable
    /// cookie, and then whatever the session lookup says of the enclosed
    /// token. An unverifiable cookie never reaches the session map.
    pub open spec fn request_outcome(&self, cookie: Option<Seq<char>>, now: i64) -> Result<
        (Seq<char>, UserRole),
        AuthError,
    > {
        match cookie {
            None => Err(AuthError::NoCookiePresent),
            Some(c) => match spec_decode(c, self.spec_key()) {
                None => Err(AuthError::TamperedOrInvalid),
                Some(token) => match self.session_outcome(token, now) {
                    Ok(identity) => Ok(identity),
                    Err(SessionError::InvalidToken) => Err(AuthError::InvalidToken),
                    Err(SessionError::Expired) => Err(AuthError::Expired),
                },
            },
        }
    }

    /// The single entry point every protected operation calls first:
    /// decodes the cookie, validates the enclosed token at the given
    /// time, and hands back the identity or says exactly what failed.
    pub fn authenticate_request(&self, cookie: Option<&str>, now: i64) -> (r: Result<
        AuthenticatedUser,
        AuthError,
    >)
        requires
            self.wf(),
        ensures
            match r {
                Ok(id) => self.request_outcome(Self::opt_cookie_view(cookie), now) == Ok::<
                    (Seq<char>, UserRole),
                    AuthError,
                >((id.username@, id.role)),
                Err(e) => self.request_outcome(Self::opt_cookie_view(cookie), now) == Err::<
                    (Seq<char>, UserRole),
                    AuthError,
                >(e),
            },
    {
        let token = match decode_request_cookie(cookie, &self.key) {
            Ok(t) => t,
            Err(CodecError::Missing) => {
                return Err(AuthError::NoCookiePresent);
            },
            Err(CodecError::TamperedOrInvalid) => {
                return Err(AuthError::TamperedOrInvalid);
            },
        };
        match self.validate_session(&token, now) {
            Ok(identity) => Ok(identity),
            Err(SessionError::InvalidToken) => Err(AuthError::InvalidToken),
            Err(SessionError::Expired) => Err(AuthError::Expired),
        }
    }

    /// Opens a poll under the next fresh id and stores it with no
    /// ballots.
    pub fn create_poll(&mut self, request: PollCreationRequest) -> (r: usize)
        requires
            old(self).wf(),
            old(self).spec_counter() < usize::MAX,
        ensures
            final(self).wf(),
            r == old(self).spec_counter() + 1,
            final(self).spec_counter() == r,
            final(self).spec_polls().contains_key(r),
            final(self).spec_polls()[r]@.metadata.id == r,
            final(self).spec_polls()[r]@.metadata.candidates == request.candidates.deep_view(),
            final(self).spec_polls()[r]@.metadata.min_score == request.min_score,
            final(self).spec_polls()[r]@.metadata.max_score == request.max_score,
            final(self).spec_polls()[r]@.votes == Seq::<Seq<u8>>::empty(),
            final(self).spec_polls() == old(self).spec_polls().insert(
                r,
                final(self).spec_polls()[r],
            ),
            final(self).spec_users_map() == old(self).spec_users_map(),
            final(self).spec_sessions_map() == old(self).spec_sessions_map(),
            final(self).spec_key() == old(self).spec_key(),
    {
        let id = self.get_new_id();
        let poll = Poll::new(id, request.candidates, request.min_score, request.max_score);
        self.polls.insert(id, poll);
        proof {
            assert forall|k: usize| self.spec_polls().contains_key(k) implies (
            #[trigger] self.spec_polls()[k])@.wf() && self.spec_polls()[k]@.metadata.id == k by {
                if k != id {
                    assert(old(self).spec_polls().contains_key(k));
                    assert(old(self).spec_polls()[k]@.wf());
                }
            }
            assert forall|k: Seq<char>| self.spec_users().contains_key(k) implies (
            #[trigger] self.spec_users()[k]).wf() by {
                assert(old(self).spec_users()[k].wf());
            }
            assert(self.wf());
        }
        id
    }

    /// The stored poll under an id, if any.
    pub fn get_poll(&self, poll_id: usize) -> (r: Option<&Poll>)
        requires
            self.wf(),
        ensures
            match r {
                Some(p) => self.spec_polls().contains_key(poll_id) && *p == self.spec_polls()[poll_id],
                None => !self.spec_polls().contains_key(poll_id),
            },
    {
        self.polls.get(poll_id)
    }

    /// Takes the poll under an id out of the state, if any.
    pub fn delete_poll(&mut self, poll_id: usize) -> (r: Option<Poll>)
        requires
            old(self).wf(),
        ensures
            final(self).wf(),
            match r {
                Some(p) => old(self).spec_polls().contains_key(poll_id) && p == old(
                    self,
                ).spec_polls()[poll_id] && final(self).spec_polls() == old(self).spec_polls().remove(
                    poll_id,
                ),
                None => !old(self).spec_polls().contains_key(poll_id) && final(self).spec_polls()
                    == old(self).spec_polls(),
            },
            final(self).spec_users_map() == old(self).spec_users_map(),
            final(self).spec_sessions_map() == old(self).spec_sessions_map(),
            final(self).spec_key() == old(self).spec_key(),
            final(self).spec_counter() == old(self).spec_counter(),
    {
        let r = self.polls.remove(poll_id);
        proof {
            assert forall|k: usize| self.spec_polls().contains_key(k) implies (
            #[trigger] self.spec_polls()[k])@.wf() && self.spec_polls()[k]@.metadata.id == k by {
                assert(old(self).spec_polls().contains_key(k));
                assert(old(self).spec_polls()[k]@.wf());
            }
            assert forall|k: Seq<char>| self.spec_users().contains_key(k) implies (
            #[trigger] self.spec_users()[k]).wf() by {
                assert(old(self).spec_users()[k].wf());
            }
            assert(self.wf());
        }
        r
    }

    /// Adds a ballot to the poll under an id: refuses an unknown poll,
    /// and otherwise accepts or rejects the ballot by the poll's own
    /// rules.
    pub fn add_vote(&mut self, poll_id: usize, vote: Vote) -> (r: Result<(), AddVoteError>)
        requires
            old(self).wf(),
        ensures
            final(self).wf(),
            match r {
                Ok(_) => {
                    &&& old(self).spec_polls().contains_key(poll_id)
                    &&& old(self).spec_polls()[poll_id]@.metadata.allows(vote@)
                    &&& final(self).spec_polls().contains_key(poll_id)
                    &&& final(self).spec_polls()[poll_id]@.metadata == old(
                        self,
                    ).spec_polls()[poll_id]@.metadata
                    &&& final(self).spec_polls()[poll_id]@.votes == old(
                        self,
                    ).spec_polls()[poll_id]@.votes.push(vote@)
                    &&& final(self).spec_polls() == old(self).spec_polls().insert(
                        poll_id,
                        final(self).spec_polls()[poll_id],
                    )
                },
                Err(AddVoteError::PollNotFound) => !old(self).spec_polls().contains_key(poll_id)
                    && final(self).spec_polls() == old(self).spec_polls(),
                Err(AddVoteError::Vote(VotingError::InvalidVoteLengthError)) => {
                    &&& old(self).spec_polls().contains_key(poll_id)
                    &&& vote@.len() != old(self).spec_polls()[poll_id]@.metadata.candidates.len()
                    &&& final(self).spec_polls() == old(self).spec_polls()
                },
                Err(AddVoteError::Vote(VotingError::OutsideScoreRangeError)) => {
                    &&& old(self).spec_polls().contains_key(poll_id)
                    &&& vote@.len() == old(self).spec_polls()[poll_id]@.metadata.candidates.len()
                    &&& !old(self).spec_polls()[poll_id]@.metadata.allows(vote@)
                    &&& final(self).spec_polls() == old(self).spec_polls()
                },
            },
            final(self).spec_users_map() == old(self).spec_users_map(),
            final(self).spec_sessions_map() == old(self).spec_sessions_map(),
            final(self).spec_key() == old(self).spec_key(),
            final(self).spec_counter() == old(self).spec_counter(),
    {
        let mut poll = match self.polls.remove(poll_id) {
            Some(p) => p,
            None => {
                proof {
                    assert(self.spec_polls() == old(self).spec_polls());
                    assert forall|k: usize| self.spec_polls().contains_key(k) implies (
                    #[trigger] self.spec_polls()[k])@.wf() && self.spec_polls()[k]@.metadata.id
                        == k by {
                        assert(old(self).spec_polls()[k]@.wf());
                    }
                    assert forall|k: Seq<char>| self.spec_users().contains_key(k) implies (
                    #[trigger] self.spec_users()[k]).wf() by {
                        assert(old(self).spec_users()[k].wf());
                    }
                    assert(self.wf());
                }
                return Err(AddVoteError::PollNotFound);
            },
        };
        let ghost removed = poll;
        let res = poll.add_vote(vote);
        proof {
            if res is Err {
                assert(poll == removed);
            }
            assert(old(self).spec_polls()[poll_id]@.wf());
            assert(old(self).spec_polls()[poll_id]@.metadata.id == poll_id);
        }
        self.polls.insert(poll_id, poll);
        proof {
            if res is Err {
                assert(self.spec_polls() =~= old(self).spec_polls());
            }
            assert forall|k: usize| self.spec_polls().contains_key(k) implies (
            #[trigger] self.spec_polls()[k])@.wf() && self.spec_polls()[k]@.metadata.id == k by {
                if k != poll_id {
                    assert(old(self).spec_polls().contains_key(k));
                    assert(old(self).spec_polls()[k]@.wf());
                } else {
                    assert(old(self).spec_polls()[poll_id]@.wf());
                }
            }
            assert forall|k: Seq<char>| self.spec_users().contains_key(k) implies (
            #[trigger] self.spec_users()[k]).wf() by {
                assert(old(self).spec_users()[k].wf());
            }
            assert(self.wf());
        }
        match res {
            Ok(_) => Ok(()),
            Err(e) => Err(AddVoteError::Vote(e)),
        }
    }

    /// The metadata of every stored poll, in storage order.
    pub fn list_polls(&self) -> (r: Vec<PollMetadata>)
        requires
            self.wf(),
        ensures
            r@.len() == self.spec_poll_entries().len(),
            forall|i: int|
                0 <= i < r@.len() ==> r@[i]@ == (#[trigger] self.spec_poll_entries()[i]).1@.metadata,
    {
        let entries = self.polls.entries();
        let n = entries.len();
        let mut r: Vec<PollMetadata> = Vec::new();
        let mut i: usize = 0;
        while i < n
            invariant
                n == entries@.len(),
                entries@ == self.spec_poll_entries(),
                i <= n,
                r@.len() == i,
                forall|j: int|
                    0 <= j < i ==> r@[j]@ == (#[trigger] self.spec_poll_entries()[j]).1@.metadata,
            decreases n - i,
        {
            r.push(entries[i].1.metadata().clone());
            i = i + 1;
        }
        r
    }

    /// The fresh state taken when no snapshot can be loaded: one admin
    /// user under a freshly generated password — handed back exactly once,
    /// never stored in recoverable form — and a fresh signing key.
    pub fn bootstrap() -> (r: (AppState, String))
        ensures
            r.0.wf(),
            r.1@.len() == ADMIN_PASSWORD_LENGTH,
            all_alphanumeric(r.1@),
            r.0.spec_users().contains_key("admin"@),
            r.0.spec_users()["admin"@].spec_role() == UserRole::Admin,
            r.0.spec_users()["admin"@].authenticates(r.1@),
            r.0.spec_users() == Map::<Seq<char>, User>::empty().insert(
                "admin"@,
                r.0.spec_users()["admin"@],
            ),
            r.0.spec_sessions() == Map::<Seq<char>, UserSession>::empty(),
            r.0.spec_polls() == Map::<usize, Poll>::empty(),
            r.0.spec_counter() == 0,
            r.0.spec_key().len() == KEY_LENGTH,
    {
        let admin_password = random_alphanumeric(ADMIN_PASSWORD_LENGTH);
        let admin = User::new(UserRole::Admin, admin_password.clone());
        let mut users = StrMap::new();
        users.insert(String::from_str("admin"), admin);
        let state = AppState {
            polls: IdMap::new(),
            users,
            user_sessions: StrMap::new(),
            key: random_bytes(KEY_LENGTH),
            poll_counter: 0,
        };
        proof {
            assert forall|k: Seq<char>| state.spec_users().contains_key(k) implies (
            #[trigger] state.spec_users()[k]).wf() by {
                assert(k == "admin"@);
            }
            assert(state.wf());
        }
        (state, admin_password)
    }

    /// A state with the given signing key and id counter and nothing
    /// else: what restoring a snapshot starts from.
    pub fn restore(key: Vec<u8>, poll_counter: usize) -> (r: AppState)
        ensures
            r.wf(),
            r.spec_key() == key@,
            r.spec_counter() == poll_counter,
            r.spec_polls() == Map::<usize, Poll>::empty(),
            r.spec_users() == Map::<Seq<char>, User>::empty(),
            r.spec_sessions() == Map::<Seq<char>, UserSession>::empty(),
    {
        AppState {
            polls: IdMap::new(),
            users: StrMap::new(),
            user_sessions: StrMap::new(),
            key,
            poll_counter,
        }
    }

    /// Puts one stored user record back; refuses parts of the wrong
    /// length, leaving the state as it was.
    pub fn restore_user(
        &mut self,
        username: Username,
        role: UserRole,
        salt: Vec<u8>,
        hash: Vec<u8>,
    ) -> (r: bool)
        requires
            old(self).wf(),
        ensures
            final(self).wf(),
            r == (salt@.len() == SALT_LENGTH && hash@.len() == HASH_LENGTH),
            r ==> {
                &&& final(self).spec_users().contains_key(username@)
                &&& final(self).spec_users()[username@].spec_role() == role
                &&& final(self).spec_users()[username@].salt() == salt@
                &&& final(self).spec_users()[username@].hash() == hash@
                &&& final(self).spec_users() == old(self).spec_users().insert(
                    username@,
                    final(self).spec_users()[username@],
                )
            },
            !r ==> *final(self) == *old(self),
            final(self).spec_polls_map() == old(self).spec_polls_map(),
            final(self).spec_sessions_map() == old(self).spec_sessions_map(),
            final(self).spec_key() == old(self).spec_key(),
            final(self).spec_counter() == old(self).spec_counter(),
    {
        match User::from_parts(role, salt, hash) {
            Some(user) => {
                self.users.insert(username, user);
                proof {
                    assert forall|k: Seq<char>| self.spec_users().contains_key(k) implies (
                    #[trigger] self.spec_users()[k]).wf() by {
                        if k != username@ {
                            assert(old(self).spec_users()[k].wf());
                        }
                    }
                    assert forall|id: usize| self.spec_polls().contains_key(id) implies (
                    #[trigger] self.spec_polls()[id])@.wf() && self.spec_polls()[id]@.metadata.id
                        == id by {
                        assert(old(self).spec_polls()[id]@.wf());
                    }
                    assert(self.wf());
                }
                true
            },
            None => false,
        }
    }

    /// Puts one stored session back; any expiration is acceptable, a
    /// lapsed one simply stays expired.
    pub fn restore_session(&mut self, token: SessionId, username: Username, expiration: i64)
        requires
            old(self).wf(),
        ensures
            final(self).wf(),
            final(self).spec_sessions() == old(self).spec_sessions().insert(
                token@,
                (UserSession { expiration, username }),
            ),
            final(self).spec_polls_map() == old(self).spec_polls_map(),
            final(self).spec_users_map() == old(self).spec_users_map(),
            final(self).spec_key() == old(self).spec_key(),
            final(self).spec_counter() == old(self).spec_counter(),
    {
        self.user_sessions.insert(token, UserSession { expiration, username });
        proof {
            assert forall|k: Seq<char>| self.spec_users().contains_key(k) implies (
            #[trigger] self.spec_users()[k]).wf() by {
                assert(old(self).spec_users()[k].wf());
            }
            assert forall|id: usize| self.spec_polls().contains_key(id) implies (
            #[trigger] self.spec_polls()[id])@.wf() && self.spec_polls()[id]@.metadata.id == id by {
                assert(old(self).spec_polls()[id]@.wf());
            }
            assert(self.wf());
        }
    }

    /// Puts one stored poll back under its own id, checking every stored
    /// ballot against the poll's rules; refuses the poll wholesale on the
    /// first ballot that breaks them, leaving the state as it was.
    pub fn restore_poll(
        &mut self,
        id: usize,
        candidates: Vec<String>,
        min_score: u8,
        max_score: u8,
        votes: Vec<Vote>,
    ) -> (r: Result<(), VotingError>)
        requires
            old(self).wf(),
        ensures
            final(self).wf(),
            match r {
                Ok(_) => {
                    &&& final(self).spec_polls().contains_key(id)
                    &&& final(self).spec_polls()[id]@.metadata.id == id
                    &&& final(self).spec_polls()[id]@.metadata.candidates
                        == candidates.deep_view()
                    &&& final(self).spec_polls()[id]@.metadata.min_score == min_score
                    &&& final(self).spec_polls()[id]@.metadata.max_score == max_score
                    &&& final(self).spec_polls()[id]@.votes == votes.deep_view()
                    &&& final(self).spec_polls() == old(self).spec_polls().insert(
                        id,
                        final(self).spec_polls()[id],
                    )
                },
                Err(e) => {
                    &&& *final(self) == *old(self)
                    &&& exists|i: int|
                        {
                            &&& 0 <= i < votes.deep_view().len()
                            &&& !(PollMetadataV {
                                id,
                                candidates: candidates.deep_view(),
                                min_score,
                                max_score,
                            }).allows(#[trigger] votes.deep_view()[i])
                            &&& match e {
                                VotingError::InvalidVoteLengthError => votes.deep_view()[i].len()
                                    != candidates.deep_view().len(),
                                VotingError::OutsideScoreRangeError => votes.deep_view()[i].len()
                                    == candidates.deep_view().len(),
                            }
                        }
                },
            },
            final(self).spec_users_map() == old(self).spec_users_map(),
            final(self).spec_sessions_map() == old(self).spec_sessions_map(),
            final(self).spec_key() == old(self).spec_key(),
            final(self).spec_counter() == old(self).spec_counter(),
    {
        let ghost meta = PollMetadataV {
            id,
            candidates: candidates.deep_view(),
            min_score,
            max_score,
        };
        let mut poll = Poll::new(id, candidates, min_score, max_score);
        let n = votes.len();
        let mut i: usize = 0;
        while i < n
            invariant
                n == votes@.len(),
                i <= n,
                self == old(self),
                old(self).wf(),
                meta == (PollMetadataV {
                    id,
                    candidates: candidates.deep_view(),
                    min_score,
                    max_score,
                }),
                poll@.metadata == meta,
                poll@.votes == votes.deep_view().subrange(0, i as int),
                poll@.wf(),
            decreases n - i,
        {
            let vote = votes[i].clone();
            proof {
                assert(vote@ == votes.deep_view()[i as int]);
            }
            match poll.add_vote(vote) {
                Ok(_) => {
                    proof {
                        assert(poll@.votes =~= votes.deep_view().subrange(0, (i + 1) as int));
                    }
                },
                Err(e) => {
                    proof {
                        assert(0 <= i < votes.deep_view().len());
                        assert(!meta.allows(votes.deep_view()[i as int]));
                        assert(self.wf());
                    }
                    return Err(e);
                },
            }
            i = i + 1;
        }
        proof {
            assert(poll@.votes =~= votes.deep_view());
        }
        self.polls.insert(id, poll);
        proof {
            assert forall|k: usize| self.spec_polls().contains_key(k) implies (
            #[trigger] self.spec_polls()[k])@.wf() && self.spec_polls()[k]@.metadata.id == k by {
                if k != id {
                    assert(old(self).spec_polls()[k]@.wf());
                }
            }
            assert forall|k: Seq<char>| self.spec_users().contains_key(k) implies (
            #[trigger] self.spec_users()[k]).wf() by {
                assert(old(self).spec_users()[k].wf());
            }
            assert(self.wf());
        }
        Ok(())
    }

    /// A copy of the ballots of the poll under an id, if any.
    pub fn list_votes(&self, poll_id: usize) -> (r: Option<Vec<Vote>>)
        requires
            self.wf(),
        ensures
            match r {
                Some(votes) => self.spec_polls().contains_key(poll_id) && votes.deep_view()
                    == self.spec_polls()[poll_id]@.votes,
                None => !self.spec_polls().contains_key(poll_id),
            },
    {
        match self.polls.get(poll_id) {
            Some(p) => Some(p.list_votes()),
            None => None,
        }
    }
}

/// Ids issued one after another are strictly increasing: each call hands
/// back the value one past the counter it found, so no two consecutive
/// issuances ever return the same id.
pub proof fn lemma_issued_ids_distinct(
    s0: AppState,
    s1: AppState,
    s2: AppState,
    id1: usize,
    id2: usize,
)
    requires
        id1 == s0.spec_counter() + 1,
        s1.spec_counter() == id1,
        id2 == s1.spec_counter() + 1,
        s2.spec_counter() == id2,
    ensures
        id2 == id1 + 1,
        id1 != id2,
{
}

/// Issuing a session and validating its token before the expiration
/// yields the owner's identity; validating at or past the expiration
/// fails as expired, whoever owns it.
pub proof fn lemma_issue_then_validate(
    pre: AppState,
    post: AppState,
    username: Username,
    token: SessionId,
    now: i64,
    later: i64,
)
    requires
        post.spec_sessions() == pre.spec_sessions().insert(
            token@,
            (UserSession { expiration: session_expiration(now), username }),
        ),
        post.spec_users() == pre.spec_users(),
    ensures
        later < session_expiration(now) && post.spec_users().contains_key(username@)
            ==> post.session_outcome(token@, later) == Ok::<(Seq<char>, UserRole), SessionError>(
            (username@, post.spec_users()[username@].spec_role()),
        ),
        later >= session_expiration(now) ==> post.session_outcome(token@, later) == Err::<
            (Seq<char>, UserRole),
            SessionError,
        >(SessionError::Expired),
{
}

} // verus!
