//! Credential storage and verification: a user record holds a role and a
//! salted SHA-512 password hash, never the password itself. Verification
//! recomputes the salted hash and compares it byte for byte.

use vstd::prelude::*;
use vstd::string::StringSliceAdditionalSpecFns;
use vstd::utf8::encode_utf8;
use crate::crypto::{bytes_eq, digest64, random_bytes, sha512};

verus! {

/// Number of random bytes in a password salt.
pub const SALT_LENGTH: usize = 16;

/// Number of bytes in a stored password hash: the SHA-512 output length.
pub const HASH_LENGTH: usize = 64;

pub type Username = String;

/// The closed set of roles a user can hold.
#[derive(Clone, Copy, PartialEq, Eq, Structural, Debug)]
pub enum UserRole {
    Admin,
    General,
}

/// The identity a validated session stands for.
#[derive(PartialEq, Eq, Debug)]
pub struct AuthenticatedUser {
    pub username: Username,
    pub role: UserRole,
}

/// The hash this core stores for a password: SHA-512 over the salt
/// followed by the password's UTF-8 bytes.
pub open spec fn salted_hash_of(salt: Seq<u8>, password: Seq<char>) -> Seq<u8> {
    digest64(salt + encode_utf8(password))
}

/// A user's stored credentials. The password itself is never retained.
pub struct User {
    role: UserRole,
    password_salt: Vec<u8>,
    password_hash: Vec<u8>,
}

impl User {
    pub closed spec fn spec_role(&self) -> UserRole {
        self.role
    }

    pub closed spec fn salt(&self) -> Seq<u8> {
        self.password_salt@
    }

    pub closed spec fn hash(&self) -> Seq<u8> {
        self.password_hash@
    }

    /// The salt and the hash have the lengths the scheme fixes.
    pub open spec fn wf(&self) -> bool {
        self.salt().len() == SALT_LENGTH && self.hash().len() == HASH_LENGTH
    }

    /// Whether a password matches this record: its salted hash is the
    /// stored one.
    pub open spec fn authenticates(&self, password: Seq<char>) -> bool {
        self.hash() == salted_hash_of(self.salt(), password)
    }

    /// Creates a record for the password under a fresh random salt; the
    /// record accepts exactly the passwords whose salted hash is the
    /// stored one, this one among them.
    pub fn new(role: UserRole, password: String) -> (r: User)
        ensures
            r.spec_role() == role,
            r.hash() == salted_hash_of(r.salt(), password@),
            r.authenticates(password@),
            r.wf(),
    {
        let password_salt = random_bytes(SALT_LENGTH);
        let password_hash = Self::get_salted_hash(password.as_str(), &password_salt);
        User { role, password_salt, password_hash }
    }

    /// True exactly when the password's salted hash equals the stored
    /// hash.
    pub fn authenticate(&self, password: String) -> (r: bool)
        ensures
            r == self.authenticates(password@),
    {
        let computed = Self::get_salted_hash(password.as_str(), &self.password_salt);
        bytes_eq(&self.password_hash, &computed)
    }

    fn get_salted_hash(password: &str, password_salt: &Vec<u8>) -> (r: Vec<u8>)
        ensures
            r@ == salted_hash_of(password_salt@, password@),
    {
        let mut salted: Vec<u8> = Vec::new();
        salted.extend_from_slice(password_salt.as_slice());
        salted.extend_from_slice(password.as_bytes());
        proof {
            assert(salted@ =~= password_salt@ + password.spec_bytes());
        }
        let h = sha512(&salted);
        proof {
            assert(h@ == digest64(salted@));
        }
        h
    }

    /// Rebuilds a record from its stored parts, as a state snapshot holds
    /// them; refuses parts of the wrong length.
    pub fn from_parts(role: UserRole, salt: Vec<u8>, hash: Vec<u8>) -> (r: Option<User>)
        ensures
            match r {
                Some(u) => salt@.len() == SALT_LENGTH && hash@.len() == HASH_LENGTH && u.spec_role()
                    == role && u.salt() == salt@ && u.hash() == hash@ && u.wf(),
                None => !(salt@.len() == SALT_LENGTH && hash@.len() == HASH_LENGTH),
            },
    {
        if salt.len() == SALT_LENGTH && hash.len() == HASH_LENGTH {
            Some(User { role, password_salt: salt, password_hash: hash })
        } else {
            None
        }
    }

    pub fn role(&self) -> (r: UserRole)
        ensures
            r == self.spec_role(),
    {
        self.role
    }

    pub fn password_salt(&self) -> (r: &Vec<u8>)
        ensures
            r@ == self.salt(),
    {
        &self.password_salt
    }

    pub fn password_hash(&self) -> (r: &Vec<u8>)
        ensures
            r@ == self.hash(),
    {
        &self.password_hash
    }
}

/// A record whose stored hash is the salted hash of a password accepts
/// that password: creating a user from a password and then verifying the
/// same password succeeds.
pub proof fn lemma_fresh_user_authenticates(u: User, password: Seq<char>)
    requires
        u.hash() == salted_hash_of(u.salt(), password),
    ensures
        u.authenticates(password),
{
}

} // verus!
