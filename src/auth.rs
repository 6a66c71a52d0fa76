//! Credentials: password hashing through argon2, and the replies that
//! registration and login give once the credential store has answered.

use vstd::prelude::*;
use vstd::string::*;
use argon2::password_hash::{PasswordHash, PasswordHasher, PasswordVerifier, SaltString};
use argon2::Argon2;
use rand::rngs::OsRng;

verus! {

/// Whether `password` matches the PHC hash string `hash` under argon2.
pub uninterp spec fn argon2_verifies(password: Seq<char>, hash: Seq<char>) -> bool;

/// Errors of password hashing and checking.
#[derive(Debug, Clone, Copy, PartialEq, Eq, Structural)]
pub enum PasswordError {
    /// The hasher refused the password.
    HashFailed,
    /// The hash is not a PHC string, or the password does not match it.
    Mismatch,
}

/// Relies on argon2's `PasswordHasher::hash_password` with default
/// parameters and a fresh salt from the operating system's generator. The
/// salt is random, so nothing is promised of the string.
#[verifier::external_body]
pub fn hash_password(password: &String) -> (r: Result<String, PasswordError>) {
    let salt = SaltString::generate(&mut OsRng);
    match Argon2::default().hash_password(password.as_bytes(), &salt) {
        Ok(h) => Ok(h.to_string()),
        Err(_) => Err(PasswordError::HashFailed),
    }
}

/// Relies on argon2's `PasswordHash::new` and `PasswordVerifier::verify_password`:
/// the hash string carries its salt and parameters, so the outcome depends on
/// the two strings alone.
#[verifier::external_body]
pub fn verify_password(password: &String, hash: &String) -> (r: Result<(), PasswordError>)
    ensures
        r == if argon2_verifies(password@, hash@) {
            Ok::<(), PasswordError>(())
        } else {
            Err(PasswordError::Mismatch)
        },
{
    match PasswordHash::new(hash) {
        Ok(parsed) => match Argon2::default().verify_password(password.as_bytes(), &parsed) {
            Ok(()) => Ok(()),
            Err(_) => Err(PasswordError::Mismatch),
        },
        Err(_) => Err(PasswordError::Mismatch),
    }
}

/// The outcome of an authentication attempt: the user's id when it
/// succeeded, and a reason for the user.
pub type AuthOutcome = (Option<i64>, String);

pub open spec fn registration_ok_text() -> Seq<char> {
    "Registration successful."@
}

pub open spec fn registration_bad_password_text() -> Seq<char> {
    "Registration not successful. Try a different password."@
}

pub open spec fn registration_bad_username_text() -> Seq<char> {
    "Registration not successful. Try a different username."@
}

pub open spec fn login_ok_text() -> Seq<char> {
    "Successfully logged in."@
}

pub open spec fn login_unknown_user_text() -> Seq<char> {
    "Login not successful."@
}

pub open spec fn login_bad_password_text() -> Seq<char> {
    "Login not successful. The password seems to be incorrect."@
}

/// First step of registration: the hash to store for `password`, or the
/// failed outcome when it cannot be hashed.
pub fn registration_hash(password: &String) -> (r: Result<String, AuthOutcome>)
    ensures
        r matches Err((id, d)) ==> id is None && d@ == registration_bad_password_text(),
{
    match hash_password(password) {
        Ok(h) => Ok(h),
        Err(_) => Err((None, String::from_str("Registration not successful. Try a different password."))),
    }
}

/// Second step of registration, once the store has answered: the new user's
/// id, or `None` when it refused the name.
pub fn registration_outcome(created: Option<i64>) -> (r: AuthOutcome)
    ensures
        r.0 == created,
        created is Some ==> r.1@ == registration_ok_text(),
        created is None ==> r.1@ == registration_bad_username_text(),
{
    match created {
        Some(id) => (Some(id), String::from_str("Registration successful.")),
        None => (None, String::from_str("Registration not successful. Try a different username.")),
    }
}

/// The outcome of a login once the store has answered with the user's id
/// (`None` for an unknown name) and the password has been checked against
/// the stored hash.
pub fn login_outcome(user: Option<i64>, password_matches: bool) -> (r: AuthOutcome)
    ensures
        user is None ==> r.0 is None && r.1@ == login_unknown_user_text(),
        user matches Some(id) ==> if password_matches {
            r.0 == Some(id) && r.1@ == login_ok_text()
        } else {
            r.0 is None && r.1@ == login_bad_password_text()
        },
{
    match user {
        None => (None, String::from_str("Login not successful.")),
        Some(id) => if password_matches {
            (Some(id), String::from_str("Successfully logged in."))
        } else {
            (None, String::from_str("Login not successful. The password seems to be incorrect."))
        },
    }
}

/// A login, given what the store holds for the name: the user's id and
/// password hash, or `None`. It succeeds exactly when the password matches
/// that hash.
pub fn login(password: &String, stored: Option<(i64, String)>) -> (r: AuthOutcome)
    ensures
        stored is None ==> r.0 is None && r.1@ == login_unknown_user_text(),
        stored matches Some((id, h)) ==> if argon2_verifies(password@, h@) {
            r.0 == Some(id) && r.1@ == login_ok_text()
        } else {
            r.0 is None && r.1@ == login_bad_password_text()
        },
{
    match stored {
        None => login_outcome(None, false),
        Some((id, h)) => {
            let ok = verify_password(password, &h).is_ok();
            login_outcome(Some(id), ok)
        },
    }
}

} // verus!
