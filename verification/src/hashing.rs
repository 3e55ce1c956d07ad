//! Salted one-way password hashing, built on the `scrypt` crate.
//!
//! A stored credential is never the raw password: it is the textual encoding
//! of a scrypt hash, embedding the cost parameters and a fresh random salt.
//! Verification re-runs the hash from the candidate password and the encoded
//! parameters and compares the outcomes.

use vstd::prelude::*;

verus! {

/// Whether the scrypt verifier accepts `password` against the encoded hash
/// string `hash`.
///
/// This names the outcome of `scrypt::scrypt_check`, which is a function of
/// the candidate password and the hash string alone: the hash string embeds
/// the cost parameters and the salt, so re-running the check on the same two
/// strings always ends the same way.
pub uninterp spec fn scrypt_verifies(password: Seq<char>, hash: Seq<char>) -> bool;

/// Relies on `scrypt::scrypt_simple` with cost parameters `log_n = 14`,
/// `r = 8`, `p = 1`, the cost the scrypt paper recommends for interactive
/// logins: on success it returns an encoded hash, with a fresh random salt,
/// that `scrypt_check` accepts for exactly the hashed password. It fails
/// only when the operating system's random number generator does.
#[verifier::external_body]
pub(crate) fn hash_password(raw_password: &String) -> (r: Option<String>)
    ensures
        (r matches Some(h) ==> forall|p: Seq<char>|
            #[trigger] scrypt_verifies(p, h@) <==> p == raw_password@),
{
    let params = scrypt::ScryptParams::new(14, 8, 1).expect("fixed scrypt parameters are valid");
    scrypt::scrypt_simple(raw_password, &params).ok()
}

/// Relies on `scrypt::scrypt_check`: returns whether the check accepts the
/// candidate password against the stored hash string.
#[verifier::external_body]
pub(crate) fn verify_password(raw_password: &String, hash: &String) -> (r: bool)
    ensures
        r == scrypt_verifies(raw_password@, hash@),
{
    scrypt::scrypt_check(raw_password, hash).is_ok()
}

} // verus!
