//! Password material: generation of high-entropy secrets and one-way
//! hashing, backed by the argon2 and rand crates.

use vstd::prelude::*;

use argon2::password_hash::{PasswordHash, PasswordHasher, PasswordVerifier, SaltString};
use rand::distributions::DistString;

verus! {

/// What checking a candidate secret against a stored hash string yields:
/// `None` when the primitive cannot use the stored string (it does not
/// parse, or its embedded parameters are unusable), otherwise `Some` of
/// whether the candidate matches. A parseable string that merely lacks its
/// salt or digest field counts as a mismatch, as the primitive reports it.
/// A stored hash is self-describing (it embeds the algorithm, parameters
/// and salt), so argon2's verdict is a pure function of the candidate and
/// the stored string.
pub uninterp spec fn password_check(candidate: Seq<char>, hash: Seq<char>) -> Option<bool>;

/// The stored hash checks cleanly: for every candidate whose character
/// count keeps its UTF-8 encoding within the primitive's password length
/// limit (2^32 - 1 bytes; a character encodes to at most four bytes),
/// checking yields a definite verdict, never a failure.
pub open spec fn hash_checks_cleanly(hash: Seq<char>) -> bool {
    forall|c: Seq<char>| c.len() <= 0x3FFFFFFF ==> (#[trigger] password_check(c, hash)) is Some
}

/// The alphabet that generated secrets are drawn from: ASCII alphanumeric.
pub open spec fn is_secret_char(c: char) -> bool {
    ||| 'a' as int <= c as int <= 'z' as int
    ||| 'A' as int <= c as int <= 'Z' as int
    ||| '0' as int <= c as int <= '9' as int
}

/// Relies on rand's `Alphanumeric` distribution, sampled from the operating
/// system's entropy source `OsRng`: the sample is exactly `len` characters
/// long and each character is ASCII alphanumeric. Nothing more can be said
/// of a random sample.
#[verifier::external_body]
pub fn sample_alphanumeric(len: usize) -> (r: String)
    ensures
        r@.len() == len,
        forall|i: int| 0 <= i < r@.len() ==> is_secret_char(#[trigger] r@[i]),
{
    rand::distributions::Alphanumeric.sample_string(&mut rand::rngs::OsRng, len)
}

/// Relies on argon2's `hash_password` (algorithm Argon2i, default version
/// and parameters, a fresh random salt drawn from `OsRng` per call) and on
/// the password-hash crate's PHC round trip: re-parsing the produced string
/// and verifying it against the same secret succeeds, because verification
/// recomputes the hash from the salt and parameters embedded in the string.
/// Hashing itself succeeds: with the generated sixteen-byte salt and the
/// default parameters, the primitive's only failure path that depends on
/// the caller is an over-long password, which the `requires` excludes - so
/// the `expect` below cannot fire. The product also checks cleanly against
/// every candidate within the same length limit: re-parsing cannot fail on
/// a string the primitive itself serialized, and the embedded parameters
/// and salt are the valid ones it was built with.
#[verifier::external_body]
pub fn hash_secret(secret: &str) -> (r: String)
    requires
        secret@.len() <= 0x3FFFFFFF,
    ensures
        password_check(secret@, r@) == Some(true),
        hash_checks_cleanly(r@),
{
    let argon = argon2::Argon2::new(argon2::Algorithm::Argon2i, Default::default(), Default::default());
    let salt = SaltString::generate(&mut rand::rngs::OsRng);
    argon.hash_password(secret.as_bytes(), &salt).expect("inputs are within the primitive's limits").to_string()
}

/// Relies on password-hash's `PasswordHash::new` (PHC string parsing) and
/// argon2's `verify_password`, which recomputes the hash with the salt and
/// parameters embedded in the stored string and compares the outputs in
/// constant time. The verifier is built without a secret key, so the
/// verdict depends on the two arguments alone: `None` when the stored
/// string does not parse or its parameters are unusable, `Some` of the
/// comparison's outcome otherwise - including `Some(false)` for a
/// parseable string without a salt or digest field, which the primitive
/// reports as a mismatch.
#[verifier::external_body]
pub fn verify_candidate(candidate: &str, hash: &str) -> (r: Option<bool>)
    ensures
        r == password_check(candidate@, hash@),
{
    let argon = argon2::Argon2::new(argon2::Algorithm::Argon2i, Default::default(), Default::default());
    let parsed = match PasswordHash::new(hash) {
        Ok(p) => p,
        Err(_) => return None,
    };
    match argon.verify_password(candidate.as_bytes(), &parsed) {
        Ok(()) => Some(true),
        Err(argon2::password_hash::Error::Password) => Some(false),
        Err(_) => None,
    }
}

} // verus!
