//! Argon2 password hashing (PHC strings) through the `argon2` crate.
use argon2::password_hash::{PasswordHash, PasswordHasher, PasswordVerifier, Salt, SaltString};
use argon2::Argon2;
use rand_core::OsRng;
use vstd::prelude::*;

verus! {

/// The PHC string that Argon2 with default parameters (Argon2id v19) makes of
/// `password` and the B64 salt `salt`, or `None` when hashing fails.
pub uninterp spec fn argon2_phc(password: Seq<char>, salt: Seq<char>) -> Option<Seq<char>>;

/// Whether `password` verifies against the PHC string `phc` under Argon2:
/// `phc` parses and hashing `password` with the parameters and salt it names
/// reproduces its output.
pub uninterp spec fn argon2_verifies(phc: Seq<char>, password: Seq<char>) -> bool;

/// A character of the B64 alphabet (standard Base64, no padding).
pub open spec fn is_b64_char(c: char) -> bool {
    ('A' <= c && c <= 'Z') || ('a' <= c && c <= 'z') || ('0' <= c && c <= '9') || c == '+' || c == '/'
}

/// Longest password, in characters, that Argon2 is sure to accept: its
/// UTF-8 encoding (at most 4 bytes a character) stays within Argon2's limit
/// of `0xFFFFFFFF` bytes.
pub const MAX_PASSWORD_CHARS: u64 = 0x3FFFFFFF;

/// Calls `SaltString::generate` with `OsRng`: 16 random bytes encoded as B64,
/// which makes 22 characters of the B64 alphabet. Which salt it is depends on
/// chance. Hashing with it succeeds for every password of at most
/// `MAX_PASSWORD_CHARS` characters: the salt decodes to 16 bytes (Argon2 asks
/// for at least 8), and with the default parameters the only other input
/// check is the password's length.
#[verifier::external_body]
pub(crate) fn generate_salt() -> (salt: String)
    ensures
        salt@.len() == 22,
        forall|i: int| 0 <= i < 22 ==> is_b64_char(#[trigger] salt@[i]),
        forall|p: Seq<char>| p.len() <= MAX_PASSWORD_CHARS ==> (#[trigger] argon2_phc(p, salt@)) is Some,
{
    SaltString::generate(&mut OsRng).as_str().to_string()
}

/// Calls `PasswordHasher::hash_password` on `Argon2::default()` with the salt
/// text converted by `Salt::from_b64`, and renders the result as a PHC string.
/// The result is named `argon2_phc(password, salt)`; a PHC string it returns
/// verifies for `password`, as the crate's documented round trip shows
/// (`hash_password` then `verify_password` succeeds).
#[verifier::external_body]
pub(crate) fn hash_password(password: &str, salt: &str) -> (r: Option<String>)
    ensures
        match r {
            Some(h) => argon2_phc(password@, salt@) == Some(h@) && argon2_verifies(h@, password@),
            None => argon2_phc(password@, salt@) is None,
        },
{
    let salt = match Salt::from_b64(salt) {
        Ok(s) => s,
        Err(_) => return None,
    };
    match Argon2::default().hash_password(password.as_bytes(), salt) {
        Ok(h) => Some(h.to_string()),
        Err(_) => None,
    }
}

/// Calls `PasswordVerifier::verify_password` on `Argon2::default()` with the
/// PHC string parsed by `PasswordHash::new`; a string that does not parse
/// verifies nothing. The result is named `argon2_verifies(phc, password)`.
#[verifier::external_body]
pub(crate) fn verify_password(phc: &str, password: &str) -> (ok: bool)
    ensures
        ok == argon2_verifies(phc@, password@),
{
    match PasswordHash::new(phc) {
        Ok(parsed) => Argon2::default().verify_password(password.as_bytes(), &parsed).is_ok(),
        Err(_) => false,
    }
}

} // verus!
