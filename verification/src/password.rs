//! The password verifier: salted, memory-hard hashing of passwords and the
//! check of an attempt against a stored hash, both done by the `argon2`
//! library, which also compares in constant time.

use vstd::prelude::*;

verus! {

/// The number of random bytes that salt a new hash.
pub const SALT_LEN: usize = 16;

/// The hashing subsystem failed, or a stored hash cannot be read. Neither is
/// the fault of whoever supplied the password.
#[derive(Clone, Copy, Debug, PartialEq, Eq, Structural)]
pub struct InternalError;

/// The error of the `argon2` library, `argon2::Error`. It is carried from the
/// calls into the library to where it is told as an `InternalError`; nothing
/// is read out of it.
#[verifier::external_type_specification]
#[verifier::external_body]
pub struct ExArgon2Error(argon2::Error);

/// The encoded hash that `argon2::hash_encoded` gives `password` with `salt`
/// under the library's default configuration, or `None` where it refuses.
pub uninterp spec fn argon2_encoded(password: Seq<u8>, salt: Seq<u8>) -> Option<Seq<char>>;

/// What `argon2::verify_encoded` says of `password` against the encoded hash
/// `encoded`: whether they match, or `None` where the hash cannot be read or
/// the hashing fails.
pub uninterp spec fn argon2_verdict(encoded: Seq<char>, password: Seq<u8>) -> Option<bool>;

/// Hashes `password` with `salt`.
///
/// Trusted: calls `argon2::hash_encoded` with `argon2::Config::default()`;
/// the contract names its result. The work is done on the calling thread.
#[verifier::external_body]
fn argon2_hash(password: &[u8], salt: &[u8]) -> (hashed: Result<String, argon2::Error>)
    ensures
        match hashed {
            Ok(encoded) => argon2_encoded(password@, salt@) == Some(encoded@),
            Err(_) => argon2_encoded(password@, salt@) is None,
        },
{
    argon2::hash_encoded(password, salt, &argon2::Config::default())
}

/// Checks `password` against `encoded`.
///
/// Trusted: calls `argon2::verify_encoded`; the contract names its result.
/// The time and memory that the call takes are those that `encoded` asks
/// for.
#[verifier::external_body]
fn argon2_verify(encoded: &str, password: &[u8]) -> (checked: Result<bool, argon2::Error>)
    ensures
        match checked {
            Ok(matches) => argon2_verdict(encoded@, password@) == Some(matches),
            Err(_) => argon2_verdict(encoded@, password@) is None,
        },
{
    argon2::verify_encoded(encoded, password)
}

/// Asks the operating system for the random bytes of a new salt.
///
/// Trusted: calls `TryRng::try_fill_bytes` on `rand::rngs::SysRng`, which
/// fills the whole buffer or fails. Nothing is stated of the bytes but how
/// many they are.
#[verifier::external_body]
fn fresh_salt() -> (salt: Option<Vec<u8>>)
    ensures
        match salt {
            Some(bytes) => bytes@.len() == SALT_LEN,
            None => true,
        },
{
    let mut bytes = [0u8; SALT_LEN];
    match rand::TryRng::try_fill_bytes(&mut rand::rngs::SysRng, &mut bytes) {
        Ok(()) => Some(bytes.to_vec()),
        Err(_) => None,
    }
}

/// Hashes `password` with the given salt. The result is the encoded hash to
/// store, which embeds the salt; where the library refuses, as it does for a
/// salt of fewer than eight bytes, the result is the error.
pub fn hash_with_salt(password: &[u8], salt: &[u8]) -> (hashed: Result<String, InternalError>)
    ensures
        match hashed {
            Ok(stored) => argon2_encoded(password@, salt@) == Some(stored@),
            Err(_) => argon2_encoded(password@, salt@) is None,
        },
{
    match argon2_hash(password, salt) {
        Ok(encoded) => Ok(encoded),
        Err(_) => Err(InternalError),
    }
}

/// Hashes `password` with a salt of fresh random bytes. A hash that comes
/// back is the hash of `password` with some salt of the full length.
pub fn hash(password: &[u8]) -> (hashed: Result<String, InternalError>)
    ensures
        match hashed {
            Ok(stored) => exists|salt: Seq<u8>|
                salt.len() == SALT_LEN && #[trigger] argon2_encoded(password@, salt) == Some(
                    stored@,
                ),
            Err(_) => true,
        },
{
    match fresh_salt() {
        Some(salt) => hash_with_salt(password, salt.as_slice()),
        None => Err(InternalError),
    }
}

/// What a check gives, once the library has answered: a mismatch is a valid
/// `false`, not an error.
pub open spec fn verified_with(answer: Option<bool>) -> Result<bool, InternalError> {
    match answer {
        Some(matches) => Ok(matches),
        None => Err(InternalError),
    }
}

/// Checks the attempt `password` against the stored hash.
pub fn verify(password: &[u8], stored: &str) -> (checked: Result<bool, InternalError>)
    ensures
        checked == verified_with(argon2_verdict(stored@, password@)),
{
    match argon2_verify(stored, password) {
        Ok(matches) => Ok(matches),
        Err(_) => Err(InternalError),
    }
}

} // verus!
