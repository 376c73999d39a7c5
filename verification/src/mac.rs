//! The message authentication code that makes a cookie tamper-evident:
//! HMAC-SHA256, computed and compared by the `hmac` and `sha2` crates.

use vstd::prelude::*;

verus! {

/// The tag that HMAC-SHA256 gives `message` under `key`: what
/// `hmac::Hmac<sha2::Sha256>` returns from `finalize` after it was made from
/// `key` and fed `message`. Nothing is stated of it but that it is a function
/// of the key and the message.
pub uninterp spec fn hmac_sha256(key: Seq<u8>, message: Seq<u8>) -> Seq<u8>;

/// Computes the tag of `message` under `key`.
///
/// Trusted: calls `Hmac::<Sha256>::new_from_slice`, `Mac::update` and
/// `Mac::finalize`; the contract names their result. HMAC takes a key of any
/// length, so making the instance does not fail.
#[verifier::external_body]
pub(crate) fn compute_tag(key: &[u8], message: &[u8]) -> (tag: Vec<u8>)
    ensures
        tag@ == hmac_sha256(key@, message@),
{
    let mut mac = <hmac::Hmac<sha2::Sha256> as hmac::KeyInit>::new_from_slice(key)
        .expect("HMAC accepts keys of any length");
    hmac::Mac::update(&mut mac, message);
    hmac::Mac::finalize(mac).into_bytes().to_vec()
}

/// Tells whether `tag` is the tag of `message` under `key`, comparing in
/// constant time.
///
/// Trusted: calls `Hmac::<Sha256>::new_from_slice`, `Mac::update` and
/// `Mac::verify_slice`. The last computes the tag as `Mac::finalize` does and
/// accepts `tag` exactly when it has the length of the computed tag and the
/// same bytes.
#[verifier::external_body]
pub(crate) fn tag_matches(key: &[u8], message: &[u8], tag: &[u8]) -> (ok: bool)
    ensures
        ok == (tag@ == hmac_sha256(key@, message@)),
{
    let mut mac = <hmac::Hmac<sha2::Sha256> as hmac::KeyInit>::new_from_slice(key)
        .expect("HMAC accepts keys of any length");
    hmac::Mac::update(&mut mac, message);
    hmac::Mac::verify_slice(mac, tag).is_ok()
}

} // verus!
