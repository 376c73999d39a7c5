use cookie_session::codec::{CookieCodec, SameSite};
use cookie_session::payload::TrustDomain;
use cookie_session::realm::{Realm, RealmError};

fn codec(key: &[u8], name: &[u8]) -> CookieCodec {
    CookieCodec::new(key, name, b"/", true, 2_592_000, SameSite::Strict)
}

#[test]
fn takes_two_codecs_with_keys_and_names_of_their_own() {
    let realm = Realm::new(codec(b"user key", b"user"), codec(b"admin key", b"admin"), false);
    let realm = match realm {
        Ok(realm) => realm,
        Err(e) => panic!("{:?}", e),
    };
    assert_eq!(realm.middleware(TrustDomain::User).domain(), TrustDomain::User);
    assert_eq!(realm.middleware(TrustDomain::User).codec().cookie_name(), b"user");
    assert_eq!(realm.middleware(TrustDomain::User).codec().secret_key(), b"user key");
    assert_eq!(realm.middleware(TrustDomain::Admin).domain(), TrustDomain::Admin);
    assert_eq!(realm.middleware(TrustDomain::Admin).codec().cookie_name(), b"admin");
    assert_eq!(realm.middleware(TrustDomain::Admin).codec().secret_key(), b"admin key");
}

#[test]
fn refuses_a_shared_key_by_default() {
    let made = Realm::new(codec(b"one key", b"user"), codec(b"one key", b"admin"), false);
    assert_eq!(made.err(), Some(RealmError::SharedKey));
}

#[test]
fn takes_a_shared_key_where_it_is_asked_for() {
    let made = Realm::new(codec(b"one key", b"user"), codec(b"one key", b"admin"), true);
    assert!(made.is_ok());
}

#[test]
fn refuses_a_shared_cookie_name_in_any_case() {
    for share_key in [false, true] {
        let made = Realm::new(codec(b"user key", b"sid"), codec(b"admin key", b"sid"), share_key);
        assert_eq!(made.err(), Some(RealmError::SharedCookieName));
        let made = Realm::new(codec(b"one key", b"sid"), codec(b"one key", b"sid"), share_key);
        assert_eq!(made.err(), Some(RealmError::SharedCookieName));
    }
}

#[test]
fn tells_keys_apart_that_differ_in_length_or_in_one_byte() {
    assert!(Realm::new(codec(b"key", b"user"), codec(b"key!", b"admin"), false).is_ok());
    assert!(Realm::new(codec(b"key1", b"user"), codec(b"key2", b"admin"), false).is_ok());
    assert!(Realm::new(codec(b"", b"user"), codec(b"", b"admin"), false).is_err());
}
