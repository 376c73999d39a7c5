use std::collections::HashMap;

use cookie_session::account::{AccountRecord, Role, StoreReply};
use cookie_session::codec::{CookieCodec, SameSite};
use cookie_session::middleware::{IdentityMiddleware, Inspection, Outcome, Rejection, Verdict};
use cookie_session::payload::{SessionPayload, TrustDomain};
use cookie_session::session::{login, logout};

const KEY: &[u8] = b"0123456789abcdef0123456789abcdef";
const MONTH: u64 = 30 * 24 * 60 * 60;
const NOW: i64 = 1_700_000_000;
// A hash of "password".
const HASH: &str =
    "$argon2id$v=19$m=256,t=2,p=16$c29tZXNhbHQ$0gasyPnKXiBHQ5bft/bd4jrmy2DdtrLTX3JR9co7fRY";

fn guard(domain: TrustDomain) -> IdentityMiddleware {
    let name: &[u8] = match domain {
        TrustDomain::User => b"user",
        TrustDomain::Admin => b"admin",
    };
    IdentityMiddleware::new(CookieCodec::new(KEY, name, b"/", true, MONTH, SameSite::Strict), domain)
}

fn account(id: i32, username: &str, role: Role) -> AccountRecord {
    AccountRecord {
        id,
        username: username.to_string(),
        password_hash: HASH.to_string(),
        nickname: username.to_uppercase(),
        role,
    }
}

fn lookup(store: &HashMap<i32, AccountRecord>, id: i32) -> StoreReply {
    match store.get(&id) {
        Some(record) => StoreReply::Found(record.clone()),
        None => StoreReply::NotFound,
    }
}

/// Runs both steps of a request against a store that answers.
fn request(
    guard: &IdentityMiddleware,
    cookie: Option<&[u8]>,
    now: i64,
    store: &HashMap<i32, AccountRecord>,
) -> Verdict {
    match guard.inspect(cookie, now) {
        Inspection::Reject(rejection) => Verdict::Reject(rejection),
        Inspection::Revalidate(payload) => guard.revalidate(lookup(store, payload.subject_id)),
    }
}

fn store_with_alice() -> HashMap<i32, AccountRecord> {
    let mut store = HashMap::new();
    store.insert(7, account(7, "alice", Role::User));
    store.insert(1, account(1, "root", Role::Admin));
    store
}

fn cookie_for(domain: TrustDomain, id: i32) -> Vec<u8> {
    guard(domain).codec().sign(&SessionPayload { subject_id: id, issued_at: NOW, role_scope: domain })
}

#[test]
fn keeps_its_codec_and_domain() {
    let guard = guard(TrustDomain::Admin);
    assert_eq!(guard.domain(), TrustDomain::Admin);
    assert_eq!(guard.codec().cookie_name(), b"admin");
}

#[test]
fn a_request_without_cookie_is_rejected_before_the_store_is_asked() {
    assert_eq!(
        guard(TrustDomain::User).inspect(None, NOW),
        Inspection::Reject(Rejection::NoCookie)
    );
    assert_eq!(Rejection::NoCookie.outcome(), Outcome::Unauthenticated);
}

#[test]
fn a_good_cookie_names_the_account_to_fetch() {
    let cookie = cookie_for(TrustDomain::User, 7);
    assert_eq!(
        guard(TrustDomain::User).inspect(Some(&cookie), NOW + 5),
        Inspection::Revalidate(SessionPayload {
            subject_id: 7,
            issued_at: NOW,
            role_scope: TrustDomain::User
        })
    );
}

#[test]
fn every_decode_failure_rejects_with_its_reason() {
    let guard = guard(TrustDomain::User);
    let cookie = cookie_for(TrustDomain::User, 7);
    assert_eq!(
        guard.inspect(Some(b"no separator"), NOW),
        Inspection::Reject(Rejection::Malformed)
    );
    let mut forged = cookie.clone();
    forged[3] = b'C';
    assert_eq!(guard.inspect(Some(&forged), NOW), Inspection::Reject(Rejection::TamperedOrForged));
    assert_eq!(
        guard.inspect(Some(&cookie), NOW + MONTH as i64 + 1),
        Inspection::Reject(Rejection::Expired)
    );
}

#[test]
fn only_a_failing_signature_is_a_security_event() {
    assert!(Rejection::TamperedOrForged.is_security_event());
    for routine in [
        Rejection::NoCookie,
        Rejection::Malformed,
        Rejection::Expired,
        Rejection::NotFound,
        Rejection::RoleMismatch,
        Rejection::StoreError,
    ] {
        assert!(!routine.is_security_event());
    }
}

#[test]
fn every_rejection_but_a_store_failure_is_told_as_401() {
    for rejection in [
        Rejection::NoCookie,
        Rejection::Malformed,
        Rejection::TamperedOrForged,
        Rejection::Expired,
        Rejection::NotFound,
        Rejection::RoleMismatch,
    ] {
        assert_eq!(rejection.outcome(), Outcome::Unauthenticated);
        assert_eq!(rejection.outcome().status(), 401);
    }
    assert_eq!(Rejection::StoreError.outcome(), Outcome::InternalError);
    assert_eq!(Rejection::StoreError.outcome().status(), 500);
}

#[test]
fn a_found_account_is_the_identity_of_the_request() {
    let alice = account(7, "alice", Role::User);
    assert_eq!(
        guard(TrustDomain::User).revalidate(StoreReply::Found(alice.clone())),
        Verdict::Authenticated(alice)
    );
    let root = account(1, "root", Role::Admin);
    assert_eq!(
        guard(TrustDomain::Admin).revalidate(StoreReply::Found(root.clone())),
        Verdict::Authenticated(root.clone())
    );
    assert_eq!(
        guard(TrustDomain::User).revalidate(StoreReply::Found(root.clone())),
        Verdict::Authenticated(root)
    );
}

#[test]
fn a_missing_account_is_unauthenticated_and_a_failing_store_an_internal_error() {
    let guard = guard(TrustDomain::User);
    assert_eq!(guard.revalidate(StoreReply::NotFound), Verdict::Reject(Rejection::NotFound));
    assert_eq!(guard.revalidate(StoreReply::StoreError), Verdict::Reject(Rejection::StoreError));
}

#[test]
fn the_admin_domain_asks_for_an_administrator() {
    assert_eq!(
        guard(TrustDomain::Admin).revalidate(StoreReply::Found(account(7, "alice", Role::User))),
        Verdict::Reject(Rejection::RoleMismatch)
    );
}

#[test]
fn alice_logs_in_as_user_and_is_turned_away_from_admin_routes() {
    let store = store_with_alice();
    let user = guard(TrustDomain::User);
    let admin = guard(TrustDomain::Admin);
    let reply = lookup(&store, 7);
    let cookie = login(&user, reply, b"password", NOW).unwrap();
    assert_eq!(cookie.name, b"user".to_vec());
    assert_eq!(
        user.inspect(Some(&cookie.value), NOW),
        Inspection::Revalidate(SessionPayload {
            subject_id: 7,
            issued_at: NOW,
            role_scope: TrustDomain::User
        })
    );
    assert_eq!(
        request(&user, Some(&cookie.value), NOW + 1, &store),
        Verdict::Authenticated(account(7, "alice", Role::User))
    );
    let verdict = request(&admin, Some(&cookie.value), NOW + 1, &store);
    assert_eq!(verdict, Verdict::Reject(Rejection::RoleMismatch));
    assert_eq!(Rejection::RoleMismatch.outcome().status(), 401);
}

#[test]
fn a_deleted_account_is_unauthenticated_on_its_next_request() {
    let mut store = store_with_alice();
    let user = guard(TrustDomain::User);
    let cookie = cookie_for(TrustDomain::User, 7);
    assert_eq!(
        request(&user, Some(&cookie), NOW + 10, &store),
        Verdict::Authenticated(account(7, "alice", Role::User))
    );
    store.remove(&7);
    let verdict = request(&user, Some(&cookie), NOW + 11, &store);
    assert_eq!(verdict, Verdict::Reject(Rejection::NotFound));
    assert_eq!(Rejection::NotFound.outcome().status(), 401);
}

#[test]
fn a_changed_record_is_seen_on_the_next_request() {
    let mut store = store_with_alice();
    let user = guard(TrustDomain::User);
    let admin = guard(TrustDomain::Admin);
    let cookie = cookie_for(TrustDomain::User, 7);
    let admin_cookie = cookie_for(TrustDomain::Admin, 1);
    assert_eq!(
        request(&admin, Some(&admin_cookie), NOW, &store),
        Verdict::Authenticated(account(1, "root", Role::Admin))
    );

    store.get_mut(&7).unwrap().nickname = "Alice the Second".to_string();
    match request(&user, Some(&cookie), NOW, &store) {
        Verdict::Authenticated(identity) => assert_eq!(identity.nickname, "Alice the Second"),
        other => panic!("{:?}", other),
    }

    store.get_mut(&1).unwrap().role = Role::User;
    assert_eq!(
        request(&admin, Some(&admin_cookie), NOW, &store),
        Verdict::Reject(Rejection::RoleMismatch)
    );
    store.get_mut(&7).unwrap().role = Role::Admin;
    match request(&admin, Some(&cookie), NOW, &store) {
        Verdict::Authenticated(identity) => assert_eq!(identity.role, Role::Admin),
        other => panic!("{:?}", other),
    }
}

#[test]
fn a_cookie_of_a_domain_with_another_key_is_rejected() {
    let store = store_with_alice();
    let admin = IdentityMiddleware::new(
        CookieCodec::new(
            b"another key for the admin domain",
            b"admin",
            b"/",
            true,
            MONTH,
            SameSite::Strict,
        ),
        TrustDomain::Admin,
    );
    let root_as_user = cookie_for(TrustDomain::User, 1);
    assert_eq!(
        request(&guard(TrustDomain::User), Some(&root_as_user), NOW, &store),
        Verdict::Authenticated(account(1, "root", Role::Admin))
    );
    assert_eq!(
        request(&admin, Some(&root_as_user), NOW, &store),
        Verdict::Reject(Rejection::TamperedOrForged)
    );
}

#[test]
fn the_cookie_served_by_logout_does_not_validate() {
    let store = store_with_alice();
    let user = guard(TrustDomain::User);
    let served = logout(&user);
    let verdict = request(&user, Some(&served.value), NOW, &store);
    assert_eq!(verdict, Verdict::Reject(Rejection::Malformed));
    assert_eq!(Rejection::Malformed.outcome().status(), 401);
    // A request that carries no cookie any more is turned away as well.
    assert_eq!(request(&user, None, NOW, &store), Verdict::Reject(Rejection::NoCookie));
}

#[test]
fn a_failing_store_is_told_as_500() {
    let user = guard(TrustDomain::User);
    let cookie = cookie_for(TrustDomain::User, 7);
    match user.inspect(Some(&cookie), NOW) {
        Inspection::Revalidate(_) => {
            let verdict = user.revalidate(StoreReply::StoreError);
            assert_eq!(verdict, Verdict::Reject(Rejection::StoreError));
            assert_eq!(Rejection::StoreError.outcome().status(), 500);
        }
        other => panic!("{:?}", other),
    }
}
