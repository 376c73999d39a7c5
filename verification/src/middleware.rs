//! The decisions of the identity middleware for one request.
//!
//! A request is handled in two steps, with the lookup in the credential
//! store between them: `inspect` reads the cookie and either rejects the
//! request or names the account to fetch; `revalidate` takes what the store
//! answered and either rejects the request or hands out the record as the
//! identity of the request. The store is asked only where the cookie was
//! accepted, and a handler runs only where `revalidate` authenticates.

use vstd::prelude::*;
use crate::account::AccountRecord;
use crate::account::Role;
use crate::account::StoreReply;
use crate::base64url::encoding;
use crate::codec::lemma_decode_of_encode;
use crate::codec::lemma_empty_value_malformed;
use crate::codec::lemma_foreign_key_rejected;
use crate::codec::fresh;
use crate::codec::opened_value;
use crate::codec::signed_value;
use crate::codec::CookieCodec;
use crate::codec::DecodeError;
use crate::mac::hmac_sha256;
use crate::payload::SessionPayload;
use crate::payload::TrustDomain;

verus! {

/// Why a request was not let through. The reason is for the server's own
/// log; the caller sees only its `outcome`.
#[derive(Clone, Copy, Debug, PartialEq, Eq, Structural)]
pub enum Rejection {
    /// The request carries no cookie of this domain.
    NoCookie,
    /// The cookie is structurally invalid.
    Malformed,
    /// The signature of the cookie does not match.
    TamperedOrForged,
    /// The session is older than allowed.
    Expired,
    /// The account of the session is no longer in the store.
    NotFound,
    /// The account does not have the role that the domain asks for.
    RoleMismatch,
    /// The store could not be asked.
    StoreError,
}

/// What the caller is told of a rejected request.
#[derive(Clone, Copy, Debug, PartialEq, Eq, Structural)]
pub enum Outcome {
    /// The request is not authenticated, for whatever reason.
    Unauthenticated,
    /// The server failed; the caller is not at fault.
    InternalError,
}

impl Outcome {
    /// The HTTP status of the outcome: 401 or 500.
    pub open spec fn status_code(self) -> u16 {
        match self {
            Outcome::Unauthenticated => 401,
            Outcome::InternalError => 500,
        }
    }

    pub fn status(self) -> (code: u16)
        ensures
            code == self.status_code(),
    {
        match self {
            Outcome::Unauthenticated => 401,
            Outcome::InternalError => 500,
        }
    }
}

impl Rejection {
    /// What the caller is told: a failure of the store is an internal error,
    /// and every other reason is the same `Unauthenticated`.
    pub open spec fn told(self) -> Outcome {
        match self {
            Rejection::StoreError => Outcome::InternalError,
            _ => Outcome::Unauthenticated,
        }
    }

    /// Whether the rejection is to be logged as a security event: a
    /// signature that does not match is, an expired session is routine.
    pub open spec fn security_relevant(self) -> bool {
        self == Rejection::TamperedOrForged
    }

    /// The reason that stands for a cookie that was not accepted.
    pub open spec fn of_decode_error(e: DecodeError) -> Rejection {
        match e {
            DecodeError::Malformed => Rejection::Malformed,
            DecodeError::TamperedOrForged => Rejection::TamperedOrForged,
            DecodeError::Expired => Rejection::Expired,
        }
    }

    pub fn outcome(self) -> (outcome: Outcome)
        ensures
            outcome == self.told(),
    {
        match self {
            Rejection::StoreError => Outcome::InternalError,
            _ => Outcome::Unauthenticated,
        }
    }

    pub fn is_security_event(self) -> (relevant: bool)
        ensures
            relevant == self.security_relevant(),
    {
        matches!(self, Rejection::TamperedOrForged)
    }

    pub fn from_decode_error(e: DecodeError) -> (rejection: Rejection)
        ensures
            rejection == Rejection::of_decode_error(e),
    {
        match e {
            DecodeError::Malformed => Rejection::Malformed,
            DecodeError::TamperedOrForged => Rejection::TamperedOrForged,
            DecodeError::Expired => Rejection::Expired,
        }
    }
}

/// What the first step decides.
#[derive(Clone, Copy, Debug, PartialEq, Eq, Structural)]
pub enum Inspection {
    /// The cookie was accepted: the account of the payload is to be fetched
    /// from the store.
    Revalidate(SessionPayload),
    /// The request is rejected; the store is not asked.
    Reject(Rejection),
}

/// What the second step decides.
#[derive(Clone, Debug, PartialEq, Eq)]
pub enum Verdict {
    /// The request is authenticated: the record, as the store holds it now,
    /// is the identity that the handler sees.
    Authenticated(AccountRecord),
    /// The request is rejected; no handler runs.
    Reject(Rejection),
}

/// What the first step decides for a request with the cookie value `cookie`
/// at time `now`, under a codec with the key `key` and the lifetime
/// `max_age`.
pub open spec fn inspected(key: Seq<u8>, max_age: int, cookie: Option<Seq<u8>>, now: int) -> Inspection {
    match cookie {
        None => Inspection::Reject(Rejection::NoCookie),
        Some(raw) => match opened_value(key, max_age, raw, now) {
            Ok(payload) => Inspection::Revalidate(payload),
            Err(e) => Inspection::Reject(Rejection::of_decode_error(e)),
        },
    }
}

/// Whether the domain lets an account of the role `role` in: the admin
/// domain asks for an administrator, the user domain for nothing.
pub open spec fn role_accepted(domain: TrustDomain, role: Role) -> bool {
    domain == TrustDomain::Admin ==> role == Role::Admin
}

/// What the second step decides in the domain `domain` for what the store
/// answered.
pub open spec fn revalidated(domain: TrustDomain, reply: StoreReply) -> Verdict {
    match reply {
        StoreReply::StoreError => Verdict::Reject(Rejection::StoreError),
        StoreReply::NotFound => Verdict::Reject(Rejection::NotFound),
        StoreReply::Found(record) => if role_accepted(domain, record.role) {
            Verdict::Authenticated(record)
        } else {
            Verdict::Reject(Rejection::RoleMismatch)
        },
    }
}

/// What a store with the records `store`, keyed by account identifier,
/// answers to a lookup of `id`.
pub open spec fn store_reply(store: Map<i32, AccountRecord>, id: i32) -> StoreReply {
    if store.dom().contains(id) {
        StoreReply::Found(store[id])
    } else {
        StoreReply::NotFound
    }
}

/// What becomes of a whole request against a store that answers: both steps,
/// with the lookup between them.
pub open spec fn request_verdict(
    key: Seq<u8>,
    max_age: int,
    domain: TrustDomain,
    cookie: Option<Seq<u8>>,
    now: int,
    store: Map<i32, AccountRecord>,
) -> Verdict {
    match inspected(key, max_age, cookie, now) {
        Inspection::Reject(rejection) => Verdict::Reject(rejection),
        Inspection::Revalidate(payload) => revalidated(domain, store_reply(store, payload.subject_id)),
    }
}

/// The middleware of one trust domain: the codec of the domain and the role
/// that the domain asks for.
#[derive(Clone)]
pub struct IdentityMiddleware {
    codec: CookieCodec,
    domain: TrustDomain,
}

impl IdentityMiddleware {
    /// The codec of the domain.
    pub closed spec fn codec_of(&self) -> CookieCodec {
        self.codec
    }

    /// The domain that the middleware guards.
    pub closed spec fn domain_of(&self) -> TrustDomain {
        self.domain
    }

    pub fn new(codec: CookieCodec, domain: TrustDomain) -> (middleware: IdentityMiddleware)
        ensures
            middleware.codec_of() == codec,
            middleware.domain_of() == domain,
    {
        IdentityMiddleware { codec, domain }
    }

    pub fn codec(&self) -> (codec: &CookieCodec)
        ensures
            *codec == self.codec_of(),
    {
        &self.codec
    }

    pub fn domain(&self) -> (domain: TrustDomain)
        ensures
            domain == self.domain_of(),
    {
        self.domain
    }

    /// The first step: reads the cookie of the request, where `cookie` is
    /// the value under the name of this domain, if the request has one, and
    /// `now` is the time in seconds since the Unix epoch.
    pub fn inspect(&self, cookie: Option<&[u8]>, now: i64) -> (inspection: Inspection)
        ensures
            inspection == inspected(
                self.codec_of().key(),
                self.codec_of().lifetime() as int,
                match cookie {
                    Some(raw) => Some(raw@),
                    None => None,
                },
                now as int,
            ),
    {
        match cookie {
            None => Inspection::Reject(Rejection::NoCookie),
            Some(raw) => match self.codec.decode(raw, now) {
                Ok(payload) => Inspection::Revalidate(payload),
                Err(e) => Inspection::Reject(Rejection::from_decode_error(e)),
            },
        }
    }

    /// The second step: decides on what the store answered to the lookup of
    /// the account that `inspect` named.
    pub fn revalidate(&self, reply: StoreReply) -> (verdict: Verdict)
        ensures
            verdict == revalidated(self.domain_of(), reply),
    {
        match reply {
            StoreReply::StoreError => Verdict::Reject(Rejection::StoreError),
            StoreReply::NotFound => Verdict::Reject(Rejection::NotFound),
            StoreReply::Found(record) => {
                let allowed = match self.domain {
                    TrustDomain::User => true,
                    TrustDomain::Admin => matches!(record.role, Role::Admin),
                };
                if allowed {
                    Verdict::Authenticated(record)
                } else {
                    Verdict::Reject(Rejection::RoleMismatch)
                }
            },
        }
    }
}

/// Whatever the reason, a rejection is told to the caller as 401, except a
/// failure of the store, which is told as 500.
pub proof fn lemma_rejections_told_alike(rejection: Rejection)
    ensures
        rejection != Rejection::StoreError ==> rejection.told().status_code() == 401,
        rejection == Rejection::StoreError ==> rejection.told().status_code() == 500,
{
}

/// Revalidation follows the store. A request with a good cookie for an
/// account is authenticated as the record that the store holds at that
/// moment, whatever the record was when the cookie was issued; without the
/// role that the domain asks for, or without a record, it is rejected as
/// unauthenticated.
pub proof fn lemma_revalidation_follows_store(
    key: Seq<u8>,
    max_age: int,
    domain: TrustDomain,
    payload: SessionPayload,
    now: int,
    store: Map<i32, AccountRecord>,
)
    requires
        fresh(payload.issued_at as int, now, max_age),
    ensures
        ({
            let verdict = request_verdict(
                key,
                max_age,
                domain,
                Some(signed_value(key, payload)),
                now,
                store,
            );
            if !store.dom().contains(payload.subject_id) {
                verdict == Verdict::Reject(Rejection::NotFound)
                    && Rejection::NotFound.told() == Outcome::Unauthenticated
            } else if role_accepted(domain, store[payload.subject_id].role) {
                verdict == Verdict::Authenticated(store[payload.subject_id])
            } else {
                verdict == Verdict::Reject(Rejection::RoleMismatch)
                    && Rejection::RoleMismatch.told() == Outcome::Unauthenticated
            }
        }),
{
    lemma_decode_of_encode(key, max_age, payload, now);
}

/// A change of the record takes effect on the next request: once the store
/// holds `changed` for the account of a good cookie, the request is decided
/// on `changed` alone.
pub proof fn lemma_change_takes_effect(
    key: Seq<u8>,
    max_age: int,
    domain: TrustDomain,
    payload: SessionPayload,
    now: int,
    store: Map<i32, AccountRecord>,
    changed: AccountRecord,
)
    requires
        fresh(payload.issued_at as int, now, max_age),
    ensures
        request_verdict(
            key,
            max_age,
            domain,
            Some(signed_value(key, payload)),
            now,
            store.insert(payload.subject_id, changed),
        ) == revalidated(domain, StoreReply::Found(changed)),
{
    lemma_decode_of_encode(key, max_age, payload, now);
}

/// A deletion takes effect on the next request: once the account of a good
/// cookie is removed from the store, the request is unauthenticated.
pub proof fn lemma_deletion_takes_effect(
    key: Seq<u8>,
    max_age: int,
    domain: TrustDomain,
    payload: SessionPayload,
    now: int,
    store: Map<i32, AccountRecord>,
)
    requires
        fresh(payload.issued_at as int, now, max_age),
    ensures
        request_verdict(
            key,
            max_age,
            domain,
            Some(signed_value(key, payload)),
            now,
            store.remove(payload.subject_id),
        ) == Verdict::Reject(Rejection::NotFound),
        Rejection::NotFound.told() == Outcome::Unauthenticated,
{
    lemma_decode_of_encode(key, max_age, payload, now);
}

/// A cookie of one domain is rejected by the middleware of another, whatever
/// the store holds, unless the keys of the two domains give the payload text
/// the same tag, as they do where the domains share one key.
pub proof fn lemma_domains_isolated(
    key: Seq<u8>,
    other_key: Seq<u8>,
    other_max_age: int,
    other_domain: TrustDomain,
    payload: SessionPayload,
    now: int,
    store: Map<i32, AccountRecord>,
)
    requires
        hmac_sha256(other_key, encoding(payload.serialized())) != hmac_sha256(
            key,
            encoding(payload.serialized()),
        ),
    ensures
        request_verdict(
            other_key,
            other_max_age,
            other_domain,
            Some(signed_value(key, payload)),
            now,
            store,
        ) == Verdict::Reject(Rejection::TamperedOrForged),
        Rejection::TamperedOrForged.told() == Outcome::Unauthenticated,
{
    lemma_foreign_key_rejected(key, other_key, other_max_age, payload, now);
}

/// A request that carries the empty value of a removal cookie is rejected.
pub proof fn lemma_removed_cookie_rejected(
    key: Seq<u8>,
    max_age: int,
    domain: TrustDomain,
    now: int,
    store: Map<i32, AccountRecord>,
)
    ensures
        request_verdict(key, max_age, domain, Some(Seq::<u8>::empty()), now, store)
            == Verdict::Reject(Rejection::Malformed),
        Rejection::Malformed.told() == Outcome::Unauthenticated,
{
    lemma_empty_value_malformed(key, max_age, now);
}

} // verus!
