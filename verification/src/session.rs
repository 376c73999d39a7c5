//! The two transitions of a session: a login issues a signed cookie, a
//! logout takes it away.

use vstd::prelude::*;
use crate::account::AccountRecord;
use crate::account::StoreReply;
use crate::codec::signed_value;
use crate::codec::SetCookie;
use crate::middleware::IdentityMiddleware;
use crate::password::argon2_verdict;
use crate::password::verified_with;
use crate::password::InternalError;
use crate::payload::SessionPayload;
use crate::payload::TrustDomain;

verus! {

/// Why a login did not issue a cookie.
#[derive(Clone, Copy, Debug, PartialEq, Eq, Structural)]
pub enum LoginError {
    /// The username or the password is wrong. Which of the two is not told.
    AuthenticationFailed,
    /// The store or the hashing failed; the caller is not at fault.
    InternalError,
}

impl LoginError {
    /// The HTTP status of the error: 401 for wrong credentials, 500 for a
    /// failure of the server.
    pub open spec fn status_code(self) -> u16 {
        match self {
            LoginError::AuthenticationFailed => 401,
            LoginError::InternalError => 500,
        }
    }

    pub fn status(self) -> (code: u16)
        ensures
            code == self.status_code(),
    {
        match self {
            LoginError::AuthenticationFailed => 401,
            LoginError::InternalError => 500,
        }
    }
}

/// What a login decides in the domain `domain` at time `now`, where the
/// store answered `reply` to the lookup of the username and the check of the
/// password against the record that was found gave `checked`: the payload of
/// the new session, or the error.
pub open spec fn login_decision(
    domain: TrustDomain,
    reply: StoreReply,
    checked: Result<bool, InternalError>,
    now: i64,
) -> Result<SessionPayload, LoginError> {
    match reply {
        StoreReply::StoreError => Err(LoginError::InternalError),
        StoreReply::NotFound => Err(LoginError::AuthenticationFailed),
        StoreReply::Found(account) => match checked {
            Err(_) => Err(LoginError::InternalError),
            Ok(false) => Err(LoginError::AuthenticationFailed),
            Ok(true) => Ok(
                SessionPayload { subject_id: account.id, issued_at: now, role_scope: domain },
            ),
        },
    }
}

/// Whether `issued` is what a login hands out for the decision `decision`:
/// on success the cookie of the middleware's codec that carries the signed
/// payload, else the error of the decision.
pub open spec fn hands_out(
    middleware: IdentityMiddleware,
    decision: Result<SessionPayload, LoginError>,
    issued: Result<SetCookie, LoginError>,
) -> bool {
    match decision {
        Ok(payload) => issued matches Ok(cookie) && middleware.codec_of().serves(
            cookie,
            signed_value(middleware.codec_of().key(), payload),
            middleware.codec_of().lifetime(),
        ),
        Err(e) => issued == Err::<SetCookie, LoginError>(e),
    }
}

/// Concludes a login for the account that the store holds under the
/// username, once the password has been checked against it: on a match a
/// new session is minted for the account at time `now` and encoded as a
/// cookie of the domain.
pub fn conclude_login(
    middleware: &IdentityMiddleware,
    account: &AccountRecord,
    checked: Result<bool, InternalError>,
    now: i64,
) -> (issued: Result<SetCookie, LoginError>)
    ensures
        hands_out(
            *middleware,
            login_decision(middleware.domain_of(), StoreReply::Found(*account), checked, now),
            issued,
        ),
{
    match checked {
        Err(_) => Err(LoginError::InternalError),
        Ok(false) => Err(LoginError::AuthenticationFailed),
        Ok(true) => {
            let payload = SessionPayload {
                subject_id: account.id,
                issued_at: now,
                role_scope: middleware.domain(),
            };
            Ok(middleware.codec().encode(&payload))
        },
    }
}

/// Logs in with `password`, where `reply` is what the store answered to the
/// lookup of the username, at time `now` in seconds since the Unix epoch. An
/// unknown username and a wrong password give the same error.
pub fn login(middleware: &IdentityMiddleware, reply: StoreReply, password: &[u8], now: i64) -> (issued:
    Result<SetCookie, LoginError>)
    ensures
        hands_out(
            *middleware,
            login_decision(
                middleware.domain_of(),
                reply,
                match reply {
                    StoreReply::Found(account) => verified_with(
                        argon2_verdict(account.password_hash@, password@),
                    ),
                    _ => Err(InternalError),
                },
                now,
            ),
            issued,
        ),
{
    match reply {
        StoreReply::StoreError => Err(LoginError::InternalError),
        StoreReply::NotFound => Err(LoginError::AuthenticationFailed),
        StoreReply::Found(account) => {
            let checked = crate::password::verify(password, account.password_hash.as_str());
            conclude_login(middleware, &account, checked, now)
        },
    }
}

/// Logs out: the cookie that overwrites the cookie of the domain with an
/// empty value that expires at once. Whether the caller held a session makes
/// no difference.
pub fn logout(middleware: &IdentityMiddleware) -> (cookie: SetCookie)
    ensures
        middleware.codec_of().serves(cookie, Seq::<u8>::empty(), 0),
{
    middleware.codec().removal()
}

/// A login with an unknown username and a login with a known username and a
/// wrong password end alike: both are `AuthenticationFailed`, for every
/// domain, account and time.
pub proof fn lemma_login_failures_alike(
    domain: TrustDomain,
    account: AccountRecord,
    unknown_checked: Result<bool, InternalError>,
    now: i64,
)
    ensures
        login_decision(domain, StoreReply::NotFound, unknown_checked, now) == login_decision(
            domain,
            StoreReply::Found(account),
            Ok(false),
            now,
        ),
        login_decision(domain, StoreReply::NotFound, unknown_checked, now) == Err::<
            SessionPayload,
            LoginError,
        >(LoginError::AuthenticationFailed),
{
}

} // verus!
