//! The two trust domains of one application, side by side.
//!
//! Each domain has a codec of its own. The two cookies must differ in name,
//! so that a browser can hold a session of each; and the two keys must
//! differ too, unless sharing one key was asked for in so many words.

use vstd::prelude::*;
use crate::codec::CookieCodec;
use crate::middleware::IdentityMiddleware;
use crate::payload::TrustDomain;

verus! {

/// Why two codecs were not taken as the two domains of one application.
#[derive(Clone, Copy, Debug, PartialEq, Eq, Structural)]
pub enum RealmError {
    /// Both cookies have the same name.
    SharedCookieName,
    /// Both codecs sign with the same key, and sharing was not asked for.
    SharedKey,
}

/// The middlewares of the user domain and of the admin domain.
#[derive(Clone)]
pub struct Realm {
    user: IdentityMiddleware,
    admin: IdentityMiddleware,
}

/// What stands against taking `user` and `admin` as the two domains, where
/// `share_key` says whether one key for both is meant.
pub open spec fn objection(user: CookieCodec, admin: CookieCodec, share_key: bool) -> Option<
    RealmError,
> {
    if user.name() == admin.name() {
        Some(RealmError::SharedCookieName)
    } else if user.key() == admin.key() && !share_key {
        Some(RealmError::SharedKey)
    } else {
        None
    }
}

impl Realm {
    /// The middleware of `domain`.
    pub closed spec fn side(&self, domain: TrustDomain) -> IdentityMiddleware {
        match domain {
            TrustDomain::User => self.user,
            TrustDomain::Admin => self.admin,
        }
    }

    /// Takes `user` and `admin` as the codecs of the two domains.
    pub fn new(user: CookieCodec, admin: CookieCodec, share_key: bool) -> (made: Result<
        Realm,
        RealmError,
    >)
        ensures
            match made {
                Ok(realm) => {
                    &&& objection(user, admin, share_key) is None
                    &&& realm.side(TrustDomain::User).codec_of() == user
                    &&& realm.side(TrustDomain::User).domain_of() == TrustDomain::User
                    &&& realm.side(TrustDomain::Admin).codec_of() == admin
                    &&& realm.side(TrustDomain::Admin).domain_of() == TrustDomain::Admin
                },
                Err(e) => objection(user, admin, share_key) == Some(e),
            },
    {
        if same_bytes(user.cookie_name(), admin.cookie_name()) {
            return Err(RealmError::SharedCookieName);
        }
        if !share_key && same_bytes(user.secret_key(), admin.secret_key()) {
            return Err(RealmError::SharedKey);
        }
        Ok(
            Realm {
                user: IdentityMiddleware::new(user, TrustDomain::User),
                admin: IdentityMiddleware::new(admin, TrustDomain::Admin),
            },
        )
    }

    /// The middleware that guards `domain`.
    pub fn middleware(&self, domain: TrustDomain) -> (middleware: &IdentityMiddleware)
        ensures
            *middleware == self.side(domain),
    {
        match domain {
            TrustDomain::User => &self.user,
            TrustDomain::Admin => &self.admin,
        }
    }
}

fn same_bytes(a: &[u8], b: &[u8]) -> (same: bool)
    ensures
        same == (a@ == b@),
{
    if a.len() != b.len() {
        return false;
    }
    let n = a.len();
    let mut i: usize = 0;
    while i < n
        invariant
            n == a@.len(),
            n == b@.len(),
            i <= n,
            forall|j: int| 0 <= j < i ==> a@[j] == b@[j],
        decreases n - i,
    {
        if a[i] != b[i] {
            return false;
        }
        i = i + 1;
    }
    assert(a@ =~= b@);
    true
}

} // verus!
