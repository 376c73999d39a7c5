//! The cookie codec: turns a session payload into a signed cookie value and
//! back, rejecting whatever fails the integrity or the freshness check.
//!
//! A signed value is the base64 text of the serialized payload, a separator
//! and the base64 text of the tag that the secret key gives to the first
//! text.

use vstd::prelude::*;
use vstd::slice::slice_subrange;
use vstd::slice::slice_to_vec;
use crate::base64url::decoding;
use crate::base64url::encoding;
use crate::base64url::lemma_decoding_of_encoding;
use crate::base64url::lemma_encoding_alphabet;
use crate::base64url::lemma_encoding_of_decoding;
use crate::base64url::sextet;
use crate::mac::hmac_sha256;
use crate::payload::lemma_parsed_of_serialized;
use crate::payload::SessionPayload;

verus! {

/// The byte between the payload text and the signature text: a full stop.
pub const SEPARATOR: u8 = 46;

/// The `SameSite` policy that a cookie is served with.
#[derive(Clone, Copy, Debug, PartialEq, Eq, Structural)]
pub enum SameSite {
    Strict,
    Lax,
    /// No restriction; on the wire `SameSite=None`.
    Unrestricted,
}

/// Why a cookie value was not accepted.
#[derive(Clone, Copy, Debug, PartialEq, Eq, Structural)]
pub enum DecodeError {
    /// The value has no separator, or what was signed is not a payload.
    Malformed,
    /// The signature is not the one that the key gives to the signed text.
    TamperedOrForged,
    /// The signature is good, but the payload is older than the codec allows.
    Expired,
}

/// A cookie as it is to be placed on a response: the value and the
/// attributes that go with it.
#[derive(Clone, Debug, PartialEq, Eq)]
pub struct SetCookie {
    pub name: Vec<u8>,
    pub value: Vec<u8>,
    pub path: Vec<u8>,
    /// The lifetime that the browser is told, in seconds.
    pub max_age: u64,
    pub secure: bool,
    pub same_site: SameSite,
}

/// The value that is made of a payload text and the tag over it: the text,
/// the separator and the base64 text of the tag.
pub open spec fn sealed(text: Seq<u8>, tag: Seq<u8>) -> Seq<u8> {
    text + seq![SEPARATOR] + encoding(tag)
}

/// The signed value that carries `payload` under `key`: the base64 text of
/// the serialized payload, sealed with the tag that the key gives that text.
pub open spec fn signed_value(key: Seq<u8>, payload: SessionPayload) -> Seq<u8> {
    let text = encoding(payload.serialized());
    sealed(text, hmac_sha256(key, text))
}

/// Whether the first separator of `raw` stands at index `i`.
pub open spec fn splits_at(raw: Seq<u8>, i: int) -> bool {
    &&& 0 <= i < raw.len()
    &&& raw[i] == SEPARATOR
    &&& forall|j: int| 0 <= j < i ==> raw[j] != SEPARATOR
}

/// The index of the first separator of `raw`, if it has one.
pub open spec fn split_point(raw: Seq<u8>) -> Option<int> {
    if exists|i: int| splits_at(raw, i) {
        Some(choose|i: int| splits_at(raw, i))
    } else {
        None
    }
}

/// The part of `raw` that its signature speaks of: what stands before the
/// first separator.
pub open spec fn signed_text(raw: Seq<u8>) -> Seq<u8> {
    match split_point(raw) {
        Some(i) => raw.subrange(0, i),
        None => raw,
    }
}

/// The part of `raw` that is its signature: what stands behind the first
/// separator.
pub open spec fn signature_text(raw: Seq<u8>) -> Seq<u8> {
    match split_point(raw) {
        Some(i) => raw.subrange(i + 1, raw.len() as int),
        None => Seq::empty(),
    }
}

/// Whether a payload issued at `issued_at` is still good at `now`, where
/// `max_age` seconds are allowed.
pub open spec fn fresh(issued_at: int, now: int, max_age: int) -> bool {
    now - issued_at <= max_age
}

/// What a payload text holds at time `now`, where payloads may be `max_age`
/// seconds old: the payload that it is the base64 text of, if it is one and
/// is not too old. The signature plays no part in this.
pub open spec fn payload_of(text: Seq<u8>, max_age: int, now: int) -> Result<
    SessionPayload,
    DecodeError,
> {
    match decoding(text) {
        None => Err(DecodeError::Malformed),
        Some(bytes) => match SessionPayload::parsed(bytes) {
            None => Err(DecodeError::Malformed),
            Some(payload) => if fresh(payload.issued_at as int, now, max_age) {
                Ok(payload)
            } else {
                Err(DecodeError::Expired)
            },
        },
    }
}

/// What opening `raw` at time `now` gives under `key`, where payloads may be
/// `max_age` seconds old: the separator is looked for, then the signature is
/// checked, then the payload is read, and last its age is checked.
pub open spec fn opened_value(key: Seq<u8>, max_age: int, raw: Seq<u8>, now: int) -> Result<
    SessionPayload,
    DecodeError,
> {
    if split_point(raw) is None {
        Err(DecodeError::Malformed)
    } else if decoding(signature_text(raw)) != Some(hmac_sha256(key, signed_text(raw))) {
        Err(DecodeError::TamperedOrForged)
    } else {
        payload_of(signed_text(raw), max_age, now)
    }
}

/// The codec of one trust domain, with the configuration that it was made
/// with. The configuration never changes afterwards.
#[derive(Clone)]
pub struct CookieCodec {
    secret_key: Vec<u8>,
    cookie_name: Vec<u8>,
    path: Vec<u8>,
    secure: bool,
    max_age: u64,
    same_site: SameSite,
}

impl CookieCodec {
    /// The key that values are signed with.
    pub closed spec fn key(&self) -> Seq<u8> {
        self.secret_key@
    }

    /// The name of the cookie.
    pub closed spec fn name(&self) -> Seq<u8> {
        self.cookie_name@
    }

    /// The path that the cookie is served for.
    pub closed spec fn scope_path(&self) -> Seq<u8> {
        self.path@
    }

    /// Whether the cookie is served for secure connections only.
    pub closed spec fn secure_only(&self) -> bool {
        self.secure
    }

    /// How many seconds a payload stays good, which is also the lifetime
    /// that the browser is told.
    pub closed spec fn lifetime(&self) -> u64 {
        self.max_age
    }

    /// The `SameSite` policy of the cookie.
    pub closed spec fn site_policy(&self) -> SameSite {
        self.same_site
    }

    /// A codec with the given configuration.
    pub fn new(
        secret_key: &[u8],
        cookie_name: &[u8],
        path: &[u8],
        secure: bool,
        max_age: u64,
        same_site: SameSite,
    ) -> (codec: CookieCodec)
        ensures
            codec.key() == secret_key@,
            codec.name() == cookie_name@,
            codec.scope_path() == path@,
            codec.secure_only() == secure,
            codec.lifetime() == max_age,
            codec.site_policy() == same_site,
    {
        CookieCodec {
            secret_key: slice_to_vec(secret_key),
            cookie_name: slice_to_vec(cookie_name),
            path: slice_to_vec(path),
            secure,
            max_age,
            same_site,
        }
    }

    pub fn secret_key(&self) -> (key: &[u8])
        ensures
            key@ == self.key(),
    {
        self.secret_key.as_slice()
    }

    pub fn cookie_name(&self) -> (name: &[u8])
        ensures
            name@ == self.name(),
    {
        self.cookie_name.as_slice()
    }

    pub fn path(&self) -> (path: &[u8])
        ensures
            path@ == self.scope_path(),
    {
        self.path.as_slice()
    }

    pub fn secure(&self) -> (secure: bool)
        ensures
            secure == self.secure_only(),
    {
        self.secure
    }

    pub fn max_age(&self) -> (seconds: u64)
        ensures
            seconds == self.lifetime(),
    {
        self.max_age
    }

    pub fn same_site(&self) -> (policy: SameSite)
        ensures
            policy == self.site_policy(),
    {
        self.same_site
    }

    /// The signed value that carries `payload`.
    pub fn sign(&self, payload: &SessionPayload) -> (value: Vec<u8>)
        ensures
            value@ == signed_value(self.key(), *payload),
    {
        let bytes = payload.to_bytes();
        let text = crate::base64url::encode(bytes.as_slice());
        let tag = crate::mac::compute_tag(self.secret_key.as_slice(), text.as_slice());
        seal(text.as_slice(), tag.as_slice())
    }

    /// Whether `cookie` is a cookie of this codec that holds `value` and
    /// tells the browser the lifetime `max_age`: the name, the path and the
    /// other attributes are those of the codec.
    pub open spec fn serves(&self, cookie: SetCookie, value: Seq<u8>, max_age: u64) -> bool {
        &&& cookie.name@ == self.name()
        &&& cookie.value@ == value
        &&& cookie.path@ == self.scope_path()
        &&& cookie.max_age == max_age
        &&& cookie.secure == self.secure_only()
        &&& cookie.same_site == self.site_policy()
    }

    /// Encodes `payload` as a cookie for a response: the signed value, with
    /// the attributes of this codec. The browser is told the same lifetime
    /// that the payload is held to.
    pub fn encode(&self, payload: &SessionPayload) -> (cookie: SetCookie)
        ensures
            self.serves(cookie, signed_value(self.key(), *payload), self.lifetime()),
    {
        SetCookie {
            name: slice_to_vec(self.cookie_name.as_slice()),
            value: self.sign(payload),
            path: slice_to_vec(self.path.as_slice()),
            max_age: self.max_age,
            secure: self.secure,
            same_site: self.same_site,
        }
    }

    /// The cookie that takes the session away: an empty value that the
    /// browser is to drop at once.
    pub fn removal(&self) -> (cookie: SetCookie)
        ensures
            self.serves(cookie, Seq::<u8>::empty(), 0),
    {
        SetCookie {
            name: slice_to_vec(self.cookie_name.as_slice()),
            value: Vec::new(),
            path: slice_to_vec(self.path.as_slice()),
            max_age: 0,
            secure: self.secure,
            same_site: self.same_site,
        }
    }

    /// Opens the cookie value `raw` at time `now`, in seconds since the Unix
    /// epoch. Every value gives either the payload that it carries or the
    /// reason why it was not accepted.
    pub fn decode(&self, raw: &[u8], now: i64) -> (opened: Result<SessionPayload, DecodeError>)
        ensures
            opened == opened_value(self.key(), self.lifetime() as int, raw@, now as int),
    {
        let at = match find_separator(raw) {
            Some(at) => at,
            None => { return Err(DecodeError::Malformed); },
        };
        let n = raw.len();
        let text = slice_subrange(raw, 0, at);
        let signature = slice_subrange(raw, at + 1, n);
        let tag = match crate::base64url::decode(signature) {
            Some(tag) => tag,
            None => { return Err(DecodeError::TamperedOrForged); },
        };
        if !crate::mac::tag_matches(self.secret_key.as_slice(), text, tag.as_slice()) {
            return Err(DecodeError::TamperedOrForged);
        }
        read_payload(text, self.max_age, now)
    }
}

/// Seals the payload text `text` with the tag `tag` that was computed over
/// it.
pub fn seal(text: &[u8], tag: &[u8]) -> (value: Vec<u8>)
    ensures
        value@ == sealed(text@, tag@),
{
    let mut value = slice_to_vec(text);
    let signature = crate::base64url::encode(tag);
    value.push(SEPARATOR);
    append(&mut value, signature.as_slice());
    value
}

/// Reads the payload out of the payload text `text`, whose signature was
/// found good, at time `now`, where payloads may be `max_age` seconds old.
pub fn read_payload(text: &[u8], max_age: u64, now: i64) -> (read: Result<
    SessionPayload,
    DecodeError,
>)
    ensures
        read == payload_of(text@, max_age as int, now as int),
{
    let bytes = match crate::base64url::decode(text) {
        Some(bytes) => bytes,
        None => { return Err(DecodeError::Malformed); },
    };
    let payload = match SessionPayload::parse(bytes.as_slice()) {
        Some(payload) => payload,
        None => { return Err(DecodeError::Malformed); },
    };
    if is_fresh(payload.issued_at, now, max_age) {
        Ok(payload)
    } else {
        Err(DecodeError::Expired)
    }
}

/// Appends `tail` to `bytes`.
pub(crate) fn append(bytes: &mut Vec<u8>, tail: &[u8])
    ensures
        final(bytes)@ == old(bytes)@ + tail@,
{
    let n = tail.len();
    let mut i: usize = 0;
    while i < n
        invariant
            n == tail@.len(),
            i <= n,
            bytes@ == old(bytes)@ + tail@.subrange(0, i as int),
        decreases n - i,
    {
        bytes.push(tail[i]);
        i = i + 1;
    }
    assert(tail@.subrange(0, n as int) =~= tail@);
}

fn find_separator(raw: &[u8]) -> (at: Option<usize>)
    ensures
        match at {
            Some(i) => i < raw@.len() && split_point(raw@) == Some(i as int),
            None => split_point(raw@) is None,
        },
{
    let n = raw.len();
    let mut i: usize = 0;
    while i < n
        invariant
            n == raw@.len(),
            i <= n,
            forall|j: int| 0 <= j < i ==> raw@[j] != SEPARATOR,
        decreases n - i,
    {
        if raw[i] == SEPARATOR {
            proof {
                lemma_split_point(raw@, i as int);
            }
            return Some(i);
        }
        i = i + 1;
    }
    None
}

fn is_fresh(issued_at: i64, now: i64, max_age: u64) -> (ok: bool)
    ensures
        ok == fresh(issued_at as int, now as int, max_age as int),
{
    now as i128 - issued_at as i128 <= max_age as i128
}

/// The first separator stands where it stands, and nowhere else.
pub proof fn lemma_split_point(raw: Seq<u8>, i: int)
    requires
        splits_at(raw, i),
    ensures
        split_point(raw) == Some(i),
{
    let chosen = choose|k: int| splits_at(raw, k);
    assert(chosen == i);
}

/// The pieces of a signed value: it splits behind the payload text, and what
/// follows the separator is the text of the tag.
pub proof fn lemma_signed_value_parts(key: Seq<u8>, payload: SessionPayload)
    ensures
        split_point(signed_value(key, payload)) == Some(
            encoding(payload.serialized()).len() as int,
        ),
        signed_text(signed_value(key, payload)) == encoding(payload.serialized()),
        signature_text(signed_value(key, payload)) == encoding(
            hmac_sha256(key, encoding(payload.serialized())),
        ),
{
    let text = encoding(payload.serialized());
    let signature = encoding(hmac_sha256(key, text));
    let value = signed_value(key, payload);
    lemma_encoding_alphabet(payload.serialized());
    assert forall|j: int| 0 <= j < text.len() implies value[j] != SEPARATOR by {
        assert(value[j] == text[j]);
        assert(sextet(text[j]) is Some);
    }
    assert(value[text.len() as int] == SEPARATOR);
    lemma_split_point(value, text.len() as int);
    assert(value.subrange(0, text.len() as int) =~= text);
    assert(value.subrange(text.len() as int + 1, value.len() as int) =~= signature);
}

/// Decoding undoes encoding: a value that was signed under a key opens under
/// that key to the payload that it was made from, as long as the payload is
/// not older than allowed.
pub proof fn lemma_decode_of_encode(
    key: Seq<u8>,
    max_age: int,
    payload: SessionPayload,
    now: int,
)
    requires
        fresh(payload.issued_at as int, now, max_age),
    ensures
        opened_value(key, max_age, signed_value(key, payload), now) == Ok::<
            SessionPayload,
            DecodeError,
        >(payload),
{
    let text = encoding(payload.serialized());
    lemma_signed_value_parts(key, payload);
    lemma_decoding_of_encoding(hmac_sha256(key, text));
    lemma_decoding_of_encoding(payload.serialized());
    lemma_parsed_of_serialized(payload);
}

/// The codec trusts no value but a signed one: a value that opens to a
/// payload is, byte for byte, the signed value of that payload under the
/// key. So no two accepted values carry the same payload.
pub proof fn lemma_accepted_value_is_signed(
    key: Seq<u8>,
    max_age: int,
    raw: Seq<u8>,
    now: int,
)
    requires
        opened_value(key, max_age, raw, now) is Ok,
    ensures
        raw == signed_value(key, opened_value(key, max_age, raw, now).unwrap()),
{
    let payload = opened_value(key, max_age, raw, now).unwrap();
    let at = split_point(raw).unwrap();
    let text = signed_text(raw);
    let signature = signature_text(raw);
    lemma_encoding_of_decoding(signature);
    lemma_encoding_of_decoding(text);
    assert(payload.serialized() == decoding(text).unwrap());
    assert(splits_at(raw, at));
    assert(raw =~= text + seq![SEPARATOR] + signature);
}

/// A payload that is older than allowed is rejected as expired, although its
/// signature is good.
pub proof fn lemma_stale_value_expired(
    key: Seq<u8>,
    max_age: int,
    payload: SessionPayload,
    now: int,
)
    requires
        !fresh(payload.issued_at as int, now, max_age),
    ensures
        opened_value(key, max_age, signed_value(key, payload), now) == Err::<
            SessionPayload,
            DecodeError,
        >(DecodeError::Expired),
{
    let text = encoding(payload.serialized());
    lemma_signed_value_parts(key, payload);
    lemma_decoding_of_encoding(hmac_sha256(key, text));
    lemma_decoding_of_encoding(payload.serialized());
    lemma_parsed_of_serialized(payload);
}

/// Whether two different texts have the same tag under `key`.
pub open spec fn tags_collide(key: Seq<u8>, first: Seq<u8>, second: Seq<u8>) -> bool {
    first != second && hmac_sha256(key, first) == hmac_sha256(key, second)
}

/// Whether `altered` is `genuine` with the byte at index `at` replaced by
/// another.
pub open spec fn differs_at(genuine: Seq<u8>, altered: Seq<u8>, at: int) -> bool {
    &&& altered.len() == genuine.len()
    &&& 0 <= at < genuine.len()
    &&& altered[at] != genuine[at]
    &&& forall|j: int| 0 <= j < genuine.len() && j != at ==> altered[j] == genuine[j]
}

/// A signed value with one byte replaced is rejected as malformed or as
/// tampered with, whatever the time. The one exception is a replacement
/// inside the payload text that gives a text with the same tag as the
/// genuine one: of such a collision nothing is promised.
pub proof fn lemma_altered_value_rejected(
    key: Seq<u8>,
    max_age: int,
    payload: SessionPayload,
    altered: Seq<u8>,
    at: int,
    now: int,
)
    requires
        differs_at(signed_value(key, payload), altered, at),
        altered[at] == SEPARATOR || !tags_collide(
            key,
            signed_text(signed_value(key, payload)),
            signed_text(altered),
        ),
    ensures
        opened_value(key, max_age, altered, now) == Err::<SessionPayload, DecodeError>(
            DecodeError::Malformed,
        ) || opened_value(key, max_age, altered, now) == Err::<SessionPayload, DecodeError>(
            DecodeError::TamperedOrForged,
        ),
{
    let genuine = signed_value(key, payload);
    let text = encoding(payload.serialized());
    let tag = hmac_sha256(key, text);
    let signature = encoding(tag);
    let n = text.len() as int;
    lemma_signed_value_parts(key, payload);
    lemma_encoding_alphabet(payload.serialized());
    lemma_encoding_alphabet(tag);
    lemma_decoding_of_encoding(tag);
    assert forall|j: int| 0 <= j < genuine.len() && j != n implies genuine[j] != SEPARATOR by {
        if j < n {
            assert(genuine[j] == text[j]);
            assert(sextet(text[j]) is Some);
        } else {
            assert(genuine[j] == signature[j - n - 1]);
            assert(sextet(signature[j - n - 1]) is Some);
        }
    }
    if at == n {
        // The separator is gone, and no other byte is one.
        assert forall|i: int| !splits_at(altered, i) by {
            if 0 <= i < altered.len() && i != at {
                assert(altered[i] == genuine[i]);
            }
        }
    } else if at < n && altered[at] == SEPARATOR {
        // The value now splits early, and the old separator is in the signature.
        assert forall|j: int| 0 <= j < at implies altered[j] != SEPARATOR by {
            assert(altered[j] == genuine[j]);
        }
        lemma_split_point(altered, at);
        let rest = signature_text(altered);
        assert(rest[n - at - 1] == altered[n]);
        assert(altered[n] == SEPARATOR);
        if decoding(rest) is Some {
            lemma_encoding_of_decoding(rest);
            lemma_encoding_alphabet(decoding(rest).unwrap());
            assert(sextet(rest[n - at - 1]) is Some);
        }
    } else if at < n {
        // Another payload text under the old signature.
        assert forall|j: int| 0 <= j < n implies altered[j] != SEPARATOR by {
            if j != at {
                assert(altered[j] == genuine[j]);
            }
        }
        assert(altered[n] == genuine[n]);
        lemma_split_point(altered, n);
        assert(signature_text(altered) =~= signature);
        assert(signed_text(altered)[at] == altered[at]);
        assert(text[at] == genuine[at]);
        assert(signed_text(altered) != text);
    } else {
        // The old payload text under another signature text.
        assert forall|j: int| 0 <= j < n implies altered[j] != SEPARATOR by {
            assert(altered[j] == genuine[j]);
        }
        assert(altered[n] == genuine[n]);
        lemma_split_point(altered, n);
        assert(signed_text(altered) =~= text);
        let rest = signature_text(altered);
        assert(rest[at - n - 1] == altered[at]);
        assert(signature[at - n - 1] == genuine[at]);
        if decoding(rest) == Some(tag) {
            lemma_encoding_of_decoding(rest);
        }
    }
}

/// The byte `b` with bit number `bit` flipped.
pub open spec fn flipped(b: u8, bit: u8) -> u8 {
    b ^ (1u8 << bit)
}

/// Flipping one bit of a signed value gives a value that is rejected as
/// malformed or as tampered with, with the same exception as for a replaced
/// byte.
pub proof fn lemma_bit_flip_rejected(
    key: Seq<u8>,
    max_age: int,
    payload: SessionPayload,
    at: int,
    bit: u8,
    now: int,
)
    requires
        0 <= at < signed_value(key, payload).len(),
        bit < 8,
        flipped(signed_value(key, payload)[at], bit) == SEPARATOR || !tags_collide(
            key,
            signed_text(signed_value(key, payload)),
            signed_text(
                signed_value(key, payload).update(
                    at,
                    flipped(signed_value(key, payload)[at], bit),
                ),
            ),
        ),
    ensures
        ({
            let altered = signed_value(key, payload).update(
                at,
                flipped(signed_value(key, payload)[at], bit),
            );
            opened_value(key, max_age, altered, now) == Err::<SessionPayload, DecodeError>(
                DecodeError::Malformed,
            ) || opened_value(key, max_age, altered, now) == Err::<SessionPayload, DecodeError>(
                DecodeError::TamperedOrForged,
            )
        }),
{
    let genuine = signed_value(key, payload);
    let b = genuine[at];
    let altered = genuine.update(at, flipped(b, bit));
    assert(b ^ (1u8 << bit) != b) by (bit_vector)
        requires
            bit < 8,
    ;
    lemma_altered_value_rejected(key, max_age, payload, altered, at, now);
}

/// A value signed under one key is rejected as tampered with under another
/// key, unless the two keys give its payload text the same tag, as they do
/// where one key is shared.
pub proof fn lemma_foreign_key_rejected(
    key: Seq<u8>,
    other_key: Seq<u8>,
    max_age: int,
    payload: SessionPayload,
    now: int,
)
    requires
        hmac_sha256(other_key, encoding(payload.serialized())) != hmac_sha256(
            key,
            encoding(payload.serialized()),
        ),
    ensures
        opened_value(other_key, max_age, signed_value(key, payload), now) == Err::<
            SessionPayload,
            DecodeError,
        >(DecodeError::TamperedOrForged),
{
    let text = encoding(payload.serialized());
    lemma_signed_value_parts(key, payload);
    lemma_decoding_of_encoding(hmac_sha256(key, text));
}

/// The empty value, which is what a removal cookie holds, is never accepted.
pub proof fn lemma_empty_value_malformed(key: Seq<u8>, max_age: int, now: int)
    ensures
        opened_value(key, max_age, Seq::<u8>::empty(), now) == Err::<SessionPayload, DecodeError>(
            DecodeError::Malformed,
        ),
{
    assert forall|i: int| !splits_at(Seq::<u8>::empty(), i) by {}
}

} // verus!
