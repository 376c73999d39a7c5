//! The session payload that a cookie carries, and its byte form.
//!
//! A payload is serialized as 13 bytes: the account identifier as four bytes
//! and the time of issue as eight, both big-endian in two's complement, then
//! one byte for the trust domain.

use vstd::prelude::*;

verus! {

/// The two independently configured authentication scopes.
#[derive(Clone, Copy, Debug, PartialEq, Eq, Structural)]
pub enum TrustDomain {
    User,
    Admin,
}

impl TrustDomain {
    /// The byte that stands for this domain inside a serialized payload.
    pub open spec fn tag(self) -> u8 {
        match self {
            TrustDomain::User => 0u8,
            TrustDomain::Admin => 1u8,
        }
    }
}

/// What a session cookie states: whose session it is, when it was issued and
/// by which trust domain. A payload is never changed after it is issued.
#[derive(Clone, Copy, Debug, PartialEq, Eq, Structural)]
pub struct SessionPayload {
    /// The account that the session belongs to.
    pub subject_id: i32,
    /// When the session was issued, in seconds since the Unix epoch.
    pub issued_at: i64,
    /// The trust domain that issued the session.
    pub role_scope: TrustDomain,
}

/// The number of bytes of a serialized payload.
pub const PAYLOAD_LEN: usize = 13;

/// The unsigned number with the same 32 bits as `v` in two's complement.
pub open spec fn unsigned32(v: i32) -> int {
    if v >= 0 {
        v as int
    } else {
        v + 0x1_0000_0000
    }
}

/// The unsigned number with the same 64 bits as `v` in two's complement.
pub open spec fn unsigned64(v: i64) -> int {
    if v >= 0 {
        v as int
    } else {
        v + 0x1_0000_0000_0000_0000
    }
}

/// The four bytes of `u`, most significant first.
pub open spec fn big_endian32(u: int) -> Seq<u8>
    recommends
        0 <= u < 0x1_0000_0000,
{
    seq![
        (u / 0x100_0000) as u8,
        (u / 0x1_0000 % 256) as u8,
        (u / 0x100 % 256) as u8,
        (u % 256) as u8,
    ]
}

/// The eight bytes of `u`, most significant first.
pub open spec fn big_endian64(u: int) -> Seq<u8>
    recommends
        0 <= u < 0x1_0000_0000_0000_0000,
{
    seq![
        (u / 0x100_0000_0000_0000) as u8,
        (u / 0x1_0000_0000_0000 % 256) as u8,
        (u / 0x100_0000_0000 % 256) as u8,
        (u / 0x1_0000_0000 % 256) as u8,
        (u / 0x100_0000 % 256) as u8,
        (u / 0x1_0000 % 256) as u8,
        (u / 0x100 % 256) as u8,
        (u % 256) as u8,
    ]
}

impl SessionPayload {
    /// The byte form of this payload.
    pub open spec fn serialized(self) -> Seq<u8> {
        big_endian32(unsigned32(self.subject_id)) + big_endian64(unsigned64(self.issued_at))
            + seq![self.role_scope.tag()]
    }

    /// The payload of which `bytes` is the byte form, if there is one.
    pub open spec fn parsed(bytes: Seq<u8>) -> Option<SessionPayload> {
        if exists|p: SessionPayload| p.serialized() == bytes {
            Some(choose|p: SessionPayload| p.serialized() == bytes)
        } else {
            None
        }
    }

    /// Serializes this payload.
    pub fn to_bytes(&self) -> (bytes: Vec<u8>)
        ensures
            bytes@ == self.serialized(),
    {
        let id: u32 = unsigned32_of(self.subject_id);
        let at: u64 = unsigned64_of(self.issued_at);
        let mut bytes: Vec<u8> = Vec::new();
        bytes.push((id / 0x100_0000) as u8);
        bytes.push((id / 0x1_0000 % 256) as u8);
        bytes.push((id / 0x100 % 256) as u8);
        bytes.push((id % 256) as u8);
        bytes.push((at / 0x100_0000_0000_0000) as u8);
        bytes.push((at / 0x1_0000_0000_0000 % 256) as u8);
        bytes.push((at / 0x100_0000_0000 % 256) as u8);
        bytes.push((at / 0x1_0000_0000 % 256) as u8);
        bytes.push((at / 0x100_0000 % 256) as u8);
        bytes.push((at / 0x1_0000 % 256) as u8);
        bytes.push((at / 0x100 % 256) as u8);
        bytes.push((at % 256) as u8);
        bytes.push(
            match self.role_scope {
                TrustDomain::User => 0u8,
                TrustDomain::Admin => 1u8,
            },
        );
        assert(bytes@ =~= self.serialized());
        bytes
    }

    /// Reads a payload back from its byte form. Anything that is not the byte
    /// form of a payload gives `None`.
    pub fn parse(bytes: &[u8]) -> (payload: Option<SessionPayload>)
        ensures
            payload == SessionPayload::parsed(bytes@),
    {
        proof {
            lemma_parsed_is_fieldwise(bytes@);
        }
        if bytes.len() != PAYLOAD_LEN {
            return None;
        }
        let role_scope = if bytes[12] == 0 {
            TrustDomain::User
        } else if bytes[12] == 1 {
            TrustDomain::Admin
        } else {
            return None;
        };
        let id: u32 = bytes[0] as u32 * 0x100_0000 + bytes[1] as u32 * 0x1_0000 + bytes[2] as u32
            * 0x100 + bytes[3] as u32;
        let at: u64 = bytes[4] as u64 * 0x100_0000_0000_0000 + bytes[5] as u64
            * 0x1_0000_0000_0000 + bytes[6] as u64 * 0x100_0000_0000 + bytes[7] as u64
            * 0x1_0000_0000 + bytes[8] as u64 * 0x100_0000 + bytes[9] as u64 * 0x1_0000
            + bytes[10] as u64 * 0x100 + bytes[11] as u64;
        proof {
            let ghost first = bytes@.subrange(4, 12).subrange(0, 4);
            let ghost second = bytes@.subrange(4, 12).subrange(4, 8);
            assert(first =~= bytes@.subrange(4, 8) && second =~= bytes@.subrange(8, 12));
            assert(id == value32(bytes@.subrange(0, 4)));
            assert(at == value64(bytes@.subrange(4, 12)));
        }
        Some(SessionPayload { subject_id: signed32_of(id), issued_at: signed64_of(at), role_scope })
    }
}

/// The number that four bytes spell, most significant first.
spec fn value32(s: Seq<u8>) -> int {
    s[0] * 0x100_0000 + s[1] * 0x1_0000 + s[2] * 0x100 + s[3]
}

/// The number that eight bytes spell, most significant first.
spec fn value64(s: Seq<u8>) -> int {
    value32(s.subrange(0, 4)) * 0x1_0000_0000 + value32(s.subrange(4, 8))
}

/// Field-by-field reading of a byte form, which the executable parser follows.
spec fn fieldwise(bytes: Seq<u8>) -> Option<SessionPayload> {
    if bytes.len() != 13 || bytes[12] > 1 {
        None
    } else {
        let id = value32(bytes.subrange(0, 4));
        let at = value64(bytes.subrange(4, 12));
        Some(
            SessionPayload {
                subject_id: if id < 0x8000_0000 {
                    id as i32
                } else {
                    (id - 0x1_0000_0000) as i32
                },
                issued_at: if at < 0x8000_0000_0000_0000 {
                    at as i64
                } else {
                    (at - 0x1_0000_0000_0000_0000) as i64
                },
                role_scope: if bytes[12] == 0 {
                    TrustDomain::User
                } else {
                    TrustDomain::Admin
                },
            },
        )
    }
}

proof fn lemma_value_of_big_endian32(u: int)
    requires
        0 <= u < 0x1_0000_0000,
    ensures
        value32(big_endian32(u)) == u,
{
    let q1 = u / 0x100;
    let q2 = u / 0x1_0000;
    let q3 = u / 0x100_0000;
    assert(q2 == q1 / 0x100);
    assert(q3 == q2 / 0x100);
    assert(u == q1 * 0x100 + u % 0x100);
    assert(q1 == q2 * 0x100 + q1 % 0x100);
    assert(q2 == q3 * 0x100 + q2 % 0x100);
    assert(0 <= q3 < 0x100);
}

proof fn lemma_big_endian_of_value32(s: Seq<u8>)
    requires
        s.len() == 4,
    ensures
        0 <= value32(s) < 0x1_0000_0000,
        big_endian32(value32(s)) == s,
{
    let u = value32(s);
    assert(u / 0x100 == s[0] * 0x1_0000 + s[1] * 0x100 + s[2]);
    assert(u / 0x1_0000 == s[0] * 0x100 + s[1]);
    assert(u / 0x100_0000 == s[0] as int);
    assert(big_endian32(u) =~= s);
}

proof fn lemma_high_quotients(u: int)
    requires
        0 <= u,
    ensures
        u / 0x100_0000_0000_0000 == u / 0x1_0000_0000 / 0x100_0000,
        u / 0x1_0000_0000_0000 == u / 0x1_0000_0000 / 0x1_0000,
        u / 0x100_0000_0000 == u / 0x1_0000_0000 / 0x100,
{
    vstd::arithmetic::div_mod::lemma_div_denominator(u, 0x1_0000_0000, 0x100_0000);
    vstd::arithmetic::div_mod::lemma_div_denominator(u, 0x1_0000_0000, 0x1_0000);
    vstd::arithmetic::div_mod::lemma_div_denominator(u, 0x1_0000_0000, 0x100);
}

proof fn lemma_low_quotient(u: int, d: int)
    requires
        0 <= u,
        d == 0x100 || d == 0x1_0000 || d == 0x100_0000,
    ensures
        u / d % 256 == u % 0x1_0000_0000 / d % 256,
{
    let hi = u / 0x1_0000_0000;
    let lo = u % 0x1_0000_0000;
    let k: int = 0x1_0000_0000int / d;
    assert(u == hi * 0x1_0000_0000 + lo);
    assert(k * d == 0x1_0000_0000);
    assert(u == (hi * k) * d + lo) by (nonlinear_arith)
        requires
            u == hi * 0x1_0000_0000 + lo,
            k * d == 0x1_0000_0000,
    ;
    vstd::arithmetic::div_mod::lemma_hoist_over_denominator(lo, hi * k, d as nat);
    assert(u / d == lo / d + hi * k);
    assert(k % 256 == 0);
    let j = k / 256;
    assert(hi * k == (hi * j) * 256) by (nonlinear_arith)
        requires
            k == j * 256,
    ;
    vstd::arithmetic::div_mod::lemma_mod_multiples_vanish(hi * j, lo / d, 256);
}

proof fn lemma_big_endian64_halves(u: int)
    requires
        0 <= u < 0x1_0000_0000_0000_0000,
    ensures
        big_endian64(u) == big_endian32(u / 0x1_0000_0000) + big_endian32(u % 0x1_0000_0000),
{
    let hi = u / 0x1_0000_0000;
    let lo = u % 0x1_0000_0000;
    lemma_high_quotients(u);
    lemma_low_quotient(u, 0x100);
    lemma_low_quotient(u, 0x1_0000);
    lemma_low_quotient(u, 0x100_0000);
    assert(lo / 0x100_0000 < 256);
    assert(u / 0x1_0000_0000 % 256 == hi % 256);
    assert(u % 256 == lo % 256);
    assert(big_endian64(u) =~= big_endian32(hi) + big_endian32(lo));
}

proof fn lemma_value_of_big_endian64(u: int)
    requires
        0 <= u < 0x1_0000_0000_0000_0000,
    ensures
        value64(big_endian64(u)) == u,
{
    let hi = u / 0x1_0000_0000;
    let lo = u % 0x1_0000_0000;
    lemma_big_endian64_halves(u);
    lemma_value_of_big_endian32(hi);
    lemma_value_of_big_endian32(lo);
    let s = big_endian64(u);
    assert(s.subrange(0, 4) =~= big_endian32(hi));
    assert(s.subrange(4, 8) =~= big_endian32(lo));
}

proof fn lemma_big_endian_of_value64(s: Seq<u8>)
    requires
        s.len() == 8,
    ensures
        0 <= value64(s) < 0x1_0000_0000_0000_0000,
        big_endian64(value64(s)) == s,
{
    let hi = value32(s.subrange(0, 4));
    let lo = value32(s.subrange(4, 8));
    lemma_big_endian_of_value32(s.subrange(0, 4));
    lemma_big_endian_of_value32(s.subrange(4, 8));
    let u = value64(s);
    assert(u / 0x1_0000_0000 == hi && u % 0x1_0000_0000 == lo);
    lemma_big_endian64_halves(u);
    assert(s.subrange(0, 4) + s.subrange(4, 8) =~= s);
}

proof fn lemma_fieldwise_of_serialized(p: SessionPayload)
    ensures
        fieldwise(p.serialized()) == Some(p),
{
    let bytes = p.serialized();
    let id = unsigned32(p.subject_id);
    let at = unsigned64(p.issued_at);
    lemma_value_of_big_endian32(id);
    lemma_value_of_big_endian64(at);
    assert(bytes.subrange(0, 4) =~= big_endian32(id));
    assert(bytes.subrange(4, 12) =~= big_endian64(at));
    assert(bytes[12] == p.role_scope.tag());
}

proof fn lemma_serialized_of_fieldwise(bytes: Seq<u8>)
    requires
        fieldwise(bytes) is Some,
    ensures
        fieldwise(bytes).unwrap().serialized() == bytes,
{
    let p = fieldwise(bytes).unwrap();
    let id = value32(bytes.subrange(0, 4));
    let at = value64(bytes.subrange(4, 12));
    lemma_big_endian_of_value32(bytes.subrange(0, 4));
    lemma_big_endian_of_value64(bytes.subrange(4, 12));
    assert(unsigned32(p.subject_id) == id);
    assert(unsigned64(p.issued_at) == at);
    assert(p.serialized() =~= bytes);
}

/// Parsing, as defined by inversion, is what the field-by-field reading
/// computes.
proof fn lemma_parsed_is_fieldwise(bytes: Seq<u8>)
    ensures
        SessionPayload::parsed(bytes) == fieldwise(bytes),
{
    match fieldwise(bytes) {
        Some(p) => {
            lemma_serialized_of_fieldwise(bytes);
            let chosen = choose|q: SessionPayload| q.serialized() == bytes;
            lemma_fieldwise_of_serialized(chosen);
        },
        None => {
            if exists|p: SessionPayload| p.serialized() == bytes {
                let p = choose|p: SessionPayload| p.serialized() == bytes;
                lemma_fieldwise_of_serialized(p);
            }
        },
    }
}

/// Parsing undoes serializing.
pub proof fn lemma_parsed_of_serialized(p: SessionPayload)
    ensures
        SessionPayload::parsed(p.serialized()) == Some(p),
{
    lemma_parsed_is_fieldwise(p.serialized());
    lemma_fieldwise_of_serialized(p);
}

fn unsigned32_of(v: i32) -> (u: u32)
    ensures
        u == unsigned32(v),
{
    if v >= 0 {
        v as u32
    } else {
        (v + 1 + i32::MAX) as u32 + 0x8000_0000
    }
}

fn unsigned64_of(v: i64) -> (u: u64)
    ensures
        u == unsigned64(v),
{
    if v >= 0 {
        v as u64
    } else {
        (v + 1 + i64::MAX) as u64 + 0x8000_0000_0000_0000
    }
}

fn signed32_of(u: u32) -> (v: i32)
    ensures
        v == if u < 0x8000_0000 {
            u as int
        } else {
            u - 0x1_0000_0000
        },
{
    if u < 0x8000_0000 {
        u as i32
    } else {
        (u - 0x8000_0000) as i32 + i32::MIN
    }
}

fn signed64_of(u: u64) -> (v: i64)
    ensures
        v == if u < 0x8000_0000_0000_0000 {
            u as int
        } else {
            u - 0x1_0000_0000_0000_0000
        },
{
    if u < 0x8000_0000_0000_0000 {
        u as i64
    } else {
        (u - 0x8000_0000_0000_0000) as i64 + i64::MIN
    }
}

} // verus!
