//! The wire form of a cookie: the value of the `Set-Cookie` header that
//! places it on a response.

use vstd::prelude::*;
use crate::codec::append;
use crate::codec::SameSite;
use crate::codec::SetCookie;

verus! {

/// The decimal digits of `n`, as ASCII.
pub open spec fn decimal(n: nat) -> Seq<u8>
    decreases n,
{
    if n < 10 {
        seq![(48 + n) as u8]
    } else {
        decimal(n / 10).push((48 + n % 10) as u8)
    }
}

/// The text `; Path=`.
pub open spec fn path_label() -> Seq<u8> {
    seq![59u8, 32u8, 80u8, 97u8, 116u8, 104u8, 61u8]
}

/// The text `; Max-Age=`.
pub open spec fn max_age_label() -> Seq<u8> {
    seq![59u8, 32u8, 77u8, 97u8, 120u8, 45u8, 65u8, 103u8, 101u8, 61u8]
}

/// The text `; Secure`.
pub open spec fn secure_label() -> Seq<u8> {
    seq![59u8, 32u8, 83u8, 101u8, 99u8, 117u8, 114u8, 101u8]
}

/// The text `; SameSite=`.
pub open spec fn same_site_label() -> Seq<u8> {
    seq![59u8, 32u8, 83u8, 97u8, 109u8, 101u8, 83u8, 105u8, 116u8, 101u8, 61u8]
}

/// The word for a `SameSite` policy: `Strict`, `Lax` or `None`.
pub open spec fn same_site_word(policy: SameSite) -> Seq<u8> {
    match policy {
        SameSite::Strict => seq![83u8, 116u8, 114u8, 105u8, 99u8, 116u8],
        SameSite::Lax => seq![76u8, 97u8, 120u8],
        SameSite::Unrestricted => seq![78u8, 111u8, 110u8, 101u8],
    }
}

impl SetCookie {
    /// The header value of this cookie: the name, `=` and the value, then the
    /// path, the lifetime, `Secure` where asked for, and the `SameSite`
    /// policy, each behind `; `.
    pub open spec fn header(self) -> Seq<u8> {
        self.name@ + seq![61u8] + self.value@ + path_label() + self.path@ + max_age_label()
            + decimal(self.max_age as nat) + if self.secure {
            secure_label()
        } else {
            Seq::empty()
        } + same_site_label() + same_site_word(self.same_site)
    }

    /// Renders the header value of this cookie.
    pub fn to_header_value(&self) -> (rendered: Vec<u8>)
        ensures
            rendered@ == self.header(),
    {
        let mut rendered: Vec<u8> = Vec::new();
        append(&mut rendered, self.name.as_slice());
        rendered.push(61);
        append(&mut rendered, self.value.as_slice());
        append(&mut rendered, path_text().as_slice());
        append(&mut rendered, self.path.as_slice());
        append(&mut rendered, max_age_text().as_slice());
        push_decimal(&mut rendered, self.max_age);
        if self.secure {
            append(&mut rendered, secure_text().as_slice());
        }
        append(&mut rendered, same_site_text().as_slice());
        append(&mut rendered, same_site_name(self.same_site).as_slice());
        assert(rendered@ =~= self.header());
        rendered
    }
}

/// The decimal digits of `n`.
pub fn decimal_of(n: u64) -> (digits: Vec<u8>)
    ensures
        digits@ == decimal(n as nat),
{
    let mut digits: Vec<u8> = Vec::new();
    push_decimal(&mut digits, n);
    assert(digits@ =~= decimal(n as nat));
    digits
}

fn push_decimal(out: &mut Vec<u8>, n: u64)
    ensures
        final(out)@ == old(out)@ + decimal(n as nat),
    decreases n,
{
    if n >= 10 {
        push_decimal(out, n / 10);
    }
    out.push(48 + (n % 10) as u8);
    assert(out@ =~= old(out)@ + decimal(n as nat));
}

fn path_text() -> (text: Vec<u8>)
    ensures
        text@ == path_label(),
{
    let text: Vec<u8> = vec![59u8, 32u8, 80u8, 97u8, 116u8, 104u8, 61u8];
    assert(text@ =~= path_label());
    text
}

fn max_age_text() -> (text: Vec<u8>)
    ensures
        text@ == max_age_label(),
{
    let text: Vec<u8> = vec![59u8, 32u8, 77u8, 97u8, 120u8, 45u8, 65u8, 103u8, 101u8, 61u8];
    assert(text@ =~= max_age_label());
    text
}

fn secure_text() -> (text: Vec<u8>)
    ensures
        text@ == secure_label(),
{
    let text: Vec<u8> = vec![59u8, 32u8, 83u8, 101u8, 99u8, 117u8, 114u8, 101u8];
    assert(text@ =~= secure_label());
    text
}

fn same_site_text() -> (text: Vec<u8>)
    ensures
        text@ == same_site_label(),
{
    let text: Vec<u8> = vec![
        59u8,
        32u8,
        83u8,
        97u8,
        109u8,
        101u8,
        83u8,
        105u8,
        116u8,
        101u8,
        61u8,
    ];
    assert(text@ =~= same_site_label());
    text
}

fn same_site_name(policy: SameSite) -> (text: Vec<u8>)
    ensures
        text@ == same_site_word(policy),
{
    let text: Vec<u8> = match policy {
        SameSite::Strict => vec![83u8, 116u8, 114u8, 105u8, 99u8, 116u8],
        SameSite::Lax => vec![76u8, 97u8, 120u8],
        SameSite::Unrestricted => vec![78u8, 111u8, 110u8, 101u8],
    };
    assert(text@ =~= same_site_word(policy));
    text
}

} // verus!
