use cookie_session::codec::{CookieCodec, SameSite, SetCookie};
use cookie_session::payload::{SessionPayload, TrustDomain};

fn cookie(max_age: u64, secure: bool, same_site: SameSite) -> SetCookie {
    SetCookie {
        name: b"user".to_vec(),
        value: b"abc.def".to_vec(),
        path: b"/".to_vec(),
        max_age,
        secure,
        same_site,
    }
}

#[test]
fn renders_the_wire_form_of_a_cookie() {
    assert_eq!(
        cookie(2_592_000, true, SameSite::Strict).to_header_value(),
        b"user=abc.def; Path=/; Max-Age=2592000; Secure; SameSite=Strict".to_vec()
    );
}

#[test]
fn leaves_out_secure_where_it_is_not_asked_for() {
    assert_eq!(
        cookie(60, false, SameSite::Lax).to_header_value(),
        b"user=abc.def; Path=/; Max-Age=60; SameSite=Lax".to_vec()
    );
}

#[test]
fn renders_the_unrestricted_policy_as_none() {
    assert_eq!(
        cookie(1, false, SameSite::Unrestricted).to_header_value(),
        b"user=abc.def; Path=/; Max-Age=1; SameSite=None".to_vec()
    );
}

#[test]
fn renders_every_lifetime_in_decimal() {
    for (max_age, text) in [
        (0u64, "0"),
        (9, "9"),
        (10, "10"),
        (109, "109"),
        (1_000_000, "1000000"),
        (u64::MAX, "18446744073709551615"),
    ] {
        assert_eq!(
            String::from_utf8(cookie(max_age, true, SameSite::Strict).to_header_value()).unwrap(),
            format!("user=abc.def; Path=/; Max-Age={}; Secure; SameSite=Strict", text)
        );
    }
}

#[test]
fn renders_an_encoded_session() {
    let codec = CookieCodec::new(
        b"0123456789abcdef0123456789abcdef",
        b"user",
        b"/",
        true,
        2_592_000,
        SameSite::Strict,
    );
    let payload =
        SessionPayload { subject_id: 7, issued_at: 1_700_000_000, role_scope: TrustDomain::User };
    assert_eq!(
        String::from_utf8(codec.encode(&payload).to_header_value()).unwrap(),
        "user=AAAABwAAAABlU_EAAA.hy-56tuh80xNOkpQ4KI9-M32Xn5zL2iqaLhwr8HCO-0; Path=/; \
         Max-Age=2592000; Secure; SameSite=Strict"
    );
}

#[test]
fn renders_a_removal() {
    let codec = CookieCodec::new(b"key", b"admin", b"/admin", false, 600, SameSite::Lax);
    assert_eq!(
        codec.removal().to_header_value(),
        b"admin=; Path=/admin; Max-Age=0; SameSite=Lax".to_vec()
    );
}
