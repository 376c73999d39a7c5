use cookie_session::payload::{SessionPayload, TrustDomain, PAYLOAD_LEN};

#[test]
fn serializes_to_thirteen_big_endian_bytes() {
    let payload =
        SessionPayload { subject_id: 7, issued_at: 1_700_000_000, role_scope: TrustDomain::User };
    assert_eq!(payload.to_bytes(), vec![0, 0, 0, 7, 0, 0, 0, 0, 101, 83, 241, 0, 0]);
    assert_eq!(payload.to_bytes().len(), PAYLOAD_LEN);
}

#[test]
fn serializes_negative_numbers_in_twos_complement() {
    let payload = SessionPayload { subject_id: -1, issued_at: -2, role_scope: TrustDomain::Admin };
    assert_eq!(
        payload.to_bytes(),
        vec![255, 255, 255, 255, 255, 255, 255, 255, 255, 255, 255, 254, 1]
    );
}

#[test]
fn parses_what_it_serialized() {
    let ids = [0, 1, 7, -1, 255, 256, 65_536, i32::MAX, i32::MIN];
    let times = [0, 1, -1, 1_700_000_000, 4_294_967_296, i64::MAX, i64::MIN];
    for id in ids {
        for at in times {
            for role_scope in [TrustDomain::User, TrustDomain::Admin] {
                let payload = SessionPayload { subject_id: id, issued_at: at, role_scope };
                assert_eq!(SessionPayload::parse(&payload.to_bytes()), Some(payload));
            }
        }
    }
}

#[test]
fn parses_a_known_byte_form() {
    assert_eq!(
        SessionPayload::parse(&[0, 0, 1, 0, 0, 0, 0, 1, 0, 0, 0, 0, 1]),
        Some(SessionPayload {
            subject_id: 256,
            issued_at: 4_294_967_296,
            role_scope: TrustDomain::Admin
        })
    );
}

#[test]
fn rejects_a_byte_form_of_the_wrong_length() {
    assert_eq!(SessionPayload::parse(&[]), None);
    assert_eq!(SessionPayload::parse(&[0; 12]), None);
    assert_eq!(SessionPayload::parse(&[0; 14]), None);
}

#[test]
fn rejects_an_unknown_domain_byte() {
    let mut bytes = [0u8; 13];
    bytes[12] = 2;
    assert_eq!(SessionPayload::parse(&bytes), None);
    bytes[12] = 255;
    assert_eq!(SessionPayload::parse(&bytes), None);
}
