use cookie_session::account::{AccountRecord, Profile, Role};

fn record(id: i32, role: Role) -> AccountRecord {
    AccountRecord {
        id,
        username: "alice".to_string(),
        password_hash: "$argon2id$v=19$...".to_string(),
        nickname: "Al".to_string(),
        role,
    }
}

#[test]
fn names_the_roles_as_the_store_spells_them() {
    assert_eq!(Role::User.name(), b"user".to_vec());
    assert_eq!(Role::Admin.name(), b"admin".to_vec());
}

#[test]
fn reads_a_role_from_its_name() {
    assert_eq!(Role::from_name(b"user"), Some(Role::User));
    assert_eq!(Role::from_name(b"admin"), Some(Role::Admin));
    assert_eq!(Role::from_name(&Role::Admin.name()), Some(Role::Admin));
}

#[test]
fn reads_no_role_from_another_name() {
    assert_eq!(Role::from_name(b""), None);
    assert_eq!(Role::from_name(b"User"), None);
    assert_eq!(Role::from_name(b"users"), None);
    assert_eq!(Role::from_name(b"admi"), None);
    assert_eq!(Role::from_name(b"root"), None);
    assert_eq!(Role::from_name(b"admix"), None);
}

#[test]
fn an_account_manages_what_it_owns() {
    assert!(record(7, Role::User).may_manage(7));
    assert!(!record(7, Role::User).may_manage(8));
}

#[test]
fn an_administrator_manages_everything() {
    assert!(record(1, Role::Admin).may_manage(1));
    assert!(record(1, Role::Admin).may_manage(7));
}

#[test]
fn a_profile_is_the_record_without_the_hash() {
    assert_eq!(
        record(7, Role::User).into_profile(),
        Profile {
            id: 7,
            username: "alice".to_string(),
            nickname: "Al".to_string(),
            role: Role::User
        }
    );
}
