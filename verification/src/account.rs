//! Account records as the credential store holds them, and what a lookup in
//! the store can answer.

use vstd::prelude::*;

verus! {

/// The role of an account.
#[derive(Clone, Copy, Debug, PartialEq, Eq, Structural)]
pub enum Role {
    User,
    Admin,
}

impl Role {
    /// The name of the role as the store spells it: `user` or `admin`.
    pub open spec fn label(self) -> Seq<u8> {
        match self {
            Role::User => seq![117u8, 115u8, 101u8, 114u8],
            Role::Admin => seq![97u8, 100u8, 109u8, 105u8, 110u8],
        }
    }

    /// The role that `name` spells, if it spells one.
    pub open spec fn labelled(name: Seq<u8>) -> Option<Role> {
        if name == Role::User.label() {
            Some(Role::User)
        } else if name == Role::Admin.label() {
            Some(Role::Admin)
        } else {
            None
        }
    }

    /// The name of the role.
    pub fn name(self) -> (name: Vec<u8>)
        ensures
            name@ == self.label(),
    {
        let mut name: Vec<u8> = Vec::new();
        match self {
            Role::User => {
                name.push(117);
                name.push(115);
                name.push(101);
                name.push(114);
            },
            Role::Admin => {
                name.push(97);
                name.push(100);
                name.push(109);
                name.push(105);
                name.push(110);
            },
        }
        assert(name@ =~= self.label());
        name
    }

    /// Reads a role from its name. Any other name gives `None`.
    pub fn from_name(name: &[u8]) -> (role: Option<Role>)
        ensures
            role == Role::labelled(name@),
    {
        if name.len() == 4 && name[0] == 117 && name[1] == 115 && name[2] == 101 && name[3]
            == 114 {
            assert(name@ =~= Role::User.label());
            Some(Role::User)
        } else if name.len() == 5 && name[0] == 97 && name[1] == 100 && name[2] == 109 && name[3]
            == 105 && name[4] == 110 {
            assert(name@ =~= Role::Admin.label());
            assert(Role::Admin.label().len() != Role::User.label().len());
            Some(Role::Admin)
        } else {
            assert(name@ != Role::User.label()) by {
                if name@ == Role::User.label() {
                    assert(Role::User.label().len() == 4);
                    assert(Role::User.label()[0] == 117 && Role::User.label()[1] == 115
                        && Role::User.label()[2] == 101 && Role::User.label()[3] == 114);
                }
            }
            assert(name@ != Role::Admin.label()) by {
                if name@ == Role::Admin.label() {
                    assert(Role::Admin.label().len() == 5);
                    assert(Role::Admin.label()[0] == 97 && Role::Admin.label()[1] == 100
                        && Role::Admin.label()[2] == 109 && Role::Admin.label()[3] == 105
                        && Role::Admin.label()[4] == 110);
                }
            }
            None
        }
    }
}

/// The authoritative state of one user, as the credential store holds it.
#[derive(Clone, Debug, PartialEq, Eq)]
pub struct AccountRecord {
    pub id: i32,
    pub username: String,
    /// The encoded hash of the password, with its salt.
    pub password_hash: String,
    pub nickname: String,
    pub role: Role,
}

/// What of an account may be shown to its holder: the record without the
/// password hash.
#[derive(Clone, Debug, PartialEq, Eq)]
pub struct Profile {
    pub id: i32,
    pub username: String,
    pub nickname: String,
    pub role: Role,
}

impl AccountRecord {
    /// Whether this account may change or remove what belongs to the account
    /// `owner_id`: its own things, and an administrator everybody's.
    pub open spec fn manages(self, owner_id: i32) -> bool {
        self.id == owner_id || self.role == Role::Admin
    }

    pub fn may_manage(&self, owner_id: i32) -> (allowed: bool)
        ensures
            allowed == self.manages(owner_id),
    {
        self.id == owner_id || matches!(self.role, Role::Admin)
    }

    /// The record without its password hash.
    pub fn into_profile(self) -> (profile: Profile)
        ensures
            profile.id == self.id,
            profile.username == self.username,
            profile.nickname == self.nickname,
            profile.role == self.role,
    {
        Profile { id: self.id, username: self.username, nickname: self.nickname, role: self.role }
    }
}

/// What the credential store answers to a lookup.
#[derive(Clone, Debug, PartialEq, Eq)]
pub enum StoreReply {
    /// The record, as it is in the store now.
    Found(AccountRecord),
    /// No such account.
    NotFound,
    /// The store could not be asked.
    StoreError,
}

} // verus!
