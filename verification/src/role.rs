//! The closed set of roles a caller can hold.

use vstd::prelude::*;
use vstd::string::*;
use vstd::utf8::encode_utf8;
use crate::bytes::bytes_eq;

verus! {

/// A role carried by a token and required by a route.
#[derive(Clone, Copy, Debug, PartialEq, Eq, Structural)]
pub enum Role {
    User,
    Admin,
}

impl Role {
    /// The bytes of the role's name as it is stored and as a token carries it:
    /// `User` or `Admin`.
    pub open spec fn name(self) -> Seq<u8> {
        match self {
            Role::User => seq![85u8, 115, 101, 114],
            Role::Admin => seq![65u8, 100, 109, 105, 110],
        }
    }

    /// The role with the given name. A name that is not exactly one of the two
    /// stands for no role at all.
    pub open spec fn of_name(name: Seq<u8>) -> Option<Role> {
        if name == Role::Admin.name() {
            Some(Role::Admin)
        } else if name == Role::User.name() {
            Some(Role::User)
        } else {
            None
        }
    }

    /// Every role is found again by its name.
    pub proof fn lemma_of_name(self)
        ensures
            Role::of_name(self.name()) == Some(self),
    {
        assert(Role::User.name()[0] != Role::Admin.name()[0]);
    }

    /// The role's name.
    pub fn as_str(&self) -> (s: &'static str)
        ensures
            encode_utf8(s@) == self.name(),
    {
        match self {
            Role::User => {
                let s = "User";
                proof {
                    reveal_strlit("User");
                    vstd::utf8::is_ascii_chars_encode_utf8(s@);
                    assert(s.spec_bytes() =~= self.name());
                }
                s
            },
            Role::Admin => {
                let s = "Admin";
                proof {
                    reveal_strlit("Admin");
                    vstd::utf8::is_ascii_chars_encode_utf8(s@);
                    assert(s.spec_bytes() =~= self.name());
                }
                s
            },
        }
    }

    /// The role's name as an owned string.
    pub fn to_string(&self) -> (s: String)
        ensures
            encode_utf8(s@) == self.name(),
    {
        self.as_str().to_owned()
    }

    /// Reads a role from the bytes of its name; `None` for any other bytes.
    pub fn from_bytes(name: &[u8]) -> (r: Option<Role>)
        ensures
            r == Role::of_name(name@),
    {
        let admin: [u8; 5] = [65, 100, 109, 105, 110];
        let user: [u8; 4] = [85, 115, 101, 114];
        assert(admin@ =~= Role::Admin.name());
        assert(user@ =~= Role::User.name());
        if bytes_eq(name, admin.as_slice()) {
            Some(Role::Admin)
        } else if bytes_eq(name, user.as_slice()) {
            Some(Role::User)
        } else {
            None
        }
    }

    /// Reads a role from a stored string. Unknown strings are refused rather
    /// than mapped to some default role.
    pub fn from_str(role: &str) -> (r: Option<Role>)
        ensures
            r == Role::of_name(encode_utf8(role@)),
    {
        Role::from_bytes(role.as_bytes())
    }
}

} // verus!
