use vstd::prelude::*;

verus! {

/// What a user may do.
#[derive(Debug, Clone, Copy, PartialEq, Eq, Structural)]
pub enum UserRole {
    Member,
    Admin,
}

/// The snake_case text under which a role is stored and sent.
pub open spec fn user_role_name(role: UserRole) -> Seq<char> {
    match role {
        UserRole::Member => "member"@,
        UserRole::Admin => "admin"@,
    }
}

impl UserRole {
    /// The stored name of this role.
    pub fn as_str(&self) -> (name: &'static str)
        ensures
            name@ == user_role_name(*self),
    {
        match self {
            UserRole::Member => "member",
            UserRole::Admin => "admin",
        }
    }
}

/// A stored user; its id is the text of the row id.
#[derive(Debug)]
pub struct User {
    pub id: String,
    pub name: String,
    pub role: UserRole,
}

/// A user to be created.
#[derive(Debug)]
pub struct NewUser {
    pub name: String,
    pub role: UserRole,
}


/// Distinct roles are stored under distinct names, so the stored text
/// tells which one was meant.
pub proof fn lemma_user_role_names_distinct(a: UserRole, b: UserRole)
    ensures
        user_role_name(a) == user_role_name(b) ==> a == b,
{
    if user_role_name(a) == user_role_name(b) && a != b {
        reveal_strlit("member");
        reveal_strlit("admin");
        assert(user_role_name(a)[0] == user_role_name(b)[0]);
        assert(user_role_name(a).len() == user_role_name(b).len());
        assert(user_role_name(a)[1] == user_role_name(b)[1]);
        assert(user_role_name(a)[2] == user_role_name(b)[2]);
    }
}

} // verus!
