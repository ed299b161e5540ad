//! The user data model: roles and the sync payload.

use vstd::prelude::*;

use crate::text::same;

verus! {

/// What a signed-in person may do.
#[derive(Debug, Clone, Copy, PartialEq, Eq, Structural)]
pub enum Role {
    /// Editor rights plus user management.
    Admin,
    /// Writer rights plus reviewing/approving documents (never their own:
    /// document control requires an independent approver).
    Editor,
    /// May create, edit and submit documents, but not approve any.
    Writer,
    /// Read-only: the default for a first sign-in.
    Viewer,
}

/// A role string as stored in the database and sent over the API.
pub open spec fn is_allowed_role(s: Seq<char>) -> bool {
    s == "admin"@ || s == "editor"@ || s == "writer"@ || s == "viewer"@
}

/// The role that a stored string stands for: anything unknown degrades to
/// read-only.
pub open spec fn role_of(s: Seq<char>) -> Role {
    if s == "admin"@ {
        Role::Admin
    } else if s == "editor"@ {
        Role::Editor
    } else if s == "writer"@ {
        Role::Writer
    } else {
        Role::Viewer
    }
}

/// The role may write documents.
pub open spec fn may_write(role: Role) -> bool {
    role is Admin || role is Editor || role is Writer
}

/// The role may review and approve documents.
pub open spec fn may_approve(role: Role) -> bool {
    role is Admin || role is Editor
}

/// Each role may do what the ones below it may: who manages users may approve,
/// who may approve may write, and a viewer may do none of it.
pub proof fn roles_are_nested(role: Role)
    ensures
        role is Admin ==> may_approve(role),
        may_approve(role) ==> may_write(role),
        role is Viewer <==> !may_write(role),
{
}

impl Role {
    /// Parse a stored role string; anything unknown degrades to read-only.
    pub fn parse(s: &str) -> (r: Role)
        ensures
            r == role_of(s@),
    {
        if same(s, "admin") {
            Role::Admin
        } else if same(s, "editor") {
            Role::Editor
        } else if same(s, "writer") {
            Role::Writer
        } else {
            Role::Viewer
        }
    }

    /// Whether the role may write documents.
    pub fn can_write(self) -> (r: bool)
        ensures
            r == may_write(self),
    {
        matches!(self, Role::Admin | Role::Editor | Role::Writer)
    }

    /// Reviewing/approving documents is reserved for editors and admins.
    pub fn can_approve(self) -> (r: bool)
        ensures
            r == may_approve(self),
    {
        matches!(self, Role::Admin | Role::Editor)
    }
}

/// Payload the frontend sends after a session loads. Profile fields only: the
/// role is never client-controlled, and the email is overridden by the
/// proxy-asserted identity when present.
#[derive(Debug)]
pub struct SyncUser {
    pub email: String,
    /// Display name ("First Last", falling back to the email).
    pub name: String,
    pub first_name: String,
    pub last_name: String,
    pub username: String,
    /// The account's id in the Main API (stringified, as it may be numeric).
    pub main_api_id: String,
}

/// What a [`SyncUser`] holds.
pub struct SyncUserView {
    pub email: Seq<char>,
    pub name: Seq<char>,
    pub first_name: Seq<char>,
    pub last_name: Seq<char>,
    pub username: Seq<char>,
    pub main_api_id: Seq<char>,
}

impl View for SyncUser {
    type V = SyncUserView;

    open spec fn view(&self) -> SyncUserView {
        SyncUserView {
            email: self.email@,
            name: self.name@,
            first_name: self.first_name@,
            last_name: self.last_name@,
            username: self.username@,
            main_api_id: self.main_api_id@,
        }
    }
}

// ---------------------------------------------------------------------------
// Laws
// ---------------------------------------------------------------------------

/// A stored role is one of three names, and whatever else is stored is the role
/// of a viewer. Each role has its rights.
pub proof fn roles_are_named(s: Seq<char>)
    ensures
        role_of(s) is Admin <==> s == "admin"@,
        role_of(s) is Editor <==> s == "editor"@,
        role_of(s) is Writer <==> s == "writer"@,
        role_of(s) is Viewer <==> s != "admin"@ && s != "editor"@ && s != "writer"@,
        is_allowed_role(s) <==> s == "viewer"@ || !(role_of(s) is Viewer),
        may_write(Role::Admin) && may_write(Role::Editor) && may_write(Role::Writer) && !may_write(
            Role::Viewer,
        ),
        may_approve(Role::Admin) && may_approve(Role::Editor) && !may_approve(Role::Writer)
            && !may_approve(Role::Viewer),
{
    reveal_strlit("admin");
    reveal_strlit("editor");
    reveal_strlit("writer");
    reveal_strlit("viewer");
    assert("editor"@[0] != "writer"@[0]);
    assert("admin"@.len() != "editor"@.len());
    assert("admin"@.len() != "writer"@.len());
    assert("viewer"@[0] != "editor"@[0]);
    assert("viewer"@[0] != "writer"@[0]);
}

} // verus!
