//! The `user` resource: everyone who has signed in, with their role.
//!
//! Caller identity comes from a request header that the authenticating proxy
//! sets from the validated session and never passes through from the browser.
//! A request without that header did not come through the proxy: that is local
//! development, and is fully trusted.

pub mod model;
pub mod set_role;
pub mod sync;

use vstd::prelude::*;

use crate::database::query::{query, BindView, ParamView, Query, QueryView};
use crate::database::users::model::{may_approve, may_write, role_of, Role};
use crate::error::{AppError, ErrorView};
use crate::text::{chars_of, is_space, lower, lower_char, lowered, same, string_of, trim, trim_end,
    trim_end_is_prefix, trim_start, trim_start_is_suffix, trimmed};

verus! {

/// The permanent administrator: created as an admin on first sign-in and
/// impossible to demote. Their address is in its normal form, as that of every
/// caller is. Where no address is configured, it is a placeholder that nobody can
/// sign in as.
pub fn bootstrap_admin(configured: Option<&str>) -> (r: String)
    ensures
        r@ == bootstrap_email(configured),
{
    match configured {
        Some(email) => normalized(email),
        None => "admin@example.com".to_string(),
    }
}

/// The permanent administrator is recognised however their address is written,
/// in the configuration and by the proxy: it is compared in its normal form.
pub proof fn bootstrap_is_recognised(configured: Seq<char>, header: &str)
    requires
        normal_email(header@) == normal_email(configured),
        normal_email(configured).len() > 0,
    ensures
        identity(Some(header)) == Some(normal_email(configured)),
{
}

/// The address of the permanent administrator.
pub open spec fn bootstrap_email(configured: Option<&str>) -> Seq<char> {
    match configured {
        Some(email) => normal_email(email@),
        None => "admin@example.com"@,
    }
}

/// An email as it is compared and stored: trimmed, in lower case.
pub open spec fn normal_email(s: Seq<char>) -> Seq<char> {
    lower(trim(s))
}

/// The identity that the header `header` asserts: none where it is missing or
/// blank.
pub open spec fn identity(header: Option<&str>) -> Option<Seq<char>> {
    match header {
        Some(s) => if normal_email(s@).len() > 0 {
            Some(normal_email(s@))
        } else {
            None
        },
        None => None,
    }
}

/// An email that is in its normal form stays as it is.
pub proof fn normal_email_twice(s: Seq<char>)
    ensures
        normal_email(normal_email(s)) == normal_email(s),
{
    let t = trim_start(s);
    let u = trim_end(t);
    let e = lower(u);
    trim_start_is_suffix(s);
    trim_end_is_prefix(t);
    assert forall|c: char| is_space(#[trigger] lower_char(c)) == is_space(c) by {}
    if u.len() > 0 {
        assert(u[0] == t[0]);
        assert(e[0] == lower_char(u[0]));
        assert(e.last() == lower_char(u.last()));
    }
    assert(trim_start(e) == e);
    assert(trim_end(e) == e);
    crate::text::lower_twice(u);
}

/// `s` in its normal form.
pub(crate) fn normalized(s: &str) -> (r: String)
    ensures
        r@ == normal_email(s@),
{
    string_of(&lowered(&trimmed(&chars_of(s))))
}

/// The signed-in caller's email, as asserted by the authenticating proxy in the
/// header `header`.
pub fn caller_email(header: Option<&str>) -> (r: Option<String>)
    ensures
        r.deep_view() == identity(header),
{
    match header {
        Some(s) => {
            let email = normalized(s);
            if email.as_str().is_empty() {
                None
            } else {
                Some(email)
            }
        },
        None => None,
    }
}

/// How the role of a caller is found.
#[derive(Debug)]
pub enum RoleLookup {
    /// It is known without asking.
    Known(Role),
    /// The query answers with it.
    Ask(Query),
}

/// The query for the stored role of `email`.
pub open spec fn role_query(email: Seq<char>) -> QueryView {
    query(
        "look up caller role"@,
        "SELECT VALUE role FROM user WHERE email = $email LIMIT 1"@,
    ).text("email"@, email)
}

/// The role of the caller, where it is known without asking.
pub open spec fn known_role(caller: Option<Seq<char>>, bootstrap: Seq<char>) -> Option<Role> {
    match caller {
        None => Some(Role::Admin),
        Some(email) => if email == bootstrap {
            Some(Role::Admin)
        } else {
            None
        },
    }
}

/// How the role of the caller is found. No identity means no proxy: a trusted
/// local context. The bootstrap admin is an admin even before their record
/// exists.
pub fn caller_role(caller: Option<String>, bootstrap: &str) -> (r: RoleLookup)
    ensures
        match known_role(caller.deep_view(), bootstrap@) {
            Some(role) => r == RoleLookup::Known(role),
            None => r matches RoleLookup::Ask(q) && q@ == role_query(caller->0@),
        },
{
    match caller {
        None => RoleLookup::Known(Role::Admin),
        Some(email) => if same(email.as_str(), bootstrap) {
            RoleLookup::Known(Role::Admin)
        } else {
            RoleLookup::Ask(
                Query::new(
                    "look up caller role",
                    "SELECT VALUE role FROM user WHERE email = $email LIMIT 1".to_string(),
                ).text("email", email),
            )
        },
    }
}

/// The role of a caller whose stored role is `stored`.
pub open spec fn role_stored(stored: Option<Seq<char>>) -> Role {
    match stored {
        Some(s) => role_of(s),
        None => Role::Viewer,
    }
}

/// The role of a caller whose stored role is `stored`: unknown callers, and
/// roles that are no text, are read-only.
pub fn stored_role(stored: Option<String>) -> (r: Role)
    ensures
        r == role_stored(stored.deep_view()),
{
    match stored {
        Some(s) => Role::parse(s.as_str()),
        None => Role::Viewer,
    }
}

/// Why a caller may not write documents.
pub open spec fn writer_error(role: Role) -> Option<ErrorView> {
    if may_write(role) {
        None
    } else {
        Some(
            ErrorView::Forbidden(
                "your account has read-only access — ask an administrator for the writer role"@,
            ),
        )
    }
}

/// Why a caller may not review documents.
pub open spec fn editor_error(role: Role) -> Option<ErrorView> {
    if may_approve(role) {
        None
    } else {
        Some(
            ErrorView::Forbidden("reviewing and approving documents requires the editor role"@),
        )
    }
}

/// Why a caller may not manage users.
pub open spec fn admin_error(role: Role) -> Option<ErrorView> {
    if role is Admin {
        None
    } else {
        Some(ErrorView::Forbidden("administrator access required"@))
    }
}

/// Guard: document writes require the writer (or a higher) role.
pub fn require_writer(role: Role) -> (r: Result<(), AppError>)
    ensures
        match r {
            Ok(()) => writer_error(role) is None,
            Err(e) => writer_error(role) == Some(e@),
        },
{
    if role.can_write() {
        Ok(())
    } else {
        Err(
            AppError::Forbidden(
                "your account has read-only access — ask an administrator for the writer role".to_string(),
            ),
        )
    }
}

/// Guard: reviewing/approving documents requires the editor (or admin) role.
pub fn require_editor(role: Role) -> (r: Result<(), AppError>)
    ensures
        match r {
            Ok(()) => editor_error(role) is None,
            Err(e) => editor_error(role) == Some(e@),
        },
{
    if role.can_approve() {
        Ok(())
    } else {
        Err(
            AppError::Forbidden(
                "reviewing and approving documents requires the editor role".to_string(),
            ),
        )
    }
}

/// Guard: user management requires the admin role.
pub fn require_admin(role: Role) -> (r: Result<(), AppError>)
    ensures
        match r {
            Ok(()) => admin_error(role) is None,
            Err(e) => admin_error(role) == Some(e@),
        },
{
    if role == Role::Admin {
        Ok(())
    } else {
        Err(AppError::Forbidden("administrator access required".to_string()))
    }
}

/// The query that ensures that the `user` table exists.
pub open spec fn table_query() -> QueryView {
    query(
        "define user table"@,
        "DEFINE TABLE IF NOT EXISTS user SCHEMALESS; DEFINE INDEX IF NOT EXISTS ux_user_email ON user FIELDS email UNIQUE;"@,
    )
}

/// The query that ensures that the `user` table exists, with emails unique so
/// that concurrent first sign-ins can never create duplicate people.
pub fn init() -> (r: Query)
    ensures
        r@ == table_query(),
{
    Query::new(
        "define user table",
        "DEFINE TABLE IF NOT EXISTS user SCHEMALESS; DEFINE INDEX IF NOT EXISTS ux_user_email ON user FIELDS email UNIQUE;".to_string(),
    )
}

/// The query for everyone who has signed in, by name.
pub fn list() -> (r: Query)
    ensures
        r@ == query("list users"@, "SELECT * FROM user ORDER BY name ASC"@),
{
    Query::new("list users", "SELECT * FROM user ORDER BY name ASC".to_string())
}

/// The email `email` is that of the permanent administrator.
pub open spec fn is_bootstrap(email: Option<Seq<char>>, bootstrap: Seq<char>) -> bool {
    email == Some(bootstrap)
}

/// Whether a listed user with the email `email` is the permanent administrator,
/// whose role cannot be changed.
pub fn is_permanent(email: Option<&str>, bootstrap: &str) -> (r: bool)
    ensures
        r == is_bootstrap(
            (match email {
                Some(e) => Some(e@),
                None => None,
            }),
            bootstrap@,
        ),
{
    match email {
        Some(e) => same(e, bootstrap),
        None => false,
    }
}

// ---------------------------------------------------------------------------
// Laws
// ---------------------------------------------------------------------------

/// An email in its normal form is the address without the white space around it,
/// in lower case, whatever address it is.
pub proof fn normal_email_is_the_address(a: Seq<char>, email: Seq<char>, b: Seq<char>)
    requires
        forall|i: int| 0 <= i < a.len() ==> is_space(#[trigger] a[i]),
        forall|i: int| 0 <= i < b.len() ==> is_space(#[trigger] b[i]),
        email.len() > 0 ==> !is_space(email[0]) && !is_space(email.last()),
    ensures
        normal_email(a + email + b).len() == email.len(),
        forall|i: int|
            0 <= i < email.len() ==> #[trigger] normal_email(a + email + b)[i] == lower_char(
                email[i],
            ),
{
    crate::text::trimming_takes_the_ends(a, email, b);
}

/// A caller's identity is the normal form of the header, where that is not blank.
pub proof fn identity_is_the_header(header: &str)
    ensures
        identity(None) is None,
        crate::text::is_blank(header@) <==> identity(Some(header)) is None,
        identity(Some(header)) matches Some(email) ==> email == normal_email(header@),
        bootstrap_email(Some(header)) == normal_email(header@),
        bootstrap_email(None) == "admin@example.com"@,
{
}

/// The role of a caller is that of the record with their email, and emails are
/// unique.
pub proof fn role_is_looked_up_by_email(email: Seq<char>)
    ensures
        role_query(email).sql == "SELECT VALUE role FROM user WHERE email = $email LIMIT 1"@,
        role_query(email).binds.len() == 1,
        role_query(email).binds[0] == (BindView { name: "email"@, value: ParamView::Text(email) }),
        table_query().sql
            == "DEFINE TABLE IF NOT EXISTS user SCHEMALESS; DEFINE INDEX IF NOT EXISTS ux_user_email ON user FIELDS email UNIQUE;"@,
        table_query().binds.len() == 0,
{
}

/// Only a caller without identity and the permanent administrator are
/// administrators without being asked for; everyone else has the role that is
/// stored for them, and is a viewer where none is.
pub proof fn roles_are_stored(email: Seq<char>, bootstrap: Seq<char>, stored: Seq<char>)
    ensures
        known_role(None, bootstrap) == Some(Role::Admin),
        known_role(Some(bootstrap), bootstrap) == Some(Role::Admin),
        email != bootstrap ==> known_role(Some(email), bootstrap) is None,
        role_stored(None) == Role::Viewer,
        role_stored(Some(stored)) is Admin <==> stored == "admin"@,
        role_stored(Some(stored)) == role_of(stored),
        role_query(email).op == "look up caller role"@,
        table_query().op == "define user table"@,
{
    crate::database::users::model::roles_are_named(stored);
}

/// The guards let each role pass where it has the right, and name what is missing
/// where it has not: writing takes a writer, reviewing an editor, managing users
/// an administrator.
pub proof fn guards_go_by_role(role: Role, email: Seq<char>, bootstrap: Seq<char>)
    ensures
        role is Admin || role is Editor || role is Writer ==> writer_error(role) is None,
        role is Viewer ==> writer_error(role) == Some(
            ErrorView::Forbidden(
                "your account has read-only access — ask an administrator for the writer role"@,
            ),
        ),
        role is Admin || role is Editor ==> editor_error(role) is None,
        role is Writer || role is Viewer ==> editor_error(role) == Some(
            ErrorView::Forbidden("reviewing and approving documents requires the editor role"@),
        ),
        role is Admin ==> admin_error(role) is None,
        !(role is Admin) ==> admin_error(role) == Some(
            ErrorView::Forbidden("administrator access required"@),
        ),
        is_bootstrap(Some(email), bootstrap) <==> email == bootstrap,
        !is_bootstrap(None, bootstrap),
{
}

} // verus!
