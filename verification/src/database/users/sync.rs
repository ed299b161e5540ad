//! `POST /users/sync`: recording the signed-in person.
//!
//! Creates the person on first sign-in (as a viewer, the bootstrap admin as
//! admin) and refreshes the profile and last-seen fields afterwards. Existing
//! users' roles are never touched here: they belong to the admins.

use vstd::prelude::*;

use crate::clock::{is_utc, now_rfc3339};
use crate::database::query::{query, BindView, ParamView, Query, QueryView};
use crate::database::users::model::{SyncUser, SyncUserView};
use crate::database::users::{normal_email, normalized};
use crate::error::{AppError, ErrorView};
use crate::text::{blank, is_blank, same, trim, trimmed_str};

verus! {

/// The email that is recorded: the proxy-asserted identity wins, and the body's
/// is only used where no proxy is in play.
pub open spec fn synced_email(caller: Option<Seq<char>>, input: SyncUserView) -> Seq<char> {
    match caller {
        Some(email) => email,
        None => normal_email(input.email),
    }
}

/// The name that is recorded: the email where none is given.
pub open spec fn synced_name(email: Seq<char>, input: SyncUserView) -> Seq<char> {
    if is_blank(input.name) {
        email
    } else {
        trim(input.name)
    }
}

/// What becomes of the role: the bootstrap admin is pinned to the admin role on
/// every sync; everyone else keeps their role, a viewer's on first sign-in.
pub open spec fn role_clause(email: Seq<char>, bootstrap: Seq<char>) -> Seq<char> {
    if email == bootstrap {
        "role = 'admin'"@
    } else {
        "role = role ?? 'viewer'"@
    }
}

/// The query that records the person.
pub open spec fn sync_query(
    email: Seq<char>,
    input: SyncUserView,
    bootstrap: Seq<char>,
    now: Seq<char>,
) -> QueryView {
    query(
        "sync user"@,
        "UPSERT user SET email = $email, name = $name, first_name = $first_name, last_name = $last_name, username = $username, main_api_id = $main_api_id, first_seen_at = first_seen_at ?? $now, last_seen_at = $now, "@
            + role_clause(email, bootstrap) + " WHERE email = $email RETURN AFTER"@,
    ).text("email"@, email).text("name"@, synced_name(email, input)).text(
        "first_name"@,
        input.first_name,
    ).text("last_name"@, input.last_name).text("username"@, input.username).text(
        "main_api_id"@,
        input.main_api_id,
    ).text("now"@, now)
}

/// The query that records the person at the time `now`; a person without an
/// email is refused.
pub fn sync_at(input: SyncUser, caller: Option<String>, bootstrap: &str, now: String) -> (r: Result<
    Query,
    AppError,
>)
    ensures
        ({
            let email = synced_email(caller.deep_view(), input@);
            match r {
                Ok(q) => email.len() > 0 && q@ == sync_query(email, input@, bootstrap@, now@),
                Err(e) => email.len() == 0 && e@ == ErrorView::BadRequest("email is required"@),
            }
        }),
{
    let email = match caller {
        Some(email) => email,
        None => normalized(input.email.as_str()),
    };
    if email.as_str().is_empty() {
        return Err(AppError::BadRequest("email is required".to_string()));
    }
    let mut sql = "UPSERT user SET email = $email, name = $name, first_name = $first_name, last_name = $last_name, username = $username, main_api_id = $main_api_id, first_seen_at = first_seen_at ?? $now, last_seen_at = $now, ".to_string();
    if same(email.as_str(), bootstrap) {
        sql.append("role = 'admin'");
    } else {
        sql.append("role = role ?? 'viewer'");
    }
    sql.append(" WHERE email = $email RETURN AFTER");
    let name = if blank(input.name.as_str()) {
        email.clone()
    } else {
        trimmed_str(input.name.as_str())
    };
    Ok(
        Query::new("sync user", sql).text("email", email).text("name", name).text(
            "first_name",
            input.first_name,
        ).text("last_name", input.last_name).text("username", input.username).text(
            "main_api_id",
            input.main_api_id,
        ).text("now", now),
    )
}

/// The query that records the person now.
pub fn sync(input: SyncUser, caller: Option<String>, bootstrap: &str) -> (r: Result<
    Query,
    AppError,
>)
    ensures
        ({
            let email = synced_email(caller.deep_view(), input@);
            match r {
                Ok(q) => email.len() > 0 && exists|now: Seq<char>|
                    is_utc(now) && q@ == #[trigger] sync_query(email, input@, bootstrap@, now),
                Err(e) => email.len() == 0 && e@ == ErrorView::BadRequest("email is required"@),
            }
        }),
{
    let now = now_rfc3339();
    sync_at(input, caller, bootstrap, now)
}

/// What the client sends of itself never decides whose record is written, nor
/// its role: with an asserted identity, the address that is written and the
/// role clause are the same whatever the payload.
pub proof fn payload_decides_no_role(
    caller: Seq<char>,
    a: SyncUserView,
    b: SyncUserView,
    bootstrap: Seq<char>,
    now: Seq<char>,
)
    ensures
        ({
            let x = sync_query(synced_email(Some(caller), a), a, bootstrap, now);
            let y = sync_query(synced_email(Some(caller), b), b, bootstrap, now);
            x.sql == y.sql && x.binds[0] == y.binds[0]
        }),
{
}

// ---------------------------------------------------------------------------
// Laws
// ---------------------------------------------------------------------------

/// A sign-in writes the profile as it was sent, under the caller's email; the
/// time of the first sign-in is kept, that of the last is now. Only the permanent
/// administrator gets a role written, everyone else keeps theirs.
pub proof fn profile_is_recorded(
    caller: Seq<char>,
    input: SyncUserView,
    bootstrap: Seq<char>,
    now: Seq<char>,
)
    ensures
        ({
            let q = sync_query(synced_email(Some(caller), input), input, bootstrap, now);
            &&& q.sql
                == "UPSERT user SET email = $email, name = $name, first_name = $first_name, last_name = $last_name, username = $username, main_api_id = $main_api_id, first_seen_at = first_seen_at ?? $now, last_seen_at = $now, "@
                + (if caller == bootstrap {
                "role = 'admin'"@
            } else {
                "role = role ?? 'viewer'"@
            }) + " WHERE email = $email RETURN AFTER"@
            &&& q.binds.len() == 7
            &&& q.binds[0] == (BindView { name: "email"@, value: ParamView::Text(caller) })
            &&& q.binds[1] == (BindView {
                name: "name"@,
                value: ParamView::Text(
                    if is_blank(input.name) {
                        caller
                    } else {
                        trim(input.name)
                    },
                ),
            })
            &&& q.binds[2] == (BindView {
                name: "first_name"@,
                value: ParamView::Text(input.first_name),
            })
            &&& q.binds[3] == (BindView {
                name: "last_name"@,
                value: ParamView::Text(input.last_name),
            })
            &&& q.binds[4] == (BindView {
                name: "username"@,
                value: ParamView::Text(input.username),
            })
            &&& q.binds[5] == (BindView {
                name: "main_api_id"@,
                value: ParamView::Text(input.main_api_id),
            })
            &&& q.binds[6] == (BindView { name: "now"@, value: ParamView::Text(now) })
        }),
        synced_email(None, input) == normal_email(input.email),
{
}

} // verus!
