//! `PUT /users/{id}/role`: assigning a role to a user.

use vstd::prelude::*;

use crate::clock::{is_utc, now_rfc3339};
use crate::database::documents::model::bad_value;
use crate::database::query::{or_empty, query, record_or_not_found, text_or_empty, BindView,
    ParamView, Query, QueryView, Row, Step, StepView};
use crate::database::users::model::is_allowed_role;
use crate::error::{AppError, ErrorView};
use crate::text::same;

verus! {

/// The role that a user is to have.
#[derive(Debug)]
pub struct SetRoleInput {
    /// One of admin / editor / writer / viewer.
    pub role: String,
}

/// Where the assignment stands between two queries.
#[derive(Debug)]
pub enum SetRoleState {
    /// The user is being looked up.
    Load { id: String, role: String, caller: Option<String>, bootstrap: String },
    /// The role is being written.
    Write,
}

/// What a [`SetRoleState`] holds.
pub enum SetRoleStateView {
    Load { id: Seq<char>, role: Seq<char>, caller: Option<Seq<char>>, bootstrap: Seq<char> },
    Write,
}

impl View for SetRoleState {
    type V = SetRoleStateView;

    open spec fn view(&self) -> SetRoleStateView {
        match *self {
            SetRoleState::Load { id, role, caller, bootstrap } => SetRoleStateView::Load {
                id: id@,
                role: role@,
                caller: caller.deep_view(),
                bootstrap: bootstrap@,
            },
            SetRoleState::Write => SetRoleStateView::Write,
        }
    }
}

/// The query for the email of the user `id`.
pub open spec fn load_query(id: Seq<char>) -> QueryView {
    query("load user"@, "SELECT VALUE email FROM type::record('user', $id)"@).text("id"@, id)
}

/// The query that writes the role of the user `id`.
pub open spec fn write_query(
    id: Seq<char>,
    role: Seq<char>,
    actor: Seq<char>,
    now: Seq<char>,
) -> QueryView {
    query(
        "set user role"@,
        "UPDATE type::record('user', $id) SET role = $role, role_set_by = $actor, role_set_at = $now RETURN AFTER"@,
    ).text("id"@, id).text("role"@, role).text("actor"@, actor).text("now"@, now)
}

/// How the assignment begins: a role that there is not is refused.
pub open spec fn set_role_first<T>(
    id: Seq<char>,
    role: Seq<char>,
    caller: Option<Seq<char>>,
    bootstrap: Seq<char>,
) -> StepView<SetRoleStateView, T> {
    if is_allowed_role(role) {
        StepView::Ask(load_query(id), SetRoleStateView::Load { id, role, caller, bootstrap })
    } else {
        StepView::Fail(ErrorView::BadRequest("invalid role: "@ + role))
    }
}

/// How the assignment goes on when the first row of its query is `row`.
pub open spec fn set_role_next<T>(
    state: SetRoleStateView,
    row: Option<Row<T>>,
    now: Seq<char>,
) -> StepView<SetRoleStateView, T> {
    match state {
        SetRoleStateView::Load { id, role, caller, bootstrap } => match row {
            None => StepView::Fail(ErrorView::NotFound),
            Some(row) => {
                let target = or_empty(row.fields.text);
                if target == bootstrap && role != "admin"@ {
                    StepView::Fail(
                        ErrorView::BadRequest(
                            target + " is the permanent administrator and cannot be demoted"@,
                        ),
                    )
                } else {
                    let actor = match caller {
                        Some(email) => email,
                        None => "local"@,
                    };
                    StepView::Ask(write_query(id, role, actor, now), SetRoleStateView::Write)
                }
            },
        },
        SetRoleStateView::Write => record_or_not_found(row),
    }
}

/// Begins to assign the role `input.role` to the user `id`.
pub fn set_role<T>(
    input: SetRoleInput,
    id: String,
    caller: Option<String>,
    bootstrap: String,
) -> (r: Step<SetRoleState, T>)
    ensures
        r@ == set_role_first::<T>(id@, input.role@, caller.deep_view(), bootstrap@),
{
    let role = input.role;
    if !(same(role.as_str(), "admin") || same(role.as_str(), "editor") || same(
        role.as_str(),
        "writer",
    ) || same(role.as_str(), "viewer")) {
        return Step::Fail(bad_value("invalid role: ", role.as_str()));
    }
    let q = Query::new(
        "load user",
        "SELECT VALUE email FROM type::record('user', $id)".to_string(),
    ).text("id", id.clone());
    Step::Ask(q, SetRoleState::Load { id, role, caller, bootstrap })
}

/// Goes on with an assignment at the time `now`: `row` is the first row that
/// its query answered with.
pub fn resume_at<T>(state: SetRoleState, row: Option<Row<T>>, now: String) -> (r: Step<
    SetRoleState,
    T,
>)
    ensures
        r@ == set_role_next(state@, row, now@),
{
    match state {
        SetRoleState::Load { id, role, caller, bootstrap } => match row {
            None => Step::Fail(AppError::NotFound),
            Some(row) => {
                let target = text_or_empty(row.fields.text);
                if same(target.as_str(), bootstrap.as_str()) && !same(role.as_str(), "admin") {
                    let mut m = target;
                    m.append(" is the permanent administrator and cannot be demoted");
                    return Step::Fail(AppError::BadRequest(m));
                }
                let actor = match caller {
                    Some(email) => email,
                    None => "local".to_string(),
                };
                let q = Query::new(
                    "set user role",
                    "UPDATE type::record('user', $id) SET role = $role, role_set_by = $actor, role_set_at = $now RETURN AFTER".to_string(),
                ).text("id", id).text("role", role).text("actor", actor).text("now", now);
                Step::Ask(q, SetRoleState::Write)
            },
        },
        SetRoleState::Write => match row {
            Some(row) => Step::Done(row.record),
            None => Step::Fail(AppError::NotFound),
        },
    }
}

/// Goes on with an assignment now.
pub fn resume<T>(state: SetRoleState, row: Option<Row<T>>) -> (r: Step<SetRoleState, T>)
    ensures
        exists|now: Seq<char>| is_utc(now) && r@ == #[trigger] set_role_next(state@, row, now),
{
    let now = now_rfc3339();
    let r = resume_at(state, row, now);
    proof {
        assert(r@ == set_role_next(state@, row, now@));
    }
    r
}

/// The permanent administrator stays one, no matter who asks: an assignment of
/// another role to them writes nothing.
pub proof fn bootstrap_is_never_demoted<T>(
    id: Seq<char>,
    role: Seq<char>,
    caller: Option<Seq<char>>,
    bootstrap: Seq<char>,
    row: Row<T>,
    now: Seq<char>,
)
    requires
        or_empty(row.fields.text) == bootstrap,
        role != "admin"@,
    ensures
        set_role_next(SetRoleStateView::Load { id, role, caller, bootstrap }, Some(row), now)
            is Fail,
{
}

/// Only roles that there are get written.
pub proof fn only_known_roles_are_written<T>(
    id: Seq<char>,
    role: Seq<char>,
    caller: Option<Seq<char>>,
    bootstrap: Seq<char>,
)
    ensures
        set_role_first::<T>(id, role, caller, bootstrap) is Ask <==> is_allowed_role(role),
{
}

// ---------------------------------------------------------------------------
// Laws
// ---------------------------------------------------------------------------

/// An assignment of a role that there is begins with the user's email, and any
/// other role is refused by its name.
pub proof fn assignment_begins_with_the_user<T>(
    id: Seq<char>,
    role: Seq<char>,
    caller: Option<Seq<char>>,
    bootstrap: Seq<char>,
)
    ensures
        if role == "admin"@ || role == "editor"@ || role == "writer"@ || role == "viewer"@ {
            set_role_first::<T>(id, role, caller, bootstrap) matches StepView::Ask(q, state) && {
                &&& q.sql == "SELECT VALUE email FROM type::record('user', $id)"@
                &&& q.binds.len() == 1
                &&& q.binds[0] == (BindView { name: "id"@, value: ParamView::Text(id) })
                &&& state == (SetRoleStateView::Load { id, role, caller, bootstrap })
            }
        } else {
            set_role_first::<T>(id, role, caller, bootstrap) == StepView::<
                SetRoleStateView,
                T,
            >::Fail(ErrorView::BadRequest("invalid role: "@ + role))
        },
{
}

/// The role that was asked for is written to the user that was asked for, with
/// who assigned it and when; the permanent administrator can be assigned their own
/// role only.
pub proof fn role_is_written_as_asked<T>(
    id: Seq<char>,
    role: Seq<char>,
    caller: Option<Seq<char>>,
    bootstrap: Seq<char>,
    row: Row<T>,
    after: Option<Row<T>>,
    now: Seq<char>,
)
    ensures
        ({
            let state = SetRoleStateView::Load { id, role, caller, bootstrap };
            let email = or_empty(row.fields.text);
            &&& set_role_next::<T>(state, None, now) == StepView::<SetRoleStateView, T>::Fail(
                ErrorView::NotFound,
            )
            &&& if email == bootstrap && role != "admin"@ {
                set_role_next(state, Some(row), now) == StepView::<SetRoleStateView, T>::Fail(
                    ErrorView::BadRequest(
                        email + " is the permanent administrator and cannot be demoted"@,
                    ),
                )
            } else {
                set_role_next(state, Some(row), now) matches StepView::Ask(q, next) && {
                    &&& q.sql
                        == "UPDATE type::record('user', $id) SET role = $role, role_set_by = $actor, role_set_at = $now RETURN AFTER"@
                    &&& q.binds.len() == 4
                    &&& q.binds[0] == (BindView { name: "id"@, value: ParamView::Text(id) })
                    &&& q.binds[1] == (BindView { name: "role"@, value: ParamView::Text(role) })
                    &&& q.binds[2].name == "actor"@
                    &&& caller matches Some(by) ==> q.binds[2].value == ParamView::Text(by)
                    &&& caller is None ==> q.binds[2].value == ParamView::Text("local"@)
                    &&& q.binds[3] == (BindView { name: "now"@, value: ParamView::Text(now) })
                    &&& set_role_next(next, after, now) == match after {
                        Some(done) => StepView::<SetRoleStateView, T>::Done(done.record),
                        None => StepView::<SetRoleStateView, T>::Fail(ErrorView::NotFound),
                    }
                }
            }
        }),
{
}

} // verus!
