use qims_backend::database::notifications::{
    self, clear_all, clear_one, mark_read, notify, notify_at, stream, Notice,
};
use qims_backend::database::query::{Fields, Param, Query, Row, Step};
use qims_backend::database::users::model::{Role, SyncUser};
use qims_backend::database::users::set_role::{resume, resume_at, set_role, SetRoleInput, SetRoleState};
use qims_backend::database::users::sync::{sync, sync_at};
use qims_backend::database::users::{
    self, bootstrap_admin, caller_email, caller_role, is_permanent, require_admin, require_editor,
    require_writer, stored_role, RoleLookup,
};
use qims_backend::error::AppError;

fn text<'a>(q: &'a Query, name: &str) -> &'a str {
    for b in &q.binds {
        if b.name == name {
            match &b.value {
                Param::Text(s) => return s.as_str(),
                _ => unreachable!(),
            }
        }
    }
    panic!("not bound: {name}")
}

fn some(s: &str) -> Option<String> {
    Some(s.to_string())
}

#[test]
fn the_callers_email_is_normalised() {
    assert_eq!(caller_email(Some("  Ann@Example.COM ")), some("ann@example.com"));
    assert_eq!(caller_email(Some(" \t ")), None);
    assert_eq!(caller_email(None), None);
    let once = caller_email(Some(" A@B ")).expect("an email");
    assert_eq!(caller_email(Some(&once)), Some(once.clone()));
}

#[test]
fn the_permanent_administrator_is_configured() {
    assert_eq!(bootstrap_admin(None), "admin@example.com");
    assert_eq!(bootstrap_admin(Some("root@x")), "root@x");
    assert_eq!(bootstrap_admin(Some(" Boss@Corp.com ")), "boss@corp.com");
    assert!(is_permanent(Some("root@x"), "root@x"));
    assert!(!is_permanent(Some("ann@x"), "root@x"));
    assert!(!is_permanent(None, "root@x"));
}

#[test]
fn callers_have_their_roles() {
    assert!(matches!(caller_role(None, "root@x"), RoleLookup::Known(Role::Admin)));
    assert!(matches!(caller_role(some("root@x"), "root@x"), RoleLookup::Known(Role::Admin)));
    match caller_role(some("ann@x"), "root@x") {
        RoleLookup::Ask(q) => {
            assert_eq!(q.sql, "SELECT VALUE role FROM user WHERE email = $email LIMIT 1");
            assert_eq!(text(&q, "email"), "ann@x");
        }
        RoleLookup::Known(_) => unreachable!(),
    }
    assert_eq!(stored_role(some("editor")), Role::Editor);
    assert_eq!(stored_role(some("boss")), Role::Viewer);
    assert_eq!(stored_role(None), Role::Viewer);
}

#[test]
fn the_permanent_administrator_is_recognised_in_any_case() {
    let bootstrap = bootstrap_admin(Some("Boss@Corp.com"));
    let caller = caller_email(Some("Boss@Corp.com"));
    assert!(matches!(caller_role(caller.clone(), &bootstrap), RoleLookup::Known(Role::Admin)));
    assert!(is_permanent(caller.as_deref(), &bootstrap));
    let q = sync(person("", ""), caller, &bootstrap).ok().expect("query");
    assert!(q.sql.contains("role = 'admin'"));
}

#[test]
fn roles_are_read_from_their_names() {
    assert_eq!(Role::parse("admin"), Role::Admin);
    assert_eq!(Role::parse("editor"), Role::Editor);
    assert_eq!(Role::parse("writer"), Role::Writer);
    assert_eq!(Role::parse("viewer"), Role::Viewer);
    assert_eq!(Role::parse("Admin"), Role::Viewer);
}

#[test]
fn each_role_may_what_the_lesser_ones_may() {
    for (role, write, approve, admin) in [
        (Role::Admin, true, true, true),
        (Role::Editor, true, true, false),
        (Role::Writer, true, false, false),
        (Role::Viewer, false, false, false),
    ] {
        assert_eq!(role.can_write(), write);
        assert_eq!(role.can_approve(), approve);
        assert_eq!(require_writer(role).is_ok(), write);
        assert_eq!(require_editor(role).is_ok(), approve);
        assert_eq!(require_admin(role).is_ok(), admin);
    }
}

#[test]
fn refusals_say_what_is_missing() {
    let told = |r: Result<(), AppError>| match r {
        Err(AppError::Forbidden(m)) => m,
        _ => unreachable!(),
    };
    assert_eq!(
        told(require_writer(Role::Viewer)),
        "your account has read-only access — ask an administrator for the writer role"
    );
    assert_eq!(
        told(require_editor(Role::Writer)),
        "reviewing and approving documents requires the editor role"
    );
    assert_eq!(told(require_admin(Role::Editor)), "administrator access required");
}

#[test]
fn users_are_listed_by_name() {
    assert_eq!(users::list().sql, "SELECT * FROM user ORDER BY name ASC");
    assert!(users::init().sql.contains("FIELDS email UNIQUE"));
}

fn person(email: &str, name: &str) -> SyncUser {
    SyncUser {
        email: email.to_string(),
        name: name.to_string(),
        first_name: "Ann".to_string(),
        last_name: "B".to_string(),
        username: "ann".to_string(),
        main_api_id: "7".to_string(),
    }
}

#[test]
fn the_asserted_identity_wins() {
    let q = sync_at(person("forged@x", " Ann B "), some("ann@x"), "root@x", "T".to_string()).ok().expect("query");
    assert_eq!(text(&q, "email"), "ann@x");
    assert_eq!(text(&q, "name"), "Ann B");
    assert_eq!((text(&q, "first_name"), text(&q, "last_name")), ("Ann", "B"));
    assert_eq!((text(&q, "username"), text(&q, "main_api_id"), text(&q, "now")), ("ann", "7", "T"));
    assert!(q.sql.contains("role = role ?? 'viewer'"));
    assert!(q.sql.ends_with(" WHERE email = $email RETURN AFTER"));
}

#[test]
fn without_an_identity_the_payload_names_the_person() {
    let q = sync(person(" Ann@X ", "  "), None, "root@x").ok().expect("query");
    assert_eq!(text(&q, "email"), "ann@x");
    assert_eq!(text(&q, "name"), "ann@x");
    assert!(text(&q, "now").ends_with("+00:00"));
    match sync(person(" ", "Ann"), None, "root@x") {
        Err(AppError::BadRequest(m)) => assert_eq!(m, "email is required"),
        _ => unreachable!(),
    }
}

#[test]
fn the_permanent_administrator_is_pinned_to_their_role() {
    let q = sync(person("", ""), some("root@x"), "root@x").ok().expect("query");
    assert!(q.sql.contains("role = 'admin'"));
    assert!(!q.sql.contains("viewer"));
}

fn email_row(email: &str) -> Option<Row<u8>> {
    let fields = Fields {
        text: some(email),
        status: None,
        author: None,
        author_email: None,
        document_number: None,
        title: None,
        source_file: None,
        source_name: None,
        source_mime: None,
        edition: None,
    };
    Some(Row { record: 9, fields })
}

fn assignment(role: &str, caller: Option<String>) -> Step<SetRoleState, u8> {
    set_role(SetRoleInput { role: role.to_string() }, "u1".to_string(), caller, "root@x".to_string())
}

fn asked(step: Step<SetRoleState, u8>) -> (Query, SetRoleState) {
    match step {
        Step::Ask(q, s) => (q, s),
        _ => unreachable!(),
    }
}

#[test]
fn a_role_is_assigned() {
    let (q, state) = asked(assignment("writer", some("root@x")));
    assert_eq!(q.sql, "SELECT VALUE email FROM type::record('user', $id)");
    let (q, state) = asked(resume_at(state, email_row("ann@x"), "T".to_string()));
    assert_eq!(
        q.sql,
        "UPDATE type::record('user', $id) SET role = $role, role_set_by = $actor, role_set_at = $now RETURN AFTER"
    );
    assert_eq!((text(&q, "id"), text(&q, "role")), ("u1", "writer"));
    assert_eq!((text(&q, "actor"), text(&q, "now")), ("root@x", "T"));
    assert!(matches!(resume(state, email_row("ann@x")), Step::Done(9)));
}

#[test]
fn a_role_is_assigned_locally() {
    let (_, state) = asked(assignment("viewer", None));
    let (q, state) = asked(resume(state, email_row("ann@x")));
    assert_eq!(text(&q, "actor"), "local");
    assert!(text(&q, "now").ends_with("+00:00"));
    assert!(matches!(resume::<u8>(state, None), Step::Fail(AppError::NotFound)));
}

#[test]
fn only_roles_that_there_are_get_assigned() {
    for role in ["admin", "editor", "writer", "viewer"] {
        assert!(matches!(assignment(role, None), Step::Ask(_, _)));
    }
    match assignment("owner", None) {
        Step::Fail(AppError::BadRequest(m)) => assert_eq!(m, "invalid role: owner"),
        _ => unreachable!(),
    }
    let (_, state) = asked(assignment("writer", None));
    assert!(matches!(resume::<u8>(state, None), Step::Fail(AppError::NotFound)));
}

#[test]
fn the_permanent_administrator_is_never_demoted() {
    let (_, state) = asked(assignment("editor", some("root@x")));
    match resume(state, email_row("root@x")) {
        Step::Fail(AppError::BadRequest(m)) => {
            assert_eq!(m, "root@x is the permanent administrator and cannot be demoted")
        }
        _ => unreachable!(),
    }
    let (_, state) = asked(assignment("admin", None));
    assert!(matches!(resume(state, email_row("root@x")), Step::Ask(_, _)));
}

fn notice() -> Notice {
    Notice {
        recipient: "ann@x".to_string(),
        kind: "approved".to_string(),
        document: "d1".to_string(),
        document_number: "Q-1".to_string(),
        title: "Sampling".to_string(),
        actor: "Bob".to_string(),
        comment: "fine".to_string(),
    }
}

#[test]
fn a_notice_is_stored_unread() {
    let q = notify_at(notice(), "T".to_string());
    assert_eq!(q.sql, "CREATE notification CONTENT $data");
    match &q.binds[0].value {
        Param::Notification(n) => {
            assert!(!n.read);
            assert_eq!(n.created_at, "T");
            assert_eq!((n.recipient.as_str(), n.kind.as_str()), ("ann@x", "approved"));
            assert_eq!((n.document.as_str(), n.document_number.as_str()), ("d1", "Q-1"));
            assert_eq!((n.title.as_str(), n.actor.as_str(), n.comment.as_str()), ("Sampling", "Bob", "fine"));
        }
        _ => unreachable!(),
    }
    match &notify(notice()).binds[0].value {
        Param::Notification(n) => assert!(n.created_at.ends_with("+00:00")),
        _ => unreachable!(),
    }
}

#[test]
fn everyone_sees_and_clears_their_own_notifications() {
    let q = notifications::list(some("ann@x")).expect("query");
    assert_eq!(
        q.sql,
        "SELECT * FROM notification WHERE recipient = $email ORDER BY created_at DESC LIMIT 50"
    );
    assert_eq!(text(&q, "email"), "ann@x");
    let q = mark_read(some("ann@x")).expect("query");
    assert_eq!(q.sql, "UPDATE notification SET read = true WHERE recipient = $email AND read = false");
    assert_eq!(text(&q, "email"), "ann@x");
    let q = clear_all(some("ann@x")).expect("query");
    assert_eq!(q.sql, "DELETE notification WHERE recipient = $email");
    assert_eq!(text(&q, "email"), "ann@x");
    let q = clear_one("n1".to_string(), some("ann@x")).expect("query");
    assert_eq!(q.sql, "DELETE type::record('notification', $id) WHERE recipient = $email");
    assert_eq!((text(&q, "id"), text(&q, "email")), ("n1", "ann@x"));
    assert!(notifications::init().sql.contains("FIELDS recipient"));
}

#[test]
fn nothing_is_addressed_to_a_caller_without_identity() {
    assert!(notifications::list(None).is_none());
    assert!(mark_read(None).is_none());
    assert!(clear_all(None).is_none());
    assert!(clear_one("n1".to_string(), None).is_none());
}

#[test]
fn pokes_reach_their_recipient_only() {
    assert!(stream(&some("ann@x"), "ann@x"));
    assert!(!stream(&some("ann@x"), "bob@x"));
    assert!(!stream(&some(""), ""));
    assert!(!stream(&None, ""));
}
