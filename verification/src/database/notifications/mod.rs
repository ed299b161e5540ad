//! The `notification` resource: per-user in-app notifications.
//!
//! Created when something happens to a document a person cares about (their
//! document got reviewed or approved). Everyone only ever sees, reads and
//! clears their own.

use vstd::prelude::*;

use crate::clock::{is_utc, now_rfc3339};
use crate::database::query::{query, BindView, Param, ParamView, Query, QueryView};
use crate::text::same;

verus! {

/// Something that a person is to be told.
#[derive(Debug)]
pub struct Notice {
    pub recipient: String,
    /// What happened: `approved` or `reviewed`.
    pub kind: String,
    /// Record-id slug of the document the event happened on.
    pub document: String,
    pub document_number: String,
    pub title: String,
    /// Who did it (display name).
    pub actor: String,
    /// The review comment, when one was given.
    pub comment: String,
}

/// What a [`Notice`] holds.
pub struct NoticeView {
    pub recipient: Seq<char>,
    pub kind: Seq<char>,
    pub document: Seq<char>,
    pub document_number: Seq<char>,
    pub title: Seq<char>,
    pub actor: Seq<char>,
    pub comment: Seq<char>,
}

impl View for Notice {
    type V = NoticeView;

    open spec fn view(&self) -> NoticeView {
        NoticeView {
            recipient: self.recipient@,
            kind: self.kind@,
            document: self.document@,
            document_number: self.document_number@,
            title: self.title@,
            actor: self.actor@,
            comment: self.comment@,
        }
    }
}

/// A notification as it is stored.
#[derive(Debug)]
pub struct NewNotification {
    pub recipient: String,
    pub kind: String,
    pub document: String,
    pub document_number: String,
    pub title: String,
    pub actor: String,
    pub comment: String,
    pub read: bool,
    pub created_at: String,
}

/// What a [`NewNotification`] holds.
pub struct NewNotificationView {
    pub recipient: Seq<char>,
    pub kind: Seq<char>,
    pub document: Seq<char>,
    pub document_number: Seq<char>,
    pub title: Seq<char>,
    pub actor: Seq<char>,
    pub comment: Seq<char>,
    pub read: bool,
    pub created_at: Seq<char>,
}

impl View for NewNotification {
    type V = NewNotificationView;

    open spec fn view(&self) -> NewNotificationView {
        NewNotificationView {
            recipient: self.recipient@,
            kind: self.kind@,
            document: self.document@,
            document_number: self.document_number@,
            title: self.title@,
            actor: self.actor@,
            comment: self.comment@,
            read: self.read,
            created_at: self.created_at@,
        }
    }
}

/// The notification that `notice` becomes at the time `now`: unread.
pub open spec fn notification(notice: NoticeView, now: Seq<char>) -> NewNotificationView {
    NewNotificationView {
        recipient: notice.recipient,
        kind: notice.kind,
        document: notice.document,
        document_number: notice.document_number,
        title: notice.title,
        actor: notice.actor,
        comment: notice.comment,
        read: false,
        created_at: now,
    }
}

/// The query that stores `notice` at the time `now`.
pub open spec fn notify_query(notice: NoticeView, now: Seq<char>) -> QueryView {
    query("create notification"@, "CREATE notification CONTENT $data"@).bind(
        "data"@,
        ParamView::Notification(notification(notice, now)),
    )
}

/// The query that stores `notice` at the time `now`.
pub fn notify_at(notice: Notice, now: String) -> (r: Query)
    ensures
        r@ == notify_query(notice@, now@),
{
    let data = NewNotification {
        recipient: notice.recipient,
        kind: notice.kind,
        document: notice.document,
        document_number: notice.document_number,
        title: notice.title,
        actor: notice.actor,
        comment: notice.comment,
        read: false,
        created_at: now,
    };
    Query::new("create notification", "CREATE notification CONTENT $data".to_string()).bind(
        "data",
        Param::Notification(data),
    )
}

/// The query that stores `notice` now. Best-effort: a failure is swallowed, as
/// notifying must never fail the action that triggered it; where it succeeds,
/// the recipient is poked.
pub fn notify(notice: Notice) -> (r: Query)
    ensures
        exists|now: Seq<char>| is_utc(now) && r@ == #[trigger] notify_query(notice@, now),
{
    let now = now_rfc3339();
    let r = notify_at(notice, now);
    proof {
        assert(r@ == notify_query(notice@, now@));
    }
    r
}

/// The query that ensures that the `notification` table exists.
pub open spec fn table_query() -> QueryView {
    query(
        "define notification table"@,
        "DEFINE TABLE IF NOT EXISTS notification SCHEMALESS; DEFINE INDEX IF NOT EXISTS ix_notification_recipient ON notification FIELDS recipient;"@,
    )
}

/// The query that ensures that the `notification` table exists, indexed by
/// recipient.
pub fn init() -> (r: Query)
    ensures
        r@ == table_query(),
{
    Query::new(
        "define notification table",
        "DEFINE TABLE IF NOT EXISTS notification SCHEMALESS; DEFINE INDEX IF NOT EXISTS ix_notification_recipient ON notification FIELDS recipient;".to_string(),
    )
}

/// The query that lists the notifications of `email`.
pub open spec fn list_query(email: Seq<char>) -> QueryView {
    query(
        "list notifications"@,
        "SELECT * FROM notification WHERE recipient = $email ORDER BY created_at DESC LIMIT 50"@,
    ).text("email"@, email)
}

/// The query that lists the notifications of the caller, newest first. Nothing
/// is addressed to a caller without identity: then nothing is asked.
pub fn list(caller: Option<String>) -> (r: Option<Query>)
    ensures
        match caller {
            Some(email) => r matches Some(q) && q@ == list_query(email@),
            None => r is None,
        },
{
    match caller {
        Some(email) => Some(
            Query::new(
                "list notifications",
                "SELECT * FROM notification WHERE recipient = $email ORDER BY created_at DESC LIMIT 50".to_string(),
            ).text("email", email),
        ),
        None => None,
    }
}

/// The query that marks the notifications of `email` read.
pub open spec fn read_query(email: Seq<char>) -> QueryView {
    query(
        "mark notifications read"@,
        "UPDATE notification SET read = true WHERE recipient = $email AND read = false"@,
    ).text("email"@, email)
}

/// The query that marks all notifications of the caller read.
pub fn mark_read(caller: Option<String>) -> (r: Option<Query>)
    ensures
        match caller {
            Some(email) => r matches Some(q) && q@ == read_query(email@),
            None => r is None,
        },
{
    match caller {
        Some(email) => Some(
            Query::new(
                "mark notifications read",
                "UPDATE notification SET read = true WHERE recipient = $email AND read = false".to_string(),
            ).text("email", email),
        ),
        None => None,
    }
}

/// The query that clears the notifications of `email`.
pub open spec fn clear_query(email: Seq<char>) -> QueryView {
    query("clear notifications"@, "DELETE notification WHERE recipient = $email"@).text(
        "email"@,
        email,
    )
}

/// The query that clears all notifications of the caller.
pub fn clear_all(caller: Option<String>) -> (r: Option<Query>)
    ensures
        match caller {
            Some(email) => r matches Some(q) && q@ == clear_query(email@),
            None => r is None,
        },
{
    match caller {
        Some(email) => Some(
            Query::new(
                "clear notifications",
                "DELETE notification WHERE recipient = $email".to_string(),
            ).text("email", email),
        ),
        None => None,
    }
}

/// The query that clears the notification `id` of `email`.
pub open spec fn clear_one_query(id: Seq<char>, email: Seq<char>) -> QueryView {
    query(
        "clear notification"@,
        "DELETE type::record('notification', $id) WHERE recipient = $email"@,
    ).text("id"@, id).text("email"@, email)
}

/// The query that clears the notification `id`, if it is the caller's: the
/// query itself enforces that.
pub fn clear_one(id: String, caller: Option<String>) -> (r: Option<Query>)
    ensures
        match caller {
            Some(email) => r matches Some(q) && q@ == clear_one_query(id@, email@),
            None => r is None,
        },
{
    match caller {
        Some(email) => Some(
            Query::new(
                "clear notification",
                "DELETE type::record('notification', $id) WHERE recipient = $email".to_string(),
            ).text("id", id).text("email", email),
        ),
        None => None,
    }
}

/// What is for `recipient` is for the caller.
pub open spec fn is_addressed(caller: Option<Seq<char>>, recipient: Seq<char>) -> bool {
    match caller {
        Some(email) => email.len() > 0 && recipient == email,
        None => false,
    }
}

/// Whether a poke for `recipient` goes out on the live stream of the caller:
/// only their own do, and none on the stream of a caller without identity.
pub fn stream(caller: &Option<String>, recipient: &str) -> (r: bool)
    ensures
        r == is_addressed(caller.deep_view(), recipient@),
{
    match caller {
        Some(email) => !email.as_str().is_empty() && same(recipient, email.as_str()),
        None => false,
    }
}

// ---------------------------------------------------------------------------
// Laws
// ---------------------------------------------------------------------------

/// A notification holds the whole notice, unread, from now.
pub proof fn notice_is_stored_whole(notice: NoticeView, now: Seq<char>)
    ensures
        ({
            let q = notify_query(notice, now);
            &&& q.sql == "CREATE notification CONTENT $data"@
            &&& q.binds.len() == 1
            &&& q.binds[0].name == "data"@
            &&& q.binds[0].value matches ParamView::Notification(n) && {
                &&& n.recipient == notice.recipient
                &&& n.kind == notice.kind
                &&& n.document == notice.document
                &&& n.document_number == notice.document_number
                &&& n.title == notice.title
                &&& n.actor == notice.actor
                &&& n.comment == notice.comment
                &&& !n.read
                &&& n.created_at == now
            }
        }),
{
}

/// Everyone only ever sees, reads and clears their own notifications: each query
/// is limited to those whose recipient is the caller.
pub proof fn notifications_are_the_recipients_own(id: Seq<char>, email: Seq<char>)
    ensures
        list_query(email).sql
            == "SELECT * FROM notification WHERE recipient = $email ORDER BY created_at DESC LIMIT 50"@,
        list_query(email).binds.len() == 1,
        list_query(email).binds[0] == (BindView { name: "email"@, value: ParamView::Text(email) }),
        read_query(email).sql
            == "UPDATE notification SET read = true WHERE recipient = $email AND read = false"@,
        read_query(email).binds.len() == 1,
        read_query(email).binds[0] == (BindView { name: "email"@, value: ParamView::Text(email) }),
        clear_query(email).sql == "DELETE notification WHERE recipient = $email"@,
        clear_query(email).binds.len() == 1,
        clear_query(email).binds[0] == (BindView { name: "email"@, value: ParamView::Text(email) }),
        clear_one_query(id, email).sql
            == "DELETE type::record('notification', $id) WHERE recipient = $email"@,
        clear_one_query(id, email).binds.len() == 2,
        clear_one_query(id, email).binds[0] == (BindView { name: "id"@, value: ParamView::Text(id) }),
        clear_one_query(id, email).binds[1] == (BindView {
            name: "email"@,
            value: ParamView::Text(email),
        }),
        table_query().sql
            == "DEFINE TABLE IF NOT EXISTS notification SCHEMALESS; DEFINE INDEX IF NOT EXISTS ix_notification_recipient ON notification FIELDS recipient;"@,
        table_query().binds.len() == 0,
{
}

/// A caller hears exactly of what is addressed to them, and a caller without an
/// identity of nothing.
pub proof fn pokes_reach_their_recipient(email: Seq<char>, recipient: Seq<char>)
    ensures
        email.len() > 0 ==> (is_addressed(Some(email), recipient) <==> recipient == email),
        email.len() == 0 ==> !is_addressed(Some(email), recipient),
        !is_addressed(None, recipient),
{
}

} // verus!
