//! `POST /documents`: validating and persisting a new document, always a Draft.

use vstd::prelude::*;

use crate::clock::{is_utc, now_rfc3339};
use crate::database::documents::model::{create_error, CreateDocument, CreateDocumentView, Event,
    EventView};
use crate::database::query::{query, text_or_empty, Param, ParamView, Query, QueryView};
use crate::error::AppError;

verus! {

/// The document that is created from what the caller sent: the fields that the
/// server controls are set here. A new document is a Draft without approvals,
/// and its author's email is the caller's identity, never what was sent.
pub open spec fn drafted(
    input: CreateDocumentView,
    caller: Option<Seq<char>>,
    now: Seq<char>,
) -> CreateDocumentView {
    CreateDocumentView {
        author_email: match caller {
            Some(email) => email,
            None => seq![],
        },
        status: "Draft"@,
        approved_by: seq![],
        created_at: now,
        updated_at: now,
        events: seq![
            EventView {
                kind: "created"@,
                actor: input.author,
                detail: seq![],
                sections: seq![],
                at: now,
            },
        ],
        ..input
    }
}

/// The query that creates a document.
pub open spec fn create_query(doc: CreateDocumentView) -> QueryView {
    query("create document"@, "CREATE document CONTENT $data"@).bind(
        "data"@,
        ParamView::Document(doc),
    )
}

/// The query that creates a document at the time `now` from what the caller
/// sent; an invalid one is refused.
pub fn create_at(input: CreateDocument, caller: Option<String>, now: String) -> (r: Result<
    Query,
    AppError,
>)
    ensures
        match r {
            Ok(q) => create_error(input@) is None && q@ == create_query(
                drafted(input@, caller.deep_view(), now@),
            ),
            Err(e) => create_error(input@) == Some(e@),
        },
{
    let mut events: Vec<Event> = Vec::new();
    events.push(
        Event {
            kind: "created".to_string(),
            actor: input.author.clone(),
            detail: String::new(),
            sections: Vec::new(),
            at: now.clone(),
        },
    );
    let mut doc = input;
    doc.author_email = text_or_empty(caller);
    doc.status = "Draft".to_string();
    doc.approved_by = Vec::new();
    doc.created_at = now.clone();
    doc.updated_at = now;
    doc.events = events;
    proof {
        let v = drafted(input@, caller.deep_view(), doc.updated_at@);
        assert(doc@.approved_by =~= v.approved_by);
        assert(doc@.events[0].sections =~= v.events[0].sections);
        assert(doc@.events =~= v.events);
    }
    match doc.validate() {
        Err(e) => Err(e),
        Ok(()) => Ok(
            Query::new("create document", "CREATE document CONTENT $data".to_string()).bind(
                "data",
                Param::Document(doc),
            ),
        ),
    }
}

/// The query that creates a document now from what the caller sent.
pub fn create(input: CreateDocument, caller: Option<String>) -> (r: Result<Query, AppError>)
    ensures
        match r {
            Ok(q) => create_error(input@) is None && exists|now: Seq<char>|
                is_utc(now) && q@ == create_query(#[trigger] drafted(input@, caller.deep_view(), now)),
            Err(e) => create_error(input@) == Some(e@),
        },
{
    let now = now_rfc3339();
    create_at(input, caller, now)
}

/// A new document is always a Draft without approvals, with one event, and by
/// nobody but the caller, whatever status, approvals, author's email, times and
/// events were sent; nor do those decide whether it is valid.
pub proof fn new_document_is_draft(
    input: CreateDocumentView,
    other: CreateDocumentView,
    caller: Option<Seq<char>>,
    now: Seq<char>,
)
    requires
        other == (CreateDocumentView {
            author_email: other.author_email,
            status: other.status,
            approved_by: other.approved_by,
            created_at: other.created_at,
            updated_at: other.updated_at,
            events: other.events,
            ..input
        }),
    ensures
        drafted(input, caller, now).status == "Draft"@,
        drafted(input, caller, now).approved_by.len() == 0,
        drafted(input, caller, now).events.len() == 1,
        drafted(input, caller, now) == drafted(other, caller, now),
        create_error(input) == create_error(other),
        create_error(drafted(input, caller, now)) == create_error(input),
{
}

// ---------------------------------------------------------------------------
// Laws
// ---------------------------------------------------------------------------

/// A new document holds what was sent, field by field; the caller is its author's
/// email, it is a draft without approvals that was created now, and its log
/// begins with that.
pub proof fn new_document_holds_what_was_sent(
    input: CreateDocumentView,
    caller: Option<Seq<char>>,
    now: Seq<char>,
)
    ensures
        ({
            let q = create_query(drafted(input, caller, now));
            &&& q.sql == "CREATE document CONTENT $data"@
            &&& q.binds.len() == 1
            &&& q.binds[0].name == "data"@
            &&& q.binds[0].value matches ParamView::Document(doc) && {
                &&& doc.title == input.title
                &&& doc.kind == input.kind
                &&& doc.body == input.body
                &&& doc.date == input.date
                &&& doc.author == input.author
                &&& doc.document_number == input.document_number
                &&& doc.document_type == input.document_type
                &&& doc.department == input.department
                &&& doc.edition == input.edition
                &&& doc.page_setup == input.page_setup
                &&& doc.source_file == input.source_file
                &&& doc.source_name == input.source_name
                &&& doc.source_mime == input.source_mime
                &&& caller matches Some(email) ==> doc.author_email == email
                &&& caller is None ==> doc.author_email.len() == 0
                &&& doc.status == "Draft"@
                &&& doc.approved_by.len() == 0
                &&& doc.created_at == now
                &&& doc.updated_at == now
                &&& doc.events.len() == 1
                &&& doc.events[0].kind == "created"@
                &&& doc.events[0].actor == input.author
                &&& doc.events[0].detail.len() == 0
                &&& doc.events[0].sections.len() == 0
                &&& doc.events[0].at == now
            }
        }),
{
}

} // verus!
