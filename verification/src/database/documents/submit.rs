//! `POST /documents/{id}/submit`: moving a Draft to "Under Review".

use vstd::prelude::*;

use crate::clock::{is_utc, now_rfc3339};
use crate::database::query::{query, BindView, ParamView, Query, QueryView};

verus! {

/// Who submits a document.
#[derive(Debug)]
pub struct SubmitInput {
    /// Auto-filled from the signed-in user.
    pub actor: String,
}

/// Who submits: nobody named where nothing was sent.
pub open spec fn submitter(input: Option<SubmitInput>) -> Seq<char> {
    match input {
        Some(input) => input.actor@,
        None => seq![],
    }
}

/// The query that submits the document `id`.
pub open spec fn submit_query(id: Seq<char>, actor: Seq<char>, now: Seq<char>) -> QueryView {
    query(
        "submit document"@,
        "UPDATE type::record('document', $id) SET status = 'Under Review', updated_at = $updated, events = array::append(events ?? [], { kind: 'submitted', actor: $actor, detail: '', sections: [], at: $updated }) RETURN AFTER"@,
    ).text("id"@, id).text("updated"@, now).text("actor"@, actor)
}

/// The query that submits the document `id` at the time `now`.
pub fn submit_at(id: String, input: Option<SubmitInput>, now: String) -> (r: Query)
    ensures
        r@ == submit_query(id@, submitter(input), now@),
{
    let actor = match input {
        Some(input) => input.actor,
        None => {
            let s = String::new();
            assert(s@ =~= seq![]);
            s
        },
    };
    Query::new(
        "submit document",
        "UPDATE type::record('document', $id) SET status = 'Under Review', updated_at = $updated, events = array::append(events ?? [], { kind: 'submitted', actor: $actor, detail: '', sections: [], at: $updated }) RETURN AFTER".to_string(),
    ).text("id", id).text("updated", now).text("actor", actor)
}

/// The query that submits the document `id` now.
pub fn submit(id: String, input: Option<SubmitInput>) -> (r: Query)
    ensures
        exists|now: Seq<char>| is_utc(now) && r@ == #[trigger] submit_query(id@, submitter(input), now),
{
    let now = now_rfc3339();
    let r = submit_at(id, input, now);
    proof {
        assert(r@ == submit_query(id@, submitter(input), now@));
    }
    r
}

// ---------------------------------------------------------------------------
// Laws
// ---------------------------------------------------------------------------

/// Submitting a document sets its status to Under Review and logs who did so and
/// when; nobody is named where nothing was sent.
pub proof fn submitting_is_logged(id: Seq<char>, actor: Seq<char>, now: Seq<char>, input: SubmitInput)
    ensures
        ({
            let q = submit_query(id, actor, now);
            &&& q.sql
                == "UPDATE type::record('document', $id) SET status = 'Under Review', updated_at = $updated, events = array::append(events ?? [], { kind: 'submitted', actor: $actor, detail: '', sections: [], at: $updated }) RETURN AFTER"@
            &&& q.binds.len() == 3
            &&& q.binds[0] == (BindView { name: "id"@, value: ParamView::Text(id) })
            &&& q.binds[1] == (BindView { name: "updated"@, value: ParamView::Text(now) })
            &&& q.binds[2] == (BindView { name: "actor"@, value: ParamView::Text(actor) })
        }),
        submitter(Some(input)) == input.actor@,
        submitter(None).len() == 0,
{
}

} // verus!
