//! `PUT /documents/{id}`: editing a document.
//!
//! Behaviour depends on the current status:
//! - **Draft / Under Review**: edited in place. Status, author, approvals and
//!   reviews are preserved; `updated_at` is bumped. A reason (when supplied) is
//!   appended to the `changes` audit trail.
//! - **Approved**: the approved version is left untouched and *live*. The edit
//!   forks a brand-new **Draft** revision that points back at its parent via
//!   `revision_of`, so it re-enters the approval workflow. When that revision is
//!   later approved it supersedes (archives) the parent of the same number.

use vstd::prelude::*;

use crate::clock::{is_utc, now_rfc3339};
use crate::database::documents::model::{update_error, Event, EventView, UpdateDocument,
    UpdateDocumentView};
use crate::database::query::{or_empty, query, text_or_empty, BindView, Fields, Param, ParamView,
    Query, QueryView, Row, Step, StepView};
use crate::error::{AppError, ErrorView};
use crate::text::{blank, is_blank, same};

verus! {

/// An edit as the frontend sends it.
#[derive(Debug)]
pub struct UpdatePayload {
    pub doc: UpdateDocument,
    /// Why the change was made (recorded only when non-empty).
    pub reason: String,
    /// Which sections the writer changed, e.g. ["Content", "Edition"].
    pub changed_sections: Vec<String>,
    /// Who made the change.
    pub editor: String,
}

/// What an [`UpdatePayload`] holds.
pub struct UpdatePayloadView {
    pub doc: UpdateDocumentView,
    pub reason: Seq<char>,
    pub changed_sections: Seq<Seq<char>>,
    pub editor: Seq<char>,
}

impl View for UpdatePayload {
    type V = UpdatePayloadView;

    open spec fn view(&self) -> UpdatePayloadView {
        UpdatePayloadView {
            doc: self.doc@,
            reason: self.reason@,
            changed_sections: self.changed_sections.deep_view(),
            editor: self.editor@,
        }
    }
}

/// A single change/revision entry recorded on a document.
#[derive(Debug)]
pub struct ChangeEntry {
    pub editor: String,
    pub reason: String,
    pub sections: Vec<String>,
    pub at: String,
}

/// What a [`ChangeEntry`] holds.
pub struct ChangeEntryView {
    pub editor: Seq<char>,
    pub reason: Seq<char>,
    pub sections: Seq<Seq<char>>,
    pub at: Seq<char>,
}

impl View for ChangeEntry {
    type V = ChangeEntryView;

    open spec fn view(&self) -> ChangeEntryView {
        ChangeEntryView {
            editor: self.editor@,
            reason: self.reason@,
            sections: self.sections.deep_view(),
            at: self.at@,
        }
    }
}

/// Content for a forked revision created from an approved document.
#[derive(Debug)]
pub struct NewRevision {
    pub title: String,
    pub kind: String,
    pub body: String,
    pub date: String,
    pub author: String,
    pub author_email: String,
    pub status: String,
    pub approved_by: Vec<String>,
    pub document_number: String,
    pub document_type: String,
    pub department: String,
    pub edition: u32,
    pub page_setup: String,
    /// Original imported file, carried over from the parent so the source
    /// stays downloadable on the new revision.
    pub source_file: String,
    pub source_name: String,
    pub source_mime: String,
    /// Slug of the approved document this revision was forked from.
    pub revision_of: String,
    pub created_at: String,
    pub updated_at: String,
    pub changes: Vec<ChangeEntry>,
    pub events: Vec<Event>,
}

/// What a [`NewRevision`] holds.
pub struct NewRevisionView {
    pub title: Seq<char>,
    pub kind: Seq<char>,
    pub body: Seq<char>,
    pub date: Seq<char>,
    pub author: Seq<char>,
    pub author_email: Seq<char>,
    pub status: Seq<char>,
    pub approved_by: Seq<Seq<char>>,
    pub document_number: Seq<char>,
    pub document_type: Seq<char>,
    pub department: Seq<char>,
    pub edition: u32,
    pub page_setup: Seq<char>,
    pub source_file: Seq<char>,
    pub source_name: Seq<char>,
    pub source_mime: Seq<char>,
    pub revision_of: Seq<char>,
    pub created_at: Seq<char>,
    pub updated_at: Seq<char>,
    pub changes: Seq<ChangeEntryView>,
    pub events: Seq<EventView>,
}

impl View for NewRevision {
    type V = NewRevisionView;

    open spec fn view(&self) -> NewRevisionView {
        NewRevisionView {
            title: self.title@,
            kind: self.kind@,
            body: self.body@,
            date: self.date@,
            author: self.author@,
            author_email: self.author_email@,
            status: self.status@,
            approved_by: self.approved_by.deep_view(),
            document_number: self.document_number@,
            document_type: self.document_type@,
            department: self.department@,
            edition: self.edition,
            page_setup: self.page_setup@,
            source_file: self.source_file@,
            source_name: self.source_name@,
            source_mime: self.source_mime@,
            revision_of: self.revision_of@,
            created_at: self.created_at@,
            updated_at: self.updated_at@,
            changes: self.changes@.map_values(|c: ChangeEntry| c@),
            events: self.events@.map_values(|e: Event| e@),
        }
    }
}

/// Where an edit stands between two queries.
#[derive(Debug)]
pub enum UpdateState<T> {
    /// The current record is being looked up.
    Load { payload: UpdatePayload, id: String, now: String },
    /// A revision is being created.
    Fork,
    /// The edit is being merged into the record.
    Merge { id: String, actor: String, reason: String, sections: Vec<String>, now: String },
    /// The edit is being entered in the activity log.
    LogEvent {
        record: T,
        id: String,
        actor: String,
        reason: String,
        sections: Vec<String>,
        now: String,
    },
    /// The edit is being entered in the change log.
    LogChange { record: T },
}

/// What an [`UpdateState`] holds.
pub enum UpdateStateView<T> {
    Load { payload: UpdatePayloadView, id: Seq<char>, now: Seq<char> },
    Fork,
    Merge { id: Seq<char>, actor: Seq<char>, reason: Seq<char>, sections: Seq<Seq<char>>, now: Seq<char> },
    LogEvent { record: T, id: Seq<char>, actor: Seq<char>, reason: Seq<char>, sections: Seq<Seq<char>>, now: Seq<char> },
    LogChange { record: T },
}

impl<T> View for UpdateState<T> {
    type V = UpdateStateView<T>;

    open spec fn view(&self) -> UpdateStateView<T> {
        match *self {
            UpdateState::Load { payload, id, now } => UpdateStateView::Load {
                payload: payload@,
                id: id@,
                now: now@,
            },
            UpdateState::Fork => UpdateStateView::Fork,
            UpdateState::Merge { id, actor, reason, sections, now } => UpdateStateView::Merge {
                id: id@,
                actor: actor@,
                reason: reason@,
                sections: sections.deep_view(),
                now: now@,
            },
            UpdateState::LogEvent { record, id, actor, reason, sections, now } => UpdateStateView::LogEvent {
                record,
                id: id@,
                actor: actor@,
                reason: reason@,
                sections: sections.deep_view(),
                now: now@,
            },
            UpdateState::LogChange { record } => UpdateStateView::LogChange {
                record,
            },
        }
    }
}

/// Who an edit is attributed to: the editor, or the author where none is named.
pub open spec fn actor_of(payload: UpdatePayloadView, author: Seq<char>) -> Seq<char> {
    if is_blank(payload.editor) {
        author
    } else {
        payload.editor
    }
}

/// The edition that a revision of the record is based on.
pub open spec fn base_edition(fields: Fields) -> u32 {
    match fields.edition {
        Some(n) => n as u32,
        None => 0,
    }
}

/// The record is approved.
pub open spec fn is_approved(fields: Fields) -> bool {
    or_empty(fields.status) == "Approved"@
}

/// The edition behind the one that `fields` hold can be written down.
pub open spec fn has_next_edition(fields: Fields) -> bool {
    base_edition(fields) < u32::MAX
}

/// The entries of the change log that a fork starts with: one where a reason is
/// given.
pub open spec fn fork_changes(
    payload: UpdatePayloadView,
    actor: Seq<char>,
    now: Seq<char>,
) -> Seq<ChangeEntryView> {
    if is_blank(payload.reason) {
        seq![]
    } else {
        seq![
            ChangeEntryView {
                editor: actor,
                reason: payload.reason,
                sections: payload.changed_sections,
                at: now,
            },
        ]
    }
}

/// The revision that an edit of the approved document `id` forks: a Draft
/// without approvals, one edition further than the record whatever the client
/// sent, with the content of the edit and the author and source of the record.
pub open spec fn revision(
    payload: UpdatePayloadView,
    id: Seq<char>,
    now: Seq<char>,
    fields: Fields,
) -> NewRevisionView {
    let author = or_empty(fields.author);
    let actor = actor_of(payload, author);
    NewRevisionView {
        title: payload.doc.title,
        kind: payload.doc.kind,
        body: payload.doc.body,
        date: payload.doc.date,
        author,
        author_email: or_empty(fields.author_email),
        status: "Draft"@,
        approved_by: seq![],
        document_number: payload.doc.document_number,
        document_type: payload.doc.document_type,
        department: payload.doc.department,
        edition: (base_edition(fields) + 1) as u32,
        page_setup: payload.doc.page_setup,
        source_file: or_empty(fields.source_file),
        source_name: or_empty(fields.source_name),
        source_mime: or_empty(fields.source_mime),
        revision_of: id,
        created_at: now,
        updated_at: now,
        changes: fork_changes(payload, actor, now),
        events: seq![
            EventView {
                kind: "created"@,
                actor,
                detail: payload.reason,
                sections: payload.changed_sections,
                at: now,
            },
        ],
    }
}

/// The edit as it is merged into a record: at the time `now`, with the edition
/// that the record has, whatever the client sent.
pub open spec fn edited(
    doc: UpdateDocumentView,
    fields: Fields,
    now: Seq<char>,
) -> UpdateDocumentView {
    UpdateDocumentView {
        edition: match fields.edition {
            Some(n) => n as u32,
            None => doc.edition,
        },
        updated_at: now,
        ..doc
    }
}

/// The query for the current record.
pub open spec fn load_query(id: Seq<char>) -> QueryView {
    query("load document"@, "SELECT * FROM type::record('document', $id)"@).text("id"@, id)
}

/// The query that creates a revision.
pub open spec fn fork_query(revision: NewRevisionView) -> QueryView {
    query("fork revision"@, "CREATE document CONTENT $data"@).bind(
        "data"@,
        ParamView::Revision(revision),
    )
}

/// The query that merges an edit into the record `id`.
pub open spec fn merge_query(id: Seq<char>, doc: UpdateDocumentView) -> QueryView {
    query(
        "update document"@,
        "UPDATE type::record('document', $id) MERGE $data RETURN AFTER"@,
    ).text("id"@, id).bind("data"@, ParamView::Edit(doc))
}

/// The query that enters an edit in the activity log of the record `id`.
pub open spec fn event_query(
    id: Seq<char>,
    actor: Seq<char>,
    reason: Seq<char>,
    sections: Seq<Seq<char>>,
    now: Seq<char>,
) -> QueryView {
    query(
        "log edit event"@,
        "UPDATE type::record('document', $id) SET events = array::append(events ?? [], { kind: 'edited', actor: $actor, detail: $reason, sections: $sections, at: $at }) RETURN AFTER"@,
    ).text("id"@, id).text("actor"@, actor).text("reason"@, reason).bind(
        "sections"@,
        ParamView::Texts(sections),
    ).text("at"@, now)
}

/// The query that enters an edit in the change log of the record `id`.
pub open spec fn change_query(
    id: Seq<char>,
    actor: Seq<char>,
    reason: Seq<char>,
    sections: Seq<Seq<char>>,
    now: Seq<char>,
) -> QueryView {
    query(
        "log change entry"@,
        "UPDATE type::record('document', $id) SET changes = array::append(changes ?? [], { editor: $editor, reason: $reason, sections: $sections, at: $at }) RETURN AFTER"@,
    ).text("id"@, id).text("editor"@, actor).text("reason"@, reason).bind(
        "sections"@,
        ParamView::Texts(sections),
    ).text("at"@, now)
}

/// How an edit begins: an invalid one is refused before anything is asked.
pub open spec fn update_first<T>(
    payload: UpdatePayloadView,
    id: Seq<char>,
    now: Seq<char>,
) -> StepView<UpdateStateView<T>, T> {
    match update_error(payload.doc) {
        Some(e) => StepView::Fail(e),
        None => StepView::Ask(load_query(id), UpdateStateView::Load { payload, id, now }),
    }
}

/// The record after a write: what the write answered with, or what was known
/// before.
pub open spec fn latest<T>(record: T, row: Option<Row<T>>) -> T {
    match row {
        Some(row) => row.record,
        None => record,
    }
}

/// How an edit goes on when the first row of its query is `row`.
pub open spec fn update_next<T>(state: UpdateStateView<T>, row: Option<Row<T>>) -> StepView<
    UpdateStateView<T>,
    T,
> {
    match state {
        UpdateStateView::Load { payload, id, now } => match row {
            None => StepView::Fail(ErrorView::NotFound),
            Some(row) => if is_approved(row.fields) {
                StepView::Ask(
                    fork_query(revision(payload, id, now, row.fields)),
                    UpdateStateView::Fork,
                )
            } else {
                StepView::Ask(
                    merge_query(id, edited(payload.doc, row.fields, now)),
                    UpdateStateView::Merge {
                        id,
                        actor: actor_of(payload, or_empty(row.fields.author)),
                        reason: payload.reason,
                        sections: payload.changed_sections,
                        now,
                    },
                )
            },
        },
        UpdateStateView::Fork => match row {
            Some(row) => StepView::Done(row.record),
            None => StepView::Fail(ErrorView::Internal("failed to create revision"@)),
        },
        UpdateStateView::Merge { id, actor, reason, sections, now } => match row {
            None => StepView::Fail(ErrorView::NotFound),
            Some(row) => if sections.len() > 0 || !is_blank(reason) {
                StepView::Ask(
                    event_query(id, actor, reason, sections, now),
                    UpdateStateView::LogEvent {
                        record: row.record,
                        id,
                        actor,
                        reason,
                        sections,
                        now,
                    },
                )
            } else {
                StepView::Done(row.record)
            },
        },
        UpdateStateView::LogEvent { record, id, actor, reason, sections, now } => if is_blank(
            reason,
        ) {
            StepView::Done(latest(record, row))
        } else {
            StepView::Ask(
                change_query(id, actor, reason, sections, now),
                UpdateStateView::LogChange { record: latest(record, row) },
            )
        },
        UpdateStateView::LogChange { record } => StepView::Done(latest(record, row)),
    }
}

/// The revision of an approved record has an edition to take.
pub open spec fn can_go_on<T>(state: UpdateStateView<T>, row: Option<Row<T>>) -> bool {
    state is Load && row is Some && is_approved(row->0.fields) ==> has_next_edition(row->0.fields)
}

/// A copy of `v`.
fn copy(v: &Vec<String>) -> (r: Vec<String>)
    ensures
        r.deep_view() == v.deep_view(),
{
    let mut out: Vec<String> = Vec::new();
    for i in 0..v.len()
        invariant
            out@.len() == i,
            forall|j: int| 0 <= j < i ==> (#[trigger] out@[j])@ == v@[j]@,
    {
        out.push(v[i].clone());
    }
    assert(out.deep_view() =~= v.deep_view());
    out
}

/// Begins the edit `payload` of the document `id` at the time `now`.
pub fn update_at<T>(payload: UpdatePayload, id: String, now: String) -> (r: Step<
    UpdateState<T>,
    T,
>)
    ensures
        r@ == update_first::<T>(payload@, id@, now@),
{
    match payload.doc.validate() {
        Err(e) => Step::Fail(e),
        Ok(()) => {
            let q = Query::new(
                "load document",
                "SELECT * FROM type::record('document', $id)".to_string(),
            ).text("id", id.clone());
            Step::Ask(q, UpdateState::Load { payload, id, now })
        },
    }
}

/// Begins the edit `payload` of the document `id` now.
pub fn update<T>(payload: UpdatePayload, id: String) -> (r: Step<UpdateState<T>, T>)
    ensures
        exists|now: Seq<char>| is_utc(now) && r@ == #[trigger] update_first::<T>(payload@, id@, now),
{
    let now = now_rfc3339();
    let r = update_at::<T>(payload, id, now);
    proof {
        assert(r@ == update_first::<T>(payload@, id@, now@));
    }
    r
}

/// The edition `n` as it is stored in a document.
fn stored_edition(n: u64) -> (r: u32)
    ensures
        r == n as u32,
{
    #[verifier::truncate]
    (n as u32)
}

/// Whether the record is approved.
fn approved(fields: &Fields) -> (r: bool)
    ensures
        r == is_approved(*fields),
{
    proof {
        reveal_strlit("Approved");
        assert("Approved"@.len() == 8);
    }
    match &fields.status {
        Some(s) => same(s.as_str(), "Approved"),
        None => false,
    }
}

/// Whether the edit can go on with `row`: the next edition has to fit.
pub fn can_resume<T>(state: &UpdateState<T>, row: &Option<Row<T>>) -> (r: bool)
    ensures
        r == can_go_on(state@, *row),
{
    match state {
        UpdateState::Load { .. } => match row {
            Some(row) => !approved(&row.fields) || match row.fields.edition {
                Some(n) => stored_edition(n) < u32::MAX,
                None => true,
            },
            None => true,
        },
        _ => true,
    }
}

/// The edit as it is merged into a record.
fn merged(doc: UpdateDocument, edition: Option<u64>, now: String) -> (r: UpdateDocument)
    ensures
        forall|fields: Fields| fields.edition == edition ==> r@ == edited(doc@, fields, now@),
{
    let mut out = doc;
    out.updated_at = now;
    if let Some(n) = edition {
        out.edition = stored_edition(n);
    }
    out
}

/// The revision that an edit of an approved document forks.
fn fork(payload: UpdatePayload, id: String, now: String, fields: Fields) -> (r: NewRevision)
    requires
        has_next_edition(fields),
    ensures
        r@ == revision(payload@, id@, now@, fields),
{
    let base: u32 = match fields.edition {
        Some(n) => stored_edition(n),
        None => 0,
    };
    let author = text_or_empty(fields.author);
    let actor = if blank(payload.editor.as_str()) {
        author.clone()
    } else {
        payload.editor.clone()
    };
    let mut changes: Vec<ChangeEntry> = Vec::new();
    if !blank(payload.reason.as_str()) {
        changes.push(
            ChangeEntry {
                editor: actor.clone(),
                reason: payload.reason.clone(),
                sections: copy(&payload.changed_sections),
                at: now.clone(),
            },
        );
    }
    let mut events: Vec<Event> = Vec::new();
    events.push(
        Event {
            kind: "created".to_string(),
            actor,
            detail: payload.reason,
            sections: payload.changed_sections,
            at: now.clone(),
        },
    );
    let r = NewRevision {
        title: payload.doc.title,
        kind: payload.doc.kind,
        body: payload.doc.body,
        date: payload.doc.date,
        author,
        author_email: text_or_empty(fields.author_email),
        status: "Draft".to_string(),
        approved_by: Vec::new(),
        document_number: payload.doc.document_number,
        document_type: payload.doc.document_type,
        department: payload.doc.department,
        edition: base + 1,
        page_setup: payload.doc.page_setup,
        source_file: text_or_empty(fields.source_file),
        source_name: text_or_empty(fields.source_name),
        source_mime: text_or_empty(fields.source_mime),
        revision_of: id,
        created_at: now.clone(),
        updated_at: now,
        changes,
        events,
    };
    proof {
        let v = revision(payload@, id@, r.updated_at@, fields);
        assert(r@.approved_by =~= v.approved_by);
        assert(r@.changes =~= v.changes);
        assert(r@.events =~= v.events);
    }
    r
}

/// Goes on with an edit: `row` is the first row that its query answered with.
pub fn resume<T>(state: UpdateState<T>, row: Option<Row<T>>) -> (r: Step<UpdateState<T>, T>)
    requires
        can_go_on(state@, row),
    ensures
        r@ == update_next(state@, row),
{
    match state {
        UpdateState::Load { payload, id, now } => match row {
            None => Step::Fail(AppError::NotFound),
            Some(row) => {
                if approved(&row.fields) {
                    let data = fork(payload, id, now, row.fields);
                    Step::Ask(
                        Query::new("fork revision", "CREATE document CONTENT $data".to_string()).bind(
                            "data",
                            Param::Revision(data),
                        ),
                        UpdateState::Fork,
                    )
                } else {
                    let author = text_or_empty(row.fields.author);
                    let actor = if blank(payload.editor.as_str()) {
                        author
                    } else {
                        payload.editor
                    };
                    let doc = merged(payload.doc, row.fields.edition, now.clone());
                    let q = Query::new(
                        "update document",
                        "UPDATE type::record('document', $id) MERGE $data RETURN AFTER".to_string(),
                    ).text("id", id.clone()).bind("data", Param::Edit(doc));
                    Step::Ask(
                        q,
                        UpdateState::Merge {
                            id,
                            actor,
                            reason: payload.reason,
                            sections: payload.changed_sections,
                            now,
                        },
                    )
                }
            },
        },
        UpdateState::Fork => match row {
            Some(row) => Step::Done(row.record),
            None => Step::Fail(AppError::Internal("failed to create revision".to_string())),
        },
        UpdateState::Merge { id, actor, reason, sections, now } => match row {
            None => Step::Fail(AppError::NotFound),
            Some(row) => {
                if sections.len() > 0 || !blank(reason.as_str()) {
                    let q = Query::new(
                        "log edit event",
                        "UPDATE type::record('document', $id) SET events = array::append(events ?? [], { kind: 'edited', actor: $actor, detail: $reason, sections: $sections, at: $at }) RETURN AFTER".to_string(),
                    ).text("id", id.clone()).text("actor", actor.clone()).text(
                        "reason",
                        reason.clone(),
                    ).bind("sections", Param::Texts(copy(&sections))).text("at", now.clone());
                    Step::Ask(
                        q,
                        UpdateState::LogEvent {
                            record: row.record,
                            id,
                            actor,
                            reason,
                            sections,
                            now,
                        },
                    )
                } else {
                    Step::Done(row.record)
                }
            },
        },
        UpdateState::LogEvent { record, id, actor, reason, sections, now } => {
            let record = match row {
                Some(row) => row.record,
                None => record,
            };
            if blank(reason.as_str()) {
                Step::Done(record)
            } else {
                let q = Query::new(
                    "log change entry",
                    "UPDATE type::record('document', $id) SET changes = array::append(changes ?? [], { editor: $editor, reason: $reason, sections: $sections, at: $at }) RETURN AFTER".to_string(),
                ).text("id", id).text("editor", actor).text("reason", reason).bind(
                    "sections",
                    Param::Texts(sections),
                ).text("at", now);
                Step::Ask(q, UpdateState::LogChange { record })
            }
        },
        UpdateState::LogChange { record } => match row {
            Some(row) => Step::Done(row.record),
            None => Step::Done(record),
        },
    }
}

/// Editing an approved document leaves it untouched: the one thing written is a
/// new document, a Draft without approvals that points back at it and is
/// exactly one edition further, and with that the edit ends.
pub proof fn approved_stays_live<T>(
    payload: UpdatePayloadView,
    id: Seq<char>,
    now: Seq<char>,
    row: Row<T>,
    after: Option<Row<T>>,
)
    requires
        is_approved(row.fields),
        has_next_edition(row.fields),
    ensures
        update_next(UpdateStateView::Load { payload, id, now }, Some(row)) matches StepView::Ask(
            q,
            state,
        ) && {
            let made = revision(payload, id, now, row.fields);
            &&& q == fork_query(made)
            &&& made.status == "Draft"@
            &&& made.approved_by.len() == 0
            &&& made.revision_of == id
            &&& made.edition == base_edition(row.fields) + 1
            &&& made.author == or_empty(row.fields.author)
            &&& made.author_email == or_empty(row.fields.author_email)
            &&& !(update_next(state, after) is Ask)
        },
{
}

/// The edition is managed by the system: whatever edition the client sends, an
/// edit that is merged or forked writes the same one.
pub proof fn edition_ignores_client(
    a: UpdatePayloadView,
    b: UpdatePayloadView,
    id: Seq<char>,
    now: Seq<char>,
    fields: Fields,
)
    requires
        fields.edition is Some,
    ensures
        edited(a.doc, fields, now).edition == edited(b.doc, fields, now).edition,
        fields.edition->0 <= u32::MAX ==> edited(a.doc, fields, now).edition == fields.edition->0,
        revision(a, id, now, fields).edition == revision(b, id, now, fields).edition,
{
}

/// An edit in place changes nothing but what it carries: what it merges has no
/// status, author or approvals, and its fields are those of the edit but for
/// the edition and the time.
pub proof fn edit_keeps_content(doc: UpdateDocumentView, fields: Fields, now: Seq<char>)
    ensures
        ({
            let e = edited(doc, fields, now);
            &&& e == UpdateDocumentView { edition: e.edition, updated_at: now, ..doc }
        }),
{
}

/// A pure no-op save leaves no trace in the logs: an edit without changed
/// sections and without a reason ends with the merge.
pub proof fn no_op_is_not_logged<T>(state: UpdateStateView<T>, row: Option<Row<T>>)
    requires
        state is Merge,
        state->Merge_sections.len() == 0,
        is_blank(state->Merge_reason),
    ensures
        !(update_next(state, row) is Ask),
{
}

/// A reason is recorded: an edit in place that gives one is entered in the
/// activity log and then in the change log, with who made it and when, before
/// it is answered.
pub proof fn reason_is_recorded<T>(
    payload: UpdatePayloadView,
    id: Seq<char>,
    now: Seq<char>,
    current: Row<T>,
    merged: Row<T>,
    logged: Option<Row<T>>,
)
    requires
        !is_approved(current.fields),
        !is_blank(payload.reason),
    ensures
        ({
            let actor = actor_of(payload, or_empty(current.fields.author));
            let first = update_next(UpdateStateView::Load { payload, id, now }, Some(current));
            &&& first matches StepView::Ask(_, merging)
            &&& update_next(merging, Some(merged)) matches StepView::Ask(event, logging)
            &&& event == event_query(id, actor, payload.reason, payload.changed_sections, now)
            &&& update_next(logging, logged) matches StepView::Ask(change, _)
            &&& change == change_query(id, actor, payload.reason, payload.changed_sections, now)
        }),
{
}

/// An invalid edit asks nothing of the database.
pub proof fn invalid_edit_asks_nothing<T>(
    payload: UpdatePayloadView,
    id: Seq<char>,
    now: Seq<char>,
)
    ensures
        update_first::<T>(payload, id, now) is Ask <==> update_error(payload.doc) is None,
{
}

/// How many queries may follow at most.
pub open spec fn queries_left<T>(state: UpdateStateView<T>) -> nat {
    match state {
        UpdateStateView::Load { .. } => 3,
        UpdateStateView::Fork => 0,
        UpdateStateView::Merge { .. } => 2,
        UpdateStateView::LogEvent { .. } => 1,
        UpdateStateView::LogChange { .. } => 0,
    }
}

/// An edit comes to an end: each step leaves fewer queries to follow.
pub proof fn update_ends<T>(state: UpdateStateView<T>, row: Option<Row<T>>)
    ensures
        update_next(state, row) matches StepView::Ask(_, next) ==> queries_left(next)
            < queries_left(state),
{
}

// ---------------------------------------------------------------------------
// Laws
// ---------------------------------------------------------------------------

/// An edit of a document that is not approved is merged into that document as it
/// was sent, field by field: only the edition is that of the record, where it has
/// one, and the time of the edit is now.
pub proof fn edit_is_merged_as_sent<T>(
    payload: UpdatePayloadView,
    id: Seq<char>,
    now: Seq<char>,
    row: Row<T>,
)
    requires
        or_empty(row.fields.status) != "Approved"@,
    ensures
        update_next(UpdateStateView::Load { payload, id, now }, Some(row)) matches StepView::Ask(
            q,
            next,
        ) && {
            &&& q.sql == "UPDATE type::record('document', $id) MERGE $data RETURN AFTER"@
            &&& q.binds.len() == 2
            &&& q.binds[0] == (BindView { name: "id"@, value: ParamView::Text(id) })
            &&& q.binds[1].name == "data"@
            &&& q.binds[1].value matches ParamView::Edit(data) && {
                &&& data.title == payload.doc.title
                &&& data.kind == payload.doc.kind
                &&& data.body == payload.doc.body
                &&& data.date == payload.doc.date
                &&& data.document_number == payload.doc.document_number
                &&& data.document_type == payload.doc.document_type
                &&& data.department == payload.doc.department
                &&& data.page_setup == payload.doc.page_setup
                &&& row.fields.edition is None ==> data.edition == payload.doc.edition
                &&& row.fields.edition matches Some(n) ==> data.edition == n as u32
                &&& data.updated_at == now
            }
            &&& next == (UpdateStateView::<T>::Merge {
                id,
                actor: if is_blank(payload.editor) {
                    or_empty(row.fields.author)
                } else {
                    payload.editor
                },
                reason: payload.reason,
                sections: payload.changed_sections,
                now,
            })
        },
{
}

/// An edit of an approved document becomes a new draft with the content as it was
/// sent, the author and the imported file of the approved one, the next edition,
/// and a log that begins with its creation.
pub proof fn revision_carries_the_edit<T>(
    payload: UpdatePayloadView,
    id: Seq<char>,
    now: Seq<char>,
    row: Row<T>,
)
    requires
        or_empty(row.fields.status) == "Approved"@,
        row.fields.edition matches Some(n) ==> n < u32::MAX,
    ensures
        update_next(UpdateStateView::Load { payload, id, now }, Some(row)) matches StepView::Ask(
            q,
            next,
        ) && {
            let actor = if is_blank(payload.editor) {
                or_empty(row.fields.author)
            } else {
                payload.editor
            };
            &&& next is Fork
            &&& q.sql == "CREATE document CONTENT $data"@
            &&& q.binds.len() == 1
            &&& q.binds[0].name == "data"@
            &&& q.binds[0].value matches ParamView::Revision(data) && {
                &&& data.title == payload.doc.title
                &&& data.kind == payload.doc.kind
                &&& data.body == payload.doc.body
                &&& data.date == payload.doc.date
                &&& data.author == or_empty(row.fields.author)
                &&& data.author_email == or_empty(row.fields.author_email)
                &&& data.status == "Draft"@
                &&& data.approved_by.len() == 0
                &&& data.document_number == payload.doc.document_number
                &&& data.document_type == payload.doc.document_type
                &&& data.department == payload.doc.department
                &&& row.fields.edition is None ==> data.edition == 1
                &&& row.fields.edition matches Some(n) ==> data.edition == n + 1
                &&& data.page_setup == payload.doc.page_setup
                &&& data.source_file == or_empty(row.fields.source_file)
                &&& data.source_name == or_empty(row.fields.source_name)
                &&& data.source_mime == or_empty(row.fields.source_mime)
                &&& data.revision_of == id
                &&& data.created_at == now
                &&& data.updated_at == now
                &&& data.events.len() == 1
                &&& data.events[0] == (EventView {
                    kind: "created"@,
                    actor,
                    detail: payload.reason,
                    sections: payload.changed_sections,
                    at: now,
                })
                &&& is_blank(payload.reason) ==> data.changes.len() == 0
                &&& !is_blank(payload.reason) ==> data.changes == seq![
                    ChangeEntryView {
                        editor: actor,
                        reason: payload.reason,
                        sections: payload.changed_sections,
                        at: now,
                    },
                ]
            }
        },
{
}

/// An edit begins with looking up its document, once its fields are in order.
pub proof fn edit_begins_with_the_record<T>(
    payload: UpdatePayloadView,
    id: Seq<char>,
    now: Seq<char>,
)
    ensures
        match update_error(payload.doc) {
            Some(e) => update_first::<T>(payload, id, now) == StepView::<
                UpdateStateView<T>,
                T,
            >::Fail(e),
            None => update_first::<T>(payload, id, now) matches StepView::Ask(q, state) && {
                &&& q.sql == "SELECT * FROM type::record('document', $id)"@
                &&& q.binds == seq![BindView { name: "id"@, value: ParamView::Text(id) }]
                &&& state == (UpdateStateView::<T>::Load { payload, id, now })
            },
        },
{
    assert(load_query(id).binds =~= seq![BindView { name: "id"@, value: ParamView::Text(id) }]);
}

/// A document that is not there is not edited, and what fails to be created is
/// reported.
pub proof fn missing_document_is_not_edited<T>(state: UpdateStateView<T>)
    ensures
        state is Load || state is Merge ==> update_next(state, None) == StepView::<
            UpdateStateView<T>,
            T,
        >::Fail(ErrorView::NotFound),
        state is Fork ==> update_next(state, None) == StepView::<UpdateStateView<T>, T>::Fail(
            ErrorView::Internal("failed to create revision"@),
        ),
{
}

/// An edit with sections or a reason is entered in the activity log of its
/// document: what changed, by whom, why and when; with a reason it is entered in
/// the change log too, with the same values. The answer is the record that the
/// last query handed back.
pub proof fn edit_is_logged_in_full<T>(
    id: Seq<char>,
    actor: Seq<char>,
    reason: Seq<char>,
    sections: Seq<Seq<char>>,
    now: Seq<char>,
    merged: Row<T>,
    logged: Option<Row<T>>,
    changed: Option<Row<T>>,
)
    requires
        sections.len() > 0 || !is_blank(reason),
    ensures
        update_next(
            UpdateStateView::Merge { id, actor, reason, sections, now },
            Some(merged),
        ) matches StepView::Ask(event, logging) && {
            let newest = match logged {
                Some(row) => row.record,
                None => merged.record,
            };
            &&& event.sql
                == "UPDATE type::record('document', $id) SET events = array::append(events ?? [], { kind: 'edited', actor: $actor, detail: $reason, sections: $sections, at: $at }) RETURN AFTER"@
            &&& event.binds.len() == 5
            &&& event.binds[0] == (BindView { name: "id"@, value: ParamView::Text(id) })
            &&& event.binds[1] == (BindView { name: "actor"@, value: ParamView::Text(actor) })
            &&& event.binds[2] == (BindView { name: "reason"@, value: ParamView::Text(reason) })
            &&& event.binds[3] == (BindView { name: "sections"@, value: ParamView::Texts(sections) })
            &&& event.binds[4] == (BindView { name: "at"@, value: ParamView::Text(now) })
            &&& if is_blank(reason) {
                update_next(logging, logged) == StepView::<UpdateStateView<T>, T>::Done(newest)
            } else {
                update_next(logging, logged) matches StepView::Ask(change, last) && {
                    &&& change.sql
                        == "UPDATE type::record('document', $id) SET changes = array::append(changes ?? [], { editor: $editor, reason: $reason, sections: $sections, at: $at }) RETURN AFTER"@
                    &&& change.binds.len() == 5
                    &&& change.binds[0] == (BindView { name: "id"@, value: ParamView::Text(id) })
                    &&& change.binds[1] == (BindView {
                        name: "editor"@,
                        value: ParamView::Text(actor),
                    })
                    &&& change.binds[2] == (BindView {
                        name: "reason"@,
                        value: ParamView::Text(reason),
                    })
                    &&& change.binds[3] == (BindView {
                        name: "sections"@,
                        value: ParamView::Texts(sections),
                    })
                    &&& change.binds[4] == (BindView { name: "at"@, value: ParamView::Text(now) })
                    &&& update_next(last, changed) == StepView::<UpdateStateView<T>, T>::Done(
                        match changed {
                            Some(row) => row.record,
                            None => newest,
                        },
                    )
                }
            }
        },
{
}

/// What is not logged, and a new revision, is answered with the record that was
/// written.
pub proof fn written_record_is_answered<T>(state: UpdateStateView<T>, row: Row<T>)
    requires
        state is Fork || state is Merge && state->Merge_sections.len() == 0 && is_blank(
            state->Merge_reason,
        ),
    ensures
        update_next(state, Some(row)) == StepView::<UpdateStateView<T>, T>::Done(row.record),
{
}

/// The queries of an edit go by these names in the log.
pub proof fn edit_queries_are_named(
    id: Seq<char>,
    made: NewRevisionView,
    doc: UpdateDocumentView,
    actor: Seq<char>,
    reason: Seq<char>,
    sections: Seq<Seq<char>>,
    now: Seq<char>,
)
    ensures
        load_query(id).op == "load document"@,
        fork_query(made).op == "fork revision"@,
        merge_query(id, doc).op == "update document"@,
        event_query(id, actor, reason, sections, now).op == "log edit event"@,
        change_query(id, actor, reason, sections, now).op == "log change entry"@,
{
}

} // verus!
