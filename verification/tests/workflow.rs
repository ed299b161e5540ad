use qims_backend::database::documents::model::UpdateDocument;
use qims_backend::database::documents::review::{self, review, ReviewInput, ReviewState, ReviewStep};
use qims_backend::database::documents::update::{
    self, can_resume, update, update_at, UpdatePayload, UpdateState,
};
use qims_backend::database::query::{Fields, Param, Query, Row, Step};
use qims_backend::error::AppError;

fn fields() -> Fields {
    Fields {
        text: None,
        status: None,
        author: None,
        author_email: None,
        document_number: None,
        title: None,
        source_file: None,
        source_name: None,
        source_mime: None,
        edition: None,
    }
}

fn some(s: &str) -> Option<String> {
    Some(s.to_string())
}

fn row(record: u8, fields: Fields) -> Option<Row<u8>> {
    Some(Row { record, fields })
}

fn bound<'a>(q: &'a Query, name: &str) -> &'a Param {
    for b in &q.binds {
        if b.name == name {
            return &b.value;
        }
    }
    panic!("not bound: {name}")
}

fn text<'a>(q: &'a Query, name: &str) -> &'a str {
    match bound(q, name) {
        Param::Text(s) => s.as_str(),
        _ => unreachable!(),
    }
}

fn edit(reason: &str, sections: &[&str], editor: &str) -> UpdatePayload {
    UpdatePayload {
        doc: UpdateDocument {
            title: "New title".to_string(),
            kind: "document".to_string(),
            body: "<p>new</p>".to_string(),
            date: "2024-06-01".to_string(),
            document_number: "Q-1".to_string(),
            document_type: "Method".to_string(),
            department: "Quality".to_string(),
            edition: 99,
            page_setup: "{}".to_string(),
            updated_at: "forged".to_string(),
        },
        reason: reason.to_string(),
        changed_sections: sections.iter().map(|s| s.to_string()).collect(),
        editor: editor.to_string(),
    }
}

fn asked(step: Step<UpdateState<u8>, u8>) -> (Query, UpdateState<u8>) {
    match step {
        Step::Ask(q, s) => (q, s),
        _ => unreachable!(),
    }
}

fn loaded(payload: UpdatePayload) -> UpdateState<u8> {
    let (q, state) = asked(update_at(payload, "d1".to_string(), "T".to_string()));
    assert_eq!(q.op, "load document");
    assert_eq!(text(&q, "id"), "d1");
    state
}

fn approved(edition: u64) -> Fields {
    Fields {
        status: some("Approved"),
        author: some("Ann"),
        author_email: some("ann@x"),
        source_file: some("1-a.docx"),
        source_name: some("a.docx"),
        source_mime: some("m"),
        edition: Some(edition),
        ..fields()
    }
}

#[test]
fn editing_an_approved_document_forks_a_draft() {
    let state = loaded(edit("typo", &["Content"], "Bob"));
    let current = row(1, approved(12));
    assert!(can_resume(&state, &current));
    let (q, state) = asked(update::resume(state, current));
    assert_eq!(q.op, "fork revision");
    assert_eq!(q.sql, "CREATE document CONTENT $data");
    match bound(&q, "data") {
        Param::Revision(r) => {
            assert_eq!(r.edition, 13);
            assert_eq!(r.status, "Draft");
            assert!(r.approved_by.is_empty());
            assert_eq!(r.revision_of, "d1");
            assert_eq!((r.author.as_str(), r.author_email.as_str()), ("Ann", "ann@x"));
            assert_eq!((r.title.as_str(), r.body.as_str()), ("New title", "<p>new</p>"));
            assert_eq!((r.source_file.as_str(), r.source_name.as_str()), ("1-a.docx", "a.docx"));
            assert_eq!((r.created_at.as_str(), r.updated_at.as_str()), ("T", "T"));
            assert_eq!(r.changes.len(), 1);
            assert_eq!(r.changes[0].editor, "Bob");
            assert_eq!(r.changes[0].reason, "typo");
            assert_eq!(r.events.len(), 1);
            assert_eq!(r.events[0].kind, "created");
            assert_eq!(r.events[0].detail, "typo");
            assert_eq!(r.events[0].sections, vec!["Content".to_string()]);
        }
        _ => unreachable!(),
    }
    assert!(matches!(state, UpdateState::Fork));
    assert!(matches!(update::resume(UpdateState::Fork, row(2, fields())), Step::Done(2)));
}

#[test]
fn a_fork_without_a_reason_has_no_change_entry() {
    let state = loaded(edit(" ", &[], "  "));
    let (q, _) = asked(update::resume(state, row(1, approved(1))));
    match bound(&q, "data") {
        Param::Revision(r) => {
            assert!(r.changes.is_empty());
            assert_eq!(r.events[0].actor, "Ann");
        }
        _ => unreachable!(),
    }
}

#[test]
fn a_fork_that_is_not_created_is_a_failure() {
    match update::resume::<u8>(UpdateState::Fork, None) {
        Step::Fail(AppError::Internal(m)) => assert_eq!(m, "failed to create revision"),
        _ => unreachable!(),
    }
}

#[test]
fn the_last_edition_has_no_next_one() {
    let state = loaded(edit("", &[], ""));
    assert!(!can_resume(&state, &row(1, approved(u32::MAX as u64))));
    assert!(can_resume(&state, &row(1, approved(u32::MAX as u64 - 1))));
    assert!(can_resume(&state, &row(1, Fields { edition: Some(u32::MAX as u64), ..fields() })));
    assert!(can_resume(&state, &None));
}

#[test]
fn a_draft_is_edited_in_place() {
    let state = loaded(edit("", &[], ""));
    let draft = Fields { status: some("Draft"), author: some("Ann"), edition: Some(3), ..fields() };
    let (q, state) = asked(update::resume(state, row(1, draft)));
    assert_eq!(q.sql, "UPDATE type::record('document', $id) MERGE $data RETURN AFTER");
    match bound(&q, "data") {
        Param::Edit(d) => {
            assert_eq!(d.edition, 3);
            assert_eq!(d.updated_at, "T");
            assert_eq!(d.title, "New title");
        }
        _ => unreachable!(),
    }
    // Nothing changed and no reason: the logs stay as they are.
    assert!(matches!(update::resume(state, row(5, fields())), Step::Done(5)));
}

#[test]
fn a_record_without_an_edition_takes_the_one_sent() {
    let state = loaded(edit("", &[], ""));
    let (q, _) = asked(update::resume(state, row(1, fields())));
    match bound(&q, "data") {
        Param::Edit(d) => assert_eq!(d.edition, 99),
        _ => unreachable!(),
    }
}

#[test]
fn an_edit_with_a_reason_is_logged_twice() {
    let state = loaded(edit("why", &["Body"], ""));
    let under = Fields { status: some("Under Review"), author: some("Ann"), ..fields() };
    let (_, state) = asked(update::resume(state, row(1, under)));
    let (q, state) = asked(update::resume(state, row(2, fields())));
    assert_eq!(q.op, "log edit event");
    assert_eq!((text(&q, "actor"), text(&q, "reason"), text(&q, "at")), ("Ann", "why", "T"));
    match bound(&q, "sections") {
        Param::Texts(v) => assert_eq!(*v, vec!["Body".to_string()]),
        _ => unreachable!(),
    }
    let (q, state) = asked(update::resume(state, row(3, fields())));
    assert_eq!(q.op, "log change entry");
    assert_eq!((text(&q, "editor"), text(&q, "reason"), text(&q, "id")), ("Ann", "why", "d1"));
    assert!(matches!(update::resume(state, None), Step::Done(3)));
}

#[test]
fn an_edit_of_sections_alone_is_an_event_only() {
    let state = loaded(edit("", &["Body"], "Bob"));
    let (_, state) = asked(update::resume(state, row(1, fields())));
    let (q, state) = asked(update::resume(state, row(2, fields())));
    assert_eq!(text(&q, "actor"), "Bob");
    assert!(matches!(update::resume(state, None), Step::Done(2)));
}

#[test]
fn an_edit_of_nothing_is_not_found() {
    let state = loaded(edit("", &[], ""));
    assert!(matches!(update::resume(state, None), Step::Fail(AppError::NotFound)));
    let state = loaded(edit("", &[], ""));
    let (_, state) = asked(update::resume(state, row(1, fields())));
    assert!(matches!(update::resume(state, None), Step::Fail(AppError::NotFound)));
}

#[test]
fn an_invalid_edit_is_refused_before_anything_is_asked() {
    let mut payload = edit("", &[], "");
    payload.doc.title = String::new();
    match update::<u8>(payload, "d1".to_string()) {
        Step::Fail(AppError::BadRequest(m)) => assert_eq!(m, "title is required"),
        _ => unreachable!(),
    }
}

#[test]
fn an_edit_is_made_at_the_current_time() {
    let (_, state) = asked(update(edit("", &[], ""), "d1".to_string()));
    let (q, _) = asked(update::resume(state, row(1, fields())));
    match bound(&q, "data") {
        Param::Edit(d) => assert!(d.updated_at.ends_with("+00:00")),
        _ => unreachable!(),
    }
}

fn input(decision: &str) -> ReviewInput {
    ReviewInput {
        reviewer: "Bob".to_string(),
        decision: decision.to_string(),
        comment: "fine".to_string(),
    }
}

fn question(step: ReviewStep<u8>) -> (Query, ReviewState<u8>) {
    match step {
        ReviewStep::Ask(q, s) => (q, s),
        _ => unreachable!(),
    }
}

fn begun(decision: &str, caller: &str) -> ReviewState<u8> {
    let (q, state) = question(review(input(decision), "d1".to_string(), some(caller)));
    assert_eq!(q.sql, "SELECT author, author_email FROM type::record('document', $id)");
    state
}

fn at(state: ReviewState<u8>, row: Option<Row<u8>>) -> ReviewStep<u8> {
    review::resume_at(state, row, "T".to_string())
}

#[test]
fn incomplete_reviews_are_refused() {
    let mut nameless = input("approve");
    nameless.reviewer = "  ".to_string();
    match review::<u8>(nameless, "d1".to_string(), None) {
        ReviewStep::Fail(AppError::BadRequest(m)) => assert_eq!(m, "reviewing user is required"),
        _ => unreachable!(),
    }
    match review::<u8>(input("Approve"), "d1".to_string(), None) {
        ReviewStep::Fail(AppError::BadRequest(m)) => assert_eq!(m, "invalid decision: Approve"),
        _ => unreachable!(),
    }
}

#[test]
fn nobody_approves_their_own_document() {
    let own = row(1, Fields { author_email: some("bob@x"), ..fields() });
    match at(begun("approve", "bob@x"), own) {
        ReviewStep::Fail(AppError::Forbidden(m)) => {
            assert_eq!(m, "you cannot approve your own document — another editor must approve it")
        }
        _ => unreachable!(),
    }
    // A review of one's own document is no approval.
    let own = row(1, Fields { author_email: some("bob@x"), ..fields() });
    assert!(matches!(at(begun("review", "bob@x"), own), ReviewStep::Ask(_, _)));
}

#[test]
fn older_documents_name_their_author_only() {
    let old = row(1, Fields { author: some("Bob B"), ..fields() });
    let (q, state) = question(at(begun("approve", "bob@x"), old));
    assert_eq!(q.sql, "SELECT VALUE email FROM user WHERE name = $name LIMIT 1");
    assert_eq!(text(&q, "name"), "Bob B");
    let person = row(2, Fields { text: some("bob@x"), ..fields() });
    assert!(matches!(at(state, person), ReviewStep::Fail(AppError::Forbidden(_))));
    let old = row(1, Fields { author: some("Bob B"), ..fields() });
    let (_, state) = question(at(begun("approve", "bob@x"), old));
    assert!(matches!(at(state, None), ReviewStep::Ask(_, _)));
}

#[test]
fn an_approval_promotes_supersedes_and_notifies() {
    let document = row(1, Fields { author_email: some("ann@x"), ..fields() });
    let (q, state) = question(at(begun("approve", "bob@x"), document));
    assert_eq!(
        q.sql,
        "UPDATE type::record('document', $id) SET status = 'Approved', updated_at = $updated, approved_by = array::distinct(array::append(approved_by ?? [], $actor)), reviews = array::append(reviews ?? [], $review), events = array::append(events ?? [], { kind: $ev_kind, actor: $actor, detail: $comment, sections: [], at: $updated }) RETURN AFTER"
    );
    assert_eq!((text(&q, "id"), text(&q, "updated")), ("d1", "T"));
    assert_eq!((text(&q, "actor"), text(&q, "comment"), text(&q, "ev_kind")), ("Bob", "fine", "approved"));
    match bound(&q, "review") {
        Param::Review(r) => {
            assert_eq!((r.reviewer.as_str(), r.decision.as_str()), ("Bob", "approve"));
            assert_eq!((r.comment.as_str(), r.at.as_str()), ("fine", "T"));
        }
        _ => unreachable!(),
    }
    let after = Fields { document_number: some("Q-1"), title: some("Sampling"), ..fields() };
    let (q, state) = question(at(state, row(4, after)));
    assert_eq!(q.op, "supersede previous editions");
    assert!(q.sql.contains("WHERE document_number = $num AND status = 'Approved' AND id != type::record('document', $id)"));
    assert_eq!((text(&q, "num"), text(&q, "id"), text(&q, "actor")), ("Q-1", "d1", "Bob"));
    match at(state, None) {
        ReviewStep::Notify(n, record) => {
            assert_eq!(record, 4);
            assert_eq!((n.recipient.as_str(), n.kind.as_str()), ("ann@x", "approved"));
            assert_eq!((n.document.as_str(), n.document_number.as_str()), ("d1", "Q-1"));
            assert_eq!((n.title.as_str(), n.actor.as_str()), ("Sampling", "Bob"));
            assert_eq!(n.comment, "fine");
        }
        _ => unreachable!(),
    }
}

#[test]
fn a_comment_keeps_the_status() {
    let document = row(1, Fields { author_email: some("ann@x"), ..fields() });
    let (q, state) = question(at(begun("review", "bob@x"), document));
    assert!(!q.sql.contains("status"));
    assert!(!q.sql.contains("approved_by"));
    assert_eq!(text(&q, "ev_kind"), "reviewed");
    let after = Fields { document_number: some("Q-1"), ..fields() };
    assert!(matches!(at(state, row(4, after)), ReviewStep::Notify(_, 4)));
}

#[test]
fn the_author_is_not_told_of_their_own_comment() {
    let document = row(1, Fields { author_email: some("bob@x"), ..fields() });
    let (_, state) = question(at(begun("review", "bob@x"), document));
    assert!(matches!(at(state, row(4, fields())), ReviewStep::Done(4)));
    // Nor is anybody told where the author is not known.
    let (_, state) = question(at(begun("approve", "bob@x"), row(1, fields())));
    assert!(matches!(at(state, row(4, fields())), ReviewStep::Done(4)));
}

#[test]
fn a_review_of_nothing_is_not_found() {
    assert!(matches!(at(begun("review", "bob@x"), None), ReviewStep::Fail(AppError::NotFound)));
    let (_, state) = question(at(begun("review", "bob@x"), row(1, fields())));
    assert!(matches!(at(state, None), ReviewStep::Fail(AppError::NotFound)));
}

#[test]
fn a_review_is_recorded_at_the_current_time() {
    let (q, _) = question(review::resume(begun("review", "bob@x"), row(1, fields())));
    assert!(text(&q, "updated").ends_with("+00:00"));
}
