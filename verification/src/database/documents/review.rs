//! `POST /documents/{id}/review`: recording an approval or a review, each with a
//! comment. Approving adds who did so to `approved_by`, promotes the document
//! to Approved, and archives the previous approved document of the same number.

use vstd::prelude::*;

use crate::clock::{is_utc, now_rfc3339};
use crate::database::documents::model::bad_value;
use crate::database::notifications::{Notice, NoticeView};
use crate::database::query::{or_empty, query, text_or_empty, BindView, Fields, Param, ParamView,
    Query, QueryView, Row};
use crate::error::{AppError, ErrorView};
use crate::text::{blank, is_blank, same};

verus! {

/// A review as the frontend sends it.
#[derive(Debug)]
pub struct ReviewInput {
    /// Who is approving/reviewing (auto-filled from the signed-in user).
    pub reviewer: String,
    /// "approve" or "review".
    pub decision: String,
    /// Free-text review comment (optional).
    pub comment: String,
}

/// What a [`ReviewInput`] holds.
pub struct ReviewInputView {
    pub reviewer: Seq<char>,
    pub decision: Seq<char>,
    pub comment: Seq<char>,
}

impl View for ReviewInput {
    type V = ReviewInputView;

    open spec fn view(&self) -> ReviewInputView {
        ReviewInputView {
            reviewer: self.reviewer@,
            decision: self.decision@,
            comment: self.comment@,
        }
    }
}

/// A review as it is kept on the document.
#[derive(Debug)]
pub struct ReviewEntry {
    pub reviewer: String,
    pub decision: String,
    pub comment: String,
    pub at: String,
}

/// What a [`ReviewEntry`] holds.
pub struct ReviewEntryView {
    pub reviewer: Seq<char>,
    pub decision: Seq<char>,
    pub comment: Seq<char>,
    pub at: Seq<char>,
}

impl View for ReviewEntry {
    type V = ReviewEntryView;

    open spec fn view(&self) -> ReviewEntryView {
        ReviewEntryView {
            reviewer: self.reviewer@,
            decision: self.decision@,
            comment: self.comment@,
            at: self.at@,
        }
    }
}

/// Where a review stands between two queries.
#[derive(Debug)]
pub enum ReviewState<T> {
    /// The authorship of the document is being looked up.
    Authorship { input: ReviewInput, id: String, caller: Option<String> },
    /// The author's email is being looked up by the author's name.
    AuthorEmail { input: ReviewInput, id: String, caller: Option<String> },
    /// The review is being recorded.
    Record {
        input: ReviewInput,
        id: String,
        caller: Option<String>,
        author_email: String,
        now: String,
    },
    /// Earlier approved editions are being archived.
    Supersede { record: T, notice: Option<Notice> },
}

/// What a notice that there may be holds.
pub open spec fn notice_view(notice: Option<Notice>) -> Option<NoticeView> {
    match notice {
        Some(n) => Some(n@),
        None => None,
    }
}

/// What a [`ReviewState`] holds.
pub enum ReviewStateView<T> {
    Authorship { input: ReviewInputView, id: Seq<char>, caller: Option<Seq<char>> },
    AuthorEmail { input: ReviewInputView, id: Seq<char>, caller: Option<Seq<char>> },
    Record { input: ReviewInputView, id: Seq<char>, caller: Option<Seq<char>>, author_email: Seq<char>, now: Seq<char> },
    Supersede { record: T, notice: Option<NoticeView> },
}

impl<T> View for ReviewState<T> {
    type V = ReviewStateView<T>;

    open spec fn view(&self) -> ReviewStateView<T> {
        match *self {
            ReviewState::Authorship { input, id, caller } => ReviewStateView::Authorship {
                input: input@,
                id: id@,
                caller: caller.deep_view(),
            },
            ReviewState::AuthorEmail { input, id, caller } => ReviewStateView::AuthorEmail {
                input: input@,
                id: id@,
                caller: caller.deep_view(),
            },
            ReviewState::Record { input, id, caller, author_email, now } => ReviewStateView::Record {
                input: input@,
                id: id@,
                caller: caller.deep_view(),
                author_email: author_email@,
                now: now@,
            },
            ReviewState::Supersede { record, notice } => ReviewStateView::Supersede {
                record,
                notice: notice_view(notice),
            },
        }
    }
}

/// How a review goes on.
#[derive(Debug)]
pub enum ReviewStep<T> {
    /// The query is run and its first row handed back together with the state.
    Ask(Query, ReviewState<T>),
    /// The notice is given, and then the review is answered.
    Notify(Notice, T),
    /// The review is answered.
    Done(T),
    /// The review is refused.
    Fail(AppError),
}

/// What a [`ReviewStep`] holds.
pub enum ReviewStepView<T> {
    Ask(QueryView, ReviewStateView<T>),
    Notify(NoticeView, T),
    Done(T),
    Fail(ErrorView),
}

impl<T> View for ReviewStep<T> {
    type V = ReviewStepView<T>;

    open spec fn view(&self) -> ReviewStepView<T> {
        match *self {
            ReviewStep::Ask(q, s) => ReviewStepView::Ask(q@, s@),
            ReviewStep::Notify(n, t) => ReviewStepView::Notify(n@, t),
            ReviewStep::Done(t) => ReviewStepView::Done(t),
            ReviewStep::Fail(e) => ReviewStepView::Fail(e@),
        }
    }
}

/// The review is an approval.
pub open spec fn is_approval(input: ReviewInputView) -> bool {
    input.decision == "approve"@
}

/// What the review is called in the activity log.
pub open spec fn event_kind(input: ReviewInputView) -> Seq<char> {
    if is_approval(input) {
        "approved"@
    } else {
        "reviewed"@
    }
}

/// The query for the authorship of the document `id`.
pub open spec fn authorship_query(id: Seq<char>) -> QueryView {
    query(
        "load document authorship"@,
        "SELECT author, author_email FROM type::record('document', $id)"@,
    ).text("id"@, id)
}

/// The query for the email of the person named `name`.
pub open spec fn author_email_query(name: Seq<char>) -> QueryView {
    query(
        "look up author email"@,
        "SELECT VALUE email FROM user WHERE name = $name LIMIT 1"@,
    ).text("name"@, name)
}

/// The part of the update that promotes an approved document. A comment-review
/// never touches the status: an approved document stays approved and just
/// collects the comment.
pub open spec fn status_clause(approval: bool) -> Seq<char> {
    if approval {
        "status = 'Approved', "@
    } else {
        ""@
    }
}

/// The part of the update that records who approved, each person once: the
/// database puts the person behind those who approved before, and keeps the first
/// of equal ones. [`approvals_after`] says what that leaves.
pub open spec fn approver_clause(approval: bool) -> Seq<char> {
    if approval {
        "approved_by = array::distinct(array::append(approved_by ?? [], $actor)),"@
    } else {
        ""@
    }
}

/// `people` with the first of equal ones kept, in order.
pub open spec fn each_once(people: Seq<Seq<char>>) -> Seq<Seq<char>>
    decreases people.len(),
{
    if people.len() == 0 {
        seq![]
    } else {
        let front = each_once(people.drop_last());
        if front.contains(people.last()) {
            front
        } else {
            front.push(people.last())
        }
    }
}

/// Who has approved once `actor` has, where `approved` did before.
pub open spec fn approvals_after(approved: Seq<Seq<char>>, actor: Seq<char>) -> Seq<Seq<char>> {
    each_once(approved.push(actor))
}

/// The update that records a review.
pub open spec fn record_sql(approval: bool) -> Seq<char> {
    "UPDATE type::record('document', $id) SET "@ + status_clause(approval)
        + "updated_at = $updated, "@ + approver_clause(approval)
        + " reviews = array::append(reviews ?? [], $review), events = array::append(events ?? [], { kind: $ev_kind, actor: $actor, detail: $comment, sections: [], at: $updated }) RETURN AFTER"@
}

/// The query that records the review of the document `id`.
pub open spec fn record_query(id: Seq<char>, input: ReviewInputView, now: Seq<char>) -> QueryView {
    query("record review"@, record_sql(is_approval(input))).text("id"@, id).text(
        "updated"@,
        now,
    ).text("actor"@, input.reviewer).text("comment"@, input.comment).text(
        "ev_kind"@,
        event_kind(input),
    ).bind(
        "review"@,
        ParamView::Review(
            ReviewEntryView {
                reviewer: input.reviewer,
                decision: input.decision,
                comment: input.comment,
                at: now,
            },
        ),
    )
}

/// The query that archives the other approved documents of the number `number`.
pub open spec fn supersede_query(
    number: Seq<char>,
    now: Seq<char>,
    id: Seq<char>,
    actor: Seq<char>,
) -> QueryView {
    query(
        "supersede previous editions"@,
        "UPDATE document SET status = 'Archived', updated_at = $updated, events = array::append(events ?? [], { kind: 'archived', actor: $actor, detail: 'Superseded by a newer approved edition', sections: [], at: $updated }) WHERE document_number = $num AND status = 'Approved' AND id != type::record('document', $id)"@,
    ).text("num"@, number).text("updated"@, now).text("id"@, id).text("actor"@, actor)
}

/// How a review begins: one that does not say who reviews, or with a decision
/// that there is not, is refused.
pub open spec fn review_first<T>(
    input: ReviewInputView,
    id: Seq<char>,
    caller: Option<Seq<char>>,
) -> ReviewStepView<T> {
    if is_blank(input.reviewer) {
        ReviewStepView::Fail(ErrorView::BadRequest("reviewing user is required"@))
    } else if input.decision != "approve"@ && input.decision != "review"@ {
        ReviewStepView::Fail(ErrorView::BadRequest("invalid decision: "@ + input.decision))
    } else {
        ReviewStepView::Ask(
            authorship_query(id),
            ReviewStateView::Authorship { input, id, caller },
        )
    }
}

/// How a review goes on once the author's email is known: nobody approves their
/// own document, whatever their role.
pub open spec fn author_known<T>(
    input: ReviewInputView,
    id: Seq<char>,
    caller: Option<Seq<char>>,
    author_email: Seq<char>,
    now: Seq<char>,
) -> ReviewStepView<T> {
    if is_approval(input) && author_email.len() > 0 && caller == Some(author_email) {
        ReviewStepView::Fail(
            ErrorView::Forbidden(
                "you cannot approve your own document — another editor must approve it"@,
            ),
        )
    } else {
        ReviewStepView::Ask(
            record_query(id, input, now),
            ReviewStateView::Record { input, id, caller, author_email, now },
        )
    }
}

/// What the author is told of the review of the document with the fields
/// `fields`: nothing where there is no address, or where they are the one
/// acting on it.
pub open spec fn notice_for(
    input: ReviewInputView,
    id: Seq<char>,
    caller: Option<Seq<char>>,
    author_email: Seq<char>,
    fields: Fields,
) -> Option<NoticeView> {
    if author_email.len() > 0 && caller != Some(author_email) {
        Some(
            NoticeView {
                recipient: author_email,
                kind: event_kind(input),
                document: id,
                document_number: or_empty(fields.document_number),
                title: or_empty(fields.title),
                actor: input.reviewer,
                comment: input.comment,
            },
        )
    } else {
        None
    }
}

/// The answer, behind the notice that there may be.
pub open spec fn answered<T>(record: T, notice: Option<NoticeView>) -> ReviewStepView<T> {
    match notice {
        Some(n) => ReviewStepView::Notify(n, record),
        None => ReviewStepView::Done(record),
    }
}

/// How a review goes on at the time `now` when the first row of its query is
/// `row`.
pub open spec fn review_next<T>(
    state: ReviewStateView<T>,
    row: Option<Row<T>>,
    now: Seq<char>,
) -> ReviewStepView<T> {
    match state {
        ReviewStateView::Authorship { input, id, caller } => match row {
            None => ReviewStepView::Fail(ErrorView::NotFound),
            Some(row) => if or_empty(row.fields.author_email).len() == 0 && or_empty(
                row.fields.author,
            ).len() > 0 {
                ReviewStepView::Ask(
                    author_email_query(or_empty(row.fields.author)),
                    ReviewStateView::AuthorEmail { input, id, caller },
                )
            } else {
                author_known(input, id, caller, or_empty(row.fields.author_email), now)
            },
        },
        ReviewStateView::AuthorEmail { input, id, caller } => author_known(
            input,
            id,
            caller,
            match row {
                Some(row) => or_empty(row.fields.text),
                None => seq![],
            },
            now,
        ),
        ReviewStateView::Record { input, id, caller, author_email, now } => match row {
            None => ReviewStepView::Fail(ErrorView::NotFound),
            Some(row) => {
                let notice = notice_for(input, id, caller, author_email, row.fields);
                match row.fields.document_number {
                    Some(number) => if is_approval(input) {
                        ReviewStepView::Ask(
                            supersede_query(number@, now, id, input.reviewer),
                            ReviewStateView::Supersede { record: row.record, notice },
                        )
                    } else {
                        answered(row.record, notice)
                    },
                    None => answered(row.record, notice),
                }
            },
        },
        ReviewStateView::Supersede { record, notice } => answered(record, notice),
    }
}

/// Begins the review `input` of the document `id`.
pub fn review<T>(input: ReviewInput, id: String, caller: Option<String>) -> (r: ReviewStep<T>)
    ensures
        r@ == review_first::<T>(input@, id@, caller.deep_view()),
{
    if blank(input.reviewer.as_str()) {
        return ReviewStep::Fail(AppError::BadRequest("reviewing user is required".to_string()));
    }
    if !same(input.decision.as_str(), "approve") && !same(input.decision.as_str(), "review") {
        return ReviewStep::Fail(bad_value("invalid decision: ", input.decision.as_str()));
    }
    let q = Query::new(
        "load document authorship",
        "SELECT author, author_email FROM type::record('document', $id)".to_string(),
    ).text("id", id.clone());
    ReviewStep::Ask(q, ReviewState::Authorship { input, id, caller })
}

/// Whether `caller` is the person with the email `email`.
fn is_person(caller: &Option<String>, email: &str) -> (r: bool)
    ensures
        r == (caller.deep_view() == Some(email@)),
{
    match caller {
        Some(c) => same(c.as_str(), email),
        None => false,
    }
}

/// Records the review, unless it is an approval of the caller's own document.
fn with_author<T>(
    input: ReviewInput,
    id: String,
    caller: Option<String>,
    author_email: String,
    now: String,
) -> (r: ReviewStep<T>)
    ensures
        r@ == author_known::<T>(input@, id@, caller.deep_view(), author_email@, now@),
{
    let approval = same(input.decision.as_str(), "approve");
    if approval && !author_email.as_str().is_empty() && is_person(
        &caller,
        author_email.as_str(),
    ) {
        return ReviewStep::Fail(
            AppError::Forbidden(
                "you cannot approve your own document — another editor must approve it".to_string(),
            ),
        );
    }
    let mut sql = "UPDATE type::record('document', $id) SET ".to_string();
    if approval {
        sql.append("status = 'Approved', ");
    }
    sql.append("updated_at = $updated, ");
    if approval {
        sql.append("approved_by = array::distinct(array::append(approved_by ?? [], $actor)),");
    }
    sql.append(
        " reviews = array::append(reviews ?? [], $review), events = array::append(events ?? [], { kind: $ev_kind, actor: $actor, detail: $comment, sections: [], at: $updated }) RETURN AFTER",
    );
    proof {
        reveal_strlit("");
        assert(sql@ =~= record_sql(approval));
    }
    let kind = if approval {
        "approved".to_string()
    } else {
        "reviewed".to_string()
    };
    let q = Query::new("record review", sql).text("id", id.clone()).text(
        "updated",
        now.clone(),
    ).text("actor", input.reviewer.clone()).text("comment", input.comment.clone()).text(
        "ev_kind",
        kind,
    ).bind(
        "review",
        Param::Review(
            ReviewEntry {
                reviewer: input.reviewer.clone(),
                decision: input.decision.clone(),
                comment: input.comment.clone(),
                at: now.clone(),
            },
        ),
    );
    ReviewStep::Ask(q, ReviewState::Record { input, id, caller, author_email, now })
}

/// The answer, behind the notice that there may be.
fn answer<T>(record: T, notice: Option<Notice>) -> (r: ReviewStep<T>)
    ensures
        r@ == answered(record, notice_view(notice)),
{
    match notice {
        Some(n) => ReviewStep::Notify(n, record),
        None => ReviewStep::Done(record),
    }
}

/// Goes on with a review at the time `now`: `row` is the first row that its
/// query answered with.
pub fn resume_at<T>(state: ReviewState<T>, row: Option<Row<T>>, now: String) -> (r: ReviewStep<T>)
    ensures
        r@ == review_next(state@, row, now@),
{
    match state {
        ReviewState::Authorship { input, id, caller } => match row {
            None => ReviewStep::Fail(AppError::NotFound),
            Some(row) => {
                let author_email = text_or_empty(row.fields.author_email);
                let author = text_or_empty(row.fields.author);
                if author_email.as_str().is_empty() && !author.as_str().is_empty() {
                    let q = Query::new(
                        "look up author email",
                        "SELECT VALUE email FROM user WHERE name = $name LIMIT 1".to_string(),
                    ).text("name", author);
                    ReviewStep::Ask(q, ReviewState::AuthorEmail { input, id, caller })
                } else {
                    with_author(input, id, caller, author_email, now)
                }
            },
        },
        ReviewState::AuthorEmail { input, id, caller } => {
            let author_email = match row {
                Some(row) => text_or_empty(row.fields.text),
                None => text_or_empty(None),
            };
            with_author(input, id, caller, author_email, now)
        },
        ReviewState::Record { input, id, caller, author_email, now } => match row {
            None => ReviewStep::Fail(AppError::NotFound),
            Some(row) => {
                let approval = same(input.decision.as_str(), "approve");
                let number = row.fields.document_number.clone();
                let notice = if !author_email.as_str().is_empty() && !is_person(
                    &caller,
                    author_email.as_str(),
                ) {
                    Some(
                        Notice {
                            recipient: author_email,
                            kind: if approval {
                                "approved".to_string()
                            } else {
                                "reviewed".to_string()
                            },
                            document: id.clone(),
                            document_number: text_or_empty(row.fields.document_number),
                            title: text_or_empty(row.fields.title),
                            actor: input.reviewer.clone(),
                            comment: input.comment,
                        },
                    )
                } else {
                    None
                };
                match number {
                    Some(number) if approval => {
                        let q = Query::new(
                            "supersede previous editions",
                            "UPDATE document SET status = 'Archived', updated_at = $updated, events = array::append(events ?? [], { kind: 'archived', actor: $actor, detail: 'Superseded by a newer approved edition', sections: [], at: $updated }) WHERE document_number = $num AND status = 'Approved' AND id != type::record('document', $id)".to_string(),
                        ).text("num", number).text("updated", now).text("id", id).text(
                            "actor",
                            input.reviewer,
                        );
                        ReviewStep::Ask(q, ReviewState::Supersede { record: row.record, notice })
                    },
                    _ => answer(row.record, notice),
                }
            },
        },
        ReviewState::Supersede { record, notice } => answer(record, notice),
    }
}

/// Goes on with a review now.
pub fn resume<T>(state: ReviewState<T>, row: Option<Row<T>>) -> (r: ReviewStep<T>)
    ensures
        exists|now: Seq<char>| is_utc(now) && r@ == #[trigger] review_next(state@, row, now),
{
    let now = now_rfc3339();
    let r = resume_at(state, row, now);
    proof {
        assert(r@ == review_next(state@, row, now@));
    }
    r
}

/// Authorship is known before anything is recorded: a review that is not refused
/// looks it up first, and records nothing until the author's email is settled.
pub proof fn authorship_comes_first<T>(
    input: ReviewInputView,
    id: Seq<char>,
    caller: Option<Seq<char>>,
    row: Option<Row<T>>,
    now: Seq<char>,
)
    ensures
        review_first::<T>(input, id, caller) matches ReviewStepView::Ask(q, state) ==> {
            &&& q == authorship_query(id)
            &&& state == ReviewStateView::<T>::Authorship { input, id, caller }
        },
        review_next(
            ReviewStateView::Authorship { input, id, caller },
            row,
            now,
        ) matches ReviewStepView::Ask(q, state) ==> {
            ||| q == author_email_query(or_empty(row->0.fields.author)) && state is AuthorEmail
            ||| q == record_query(id, input, now) && state == (ReviewStateView::<T>::Record {
                input,
                id,
                caller,
                author_email: or_empty(row->0.fields.author_email),
                now,
            })
        },
{
}

/// Nobody approves their own document: an approval by the person whose email
/// the document was stored with is refused, and nothing is recorded.
pub proof fn own_document_is_not_approved<T>(
    input: ReviewInputView,
    id: Seq<char>,
    caller: Seq<char>,
    row: Row<T>,
    now: Seq<char>,
)
    requires
        is_approval(input),
        caller.len() > 0,
        or_empty(row.fields.author_email) == caller,
    ensures
        review_next(
            ReviewStateView::Authorship { input, id, caller: Some(caller) },
            Some(row),
            now,
        ) == ReviewStepView::<T>::Fail(
            ErrorView::Forbidden(
                "you cannot approve your own document — another editor must approve it"@,
            ),
        ),
{
}

/// The same holds for a document that was stored without its author's email:
/// an approval by the person that the author's name leads to is refused.
pub proof fn own_older_document_is_not_approved<T>(
    input: ReviewInputView,
    id: Seq<char>,
    caller: Seq<char>,
    document: Row<T>,
    person: Row<T>,
    now: Seq<char>,
    later: Seq<char>,
)
    requires
        is_approval(input),
        caller.len() > 0,
        or_empty(document.fields.author_email).len() == 0,
        or_empty(document.fields.author).len() > 0,
        or_empty(person.fields.text) == caller,
    ensures
        review_next(
            ReviewStateView::Authorship { input, id, caller: Some(caller) },
            Some(document),
            now,
        ) matches ReviewStepView::Ask(q, state) && {
            &&& q == author_email_query(or_empty(document.fields.author))
            &&& review_next(state, Some(person), later) == ReviewStepView::<T>::Fail(
                ErrorView::Forbidden(
                    "you cannot approve your own document — another editor must approve it"@,
                ),
            )
        },
{
}

/// A comment-review records itself and nothing else: neither status nor
/// approvals are written, and no other document is touched.
pub proof fn review_keeps_status<T>(
    input: ReviewInputView,
    id: Seq<char>,
    caller: Option<Seq<char>>,
    author_email: Seq<char>,
    at: Seq<char>,
    row: Option<Row<T>>,
    now: Seq<char>,
)
    requires
        !is_approval(input),
    ensures
        status_clause(is_approval(input)).len() == 0,
        approver_clause(is_approval(input)).len() == 0,
        !(review_next(
            ReviewStateView::Record { input, id, caller, author_email, now: at },
            row,
            now,
        ) is Ask),
{
    reveal_strlit("");
}

proof fn lemma_each_once(people: Seq<Seq<char>>)
    ensures
        each_once(people).no_duplicates(),
        forall|p: Seq<char>| each_once(people).contains(p) <==> #[trigger] people.contains(p),
        people.no_duplicates() ==> each_once(people) == people,
    decreases people.len(),
{
    if people.len() > 0 {
        let front = people.drop_last();
        let last = people.last();
        let kept = each_once(front);
        lemma_each_once(front);
        let all = each_once(people);
        assert(people =~= front.push(last));
        assert forall|p: Seq<char>| all.contains(p) <==> #[trigger] people.contains(p) by {
            if people.contains(p) {
                let i = choose|i: int| 0 <= i < people.len() && people[i] == p;
                if i < front.len() {
                    assert(front[i] == p);
                    assert(front.contains(p));
                    let k = choose|k: int| 0 <= k < kept.len() && kept[k] == p;
                    assert(all[k] == p);
                } else if kept.contains(last) {
                    assert(all.contains(p));
                } else {
                    assert(all[kept.len() as int] == p);
                }
            }
            if all.contains(p) {
                let k = choose|k: int| 0 <= k < all.len() && all[k] == p;
                if k < kept.len() {
                    assert(kept[k] == p);
                    assert(kept.contains(p));
                    assert(front.contains(p));
                    let i = choose|i: int| 0 <= i < front.len() && front[i] == p;
                    assert(people[i] == p);
                } else {
                    assert(people[front.len() as int] == p);
                }
            }
        }
        if people.no_duplicates() {
            assert(front.no_duplicates());
            if kept.contains(last) {
                assert(front.contains(last));
                let i = choose|i: int| 0 <= i < front.len() && front[i] == last;
                assert(people[i] == people[front.len() as int]);
            }
        }
    }
}

/// Each person stands among the approvals once, those who approved before and the
/// one who approves now are there and nobody else, and a second approval by the
/// same person changes nothing.
pub proof fn approving_twice_changes_nothing(approved: Seq<Seq<char>>, actor: Seq<char>)
    ensures
        approvals_after(approved, actor).no_duplicates(),
        forall|p: Seq<char>| #[trigger]
            approvals_after(approved, actor).contains(p) <==> approved.contains(p) || p == actor,
        approvals_after(approvals_after(approved, actor), actor) == approvals_after(
            approved,
            actor,
        ),
{
    let with = approved.push(actor);
    let once = approvals_after(approved, actor);
    lemma_each_once(with);
    assert forall|p: Seq<char>| #[trigger] once.contains(p) <==> approved.contains(p) || p
        == actor by {
        if with.contains(p) {
            let i = choose|i: int| 0 <= i < with.len() && with[i] == p;
            if i < approved.len() {
                assert(approved[i] == p);
            }
        }
        if approved.contains(p) {
            let i = choose|i: int| 0 <= i < approved.len() && approved[i] == p;
            assert(with[i] == p);
        }
        assert(with[approved.len() as int] == actor);
    }
    lemma_each_once(once);
    assert(once.push(actor).drop_last() =~= once);
    assert(once.contains(actor));
}

/// Approving again asks the same of the database: the same update of the same
/// document by the same person, at another time.
pub proof fn second_approval_asks_the_same(
    id: Seq<char>,
    input: ReviewInputView,
    now: Seq<char>,
    later: Seq<char>,
)
    requires
        is_approval(input),
    ensures
        record_query(id, input, now).sql == record_query(id, input, later).sql,
        approver_clause(true)
            == "approved_by = array::distinct(array::append(approved_by ?? [], $actor)),"@,
        ({
            let first = record_query(id, input, now).binds;
            let second = record_query(id, input, later).binds;
            &&& first[0] == second[0]
            &&& first[2] == second[2]
            &&& first[2].name == "actor"@
            &&& first[2].value == ParamView::Text(input.reviewer)
        }),
{
}

/// An approval that was recorded on a numbered document archives the other
/// approved documents of that number before it is answered, and not itself.
pub proof fn approval_supersedes<T>(
    input: ReviewInputView,
    id: Seq<char>,
    caller: Option<Seq<char>>,
    author_email: Seq<char>,
    at: Seq<char>,
    row: Row<T>,
    now: Seq<char>,
)
    requires
        is_approval(input),
        row.fields.document_number is Some,
    ensures
        review_next(
            ReviewStateView::Record { input, id, caller, author_email, now: at },
            Some(row),
            now,
        ) matches ReviewStepView::Ask(q, state) && {
            &&& q == supersede_query(or_empty(row.fields.document_number), at, id, input.reviewer)
            &&& state is Supersede
        },
{
}

/// The author is told of a recorded review exactly where their email is known
/// and they are not the one who reviewed.
pub proof fn author_is_told<T>(
    input: ReviewInputView,
    id: Seq<char>,
    caller: Option<Seq<char>>,
    author_email: Seq<char>,
    at: Seq<char>,
    row: Row<T>,
    after: Option<Row<T>>,
    now: Seq<char>,
)
    ensures
        ({
            let first = review_next(
                ReviewStateView::Record { input, id, caller, author_email, now: at },
                Some(row),
                now,
            );
            let last = match first {
                ReviewStepView::Ask(_, state) => review_next(state, after, now),
                _ => first,
            };
            if author_email.len() > 0 && caller != Some(author_email) {
                last matches ReviewStepView::Notify(n, record) && n.recipient == author_email
                    && n.kind == event_kind(input) && n.document == id && record == row.record
            } else {
                last == ReviewStepView::Done(row.record)
            }
        }),
{
}

/// How many queries may follow at most.
pub open spec fn queries_left<T>(state: ReviewStateView<T>) -> nat {
    match state {
        ReviewStateView::Authorship { .. } => 3,
        ReviewStateView::AuthorEmail { .. } => 2,
        ReviewStateView::Record { .. } => 1,
        ReviewStateView::Supersede { .. } => 0,
    }
}

/// A review comes to an end: each step leaves fewer queries to follow.
pub proof fn review_ends<T>(state: ReviewStateView<T>, row: Option<Row<T>>, now: Seq<char>)
    ensures
        review_next(state, row, now) matches ReviewStepView::Ask(_, next) ==> queries_left(next)
            < queries_left(state),
{
}

// ---------------------------------------------------------------------------
// Laws
// ---------------------------------------------------------------------------

/// The approval of a numbered document archives every other approved document of
/// its number and touches no other one: the update sets the status to Archived,
/// the time and an entry in the log, where the number is that of the document, the
/// status is Approved and the record is not the document itself.
pub proof fn approval_archives_the_others<T>(
    input: ReviewInputView,
    id: Seq<char>,
    caller: Option<Seq<char>>,
    author_email: Seq<char>,
    at: Seq<char>,
    record: T,
    fields: Fields,
    number: String,
    now: Seq<char>,
)
    requires
        input.decision == "approve"@,
        fields.document_number == Some(number),
    ensures
        review_next(
            ReviewStateView::Record { input, id, caller, author_email, now: at },
            Some(Row { record, fields }),
            now,
        ) matches ReviewStepView::Ask(q, state) && {
            &&& q.sql
                == "UPDATE document SET status = 'Archived', updated_at = $updated, events = array::append(events ?? [], { kind: 'archived', actor: $actor, detail: 'Superseded by a newer approved edition', sections: [], at: $updated }) WHERE document_number = $num AND status = 'Approved' AND id != type::record('document', $id)"@
            &&& q.binds.len() == 4
            &&& q.binds[0] == (BindView { name: "num"@, value: ParamView::Text(number@) })
            &&& q.binds[1] == (BindView { name: "updated"@, value: ParamView::Text(at) })
            &&& q.binds[2] == (BindView { name: "id"@, value: ParamView::Text(id) })
            &&& q.binds[3] == (BindView { name: "actor"@, value: ParamView::Text(input.reviewer) })
            &&& state is Supersede
            &&& state->Supersede_record == record
        },
{
}

/// What is written of a review: an entry with who reviewed, the decision, the
/// comment and the time, and an entry in the activity log.
pub open spec fn written_as(
    q: QueryView,
    sql: Seq<char>,
    kind: Seq<char>,
    id: Seq<char>,
    input: ReviewInputView,
    now: Seq<char>,
) -> bool {
    &&& q.sql == sql
    &&& q.binds.len() == 6
    &&& q.binds[0] == (BindView { name: "id"@, value: ParamView::Text(id) })
    &&& q.binds[1] == (BindView { name: "updated"@, value: ParamView::Text(now) })
    &&& q.binds[2] == (BindView { name: "actor"@, value: ParamView::Text(input.reviewer) })
    &&& q.binds[3] == (BindView { name: "comment"@, value: ParamView::Text(input.comment) })
    &&& q.binds[4] == (BindView { name: "ev_kind"@, value: ParamView::Text(kind) })
    &&& q.binds[5].name == "review"@
    &&& q.binds[5].value matches ParamView::Review(entry) && {
        &&& entry.reviewer == input.reviewer
        &&& entry.decision == input.decision
        &&& entry.comment == input.comment
        &&& entry.at == now
    }
}

/// An approval is recorded by a query that sets the status to Approved and adds
/// who approved, once; a review by one that does neither. Both log what happened
/// and when, and both are asked only of someone else's document or for a review.
pub proof fn decision_is_recorded<T>(
    input: ReviewInputView,
    id: Seq<char>,
    caller: Option<Seq<char>>,
    row: Row<T>,
    now: Seq<char>,
)
    requires
        or_empty(row.fields.author_email).len() > 0 || or_empty(row.fields.author).len() == 0,
        input.decision == "approve"@ ==> caller != Some(or_empty(row.fields.author_email)),
    ensures
        review_next(
            ReviewStateView::Authorship { input, id, caller },
            Some(row),
            now,
        ) matches ReviewStepView::Ask(q, state) && {
            &&& input.decision == "approve"@ ==> written_as(
                q,
                "UPDATE type::record('document', $id) SET "@ + "status = 'Approved', "@
                    + "updated_at = $updated, "@
                    + "approved_by = array::distinct(array::append(approved_by ?? [], $actor)),"@
                    + " reviews = array::append(reviews ?? [], $review), events = array::append(events ?? [], { kind: $ev_kind, actor: $actor, detail: $comment, sections: [], at: $updated }) RETURN AFTER"@,
                "approved"@,
                id,
                input,
                now,
            )
            &&& input.decision != "approve"@ ==> written_as(
                q,
                "UPDATE type::record('document', $id) SET "@ + ""@ + "updated_at = $updated, "@
                    + ""@
                    + " reviews = array::append(reviews ?? [], $review), events = array::append(events ?? [], { kind: $ev_kind, actor: $actor, detail: $comment, sections: [], at: $updated }) RETURN AFTER"@,
                "reviewed"@,
                id,
                input,
                now,
            )
            &&& state == (ReviewStateView::<T>::Record {
                input,
                id,
                caller,
                author_email: or_empty(row.fields.author_email),
                now,
            })
        },
{
}

/// Where the document gives no email of its author, the one that the author's
/// name is registered with is used in its place.
pub proof fn registered_email_stands_in<T>(
    input: ReviewInputView,
    id: Seq<char>,
    caller: Option<Seq<char>>,
    document: Row<T>,
    person: Option<Row<T>>,
    same_person: Row<T>,
    now: Seq<char>,
    later: Seq<char>,
)
    requires
        or_empty(document.fields.author_email).len() == 0,
        or_empty(document.fields.author).len() > 0,
        or_empty(same_person.fields.author_email) == (match person {
            Some(row) => or_empty(row.fields.text),
            None => Seq::<char>::empty(),
        }),
        or_empty(same_person.fields.author_email).len() > 0 || or_empty(
            same_person.fields.author,
        ).len() == 0,
    ensures
        review_next(
            ReviewStateView::Authorship { input, id, caller },
            Some(document),
            now,
        ) matches ReviewStepView::Ask(q, state) && {
            &&& q.sql == "SELECT VALUE email FROM user WHERE name = $name LIMIT 1"@
            &&& q.binds.len() == 1
            &&& q.binds[0] == (BindView {
                name: "name"@,
                value: ParamView::Text(or_empty(document.fields.author)),
            })
            &&& review_next(state, person, later) == review_next(
                ReviewStateView::Authorship { input, id, caller },
                Some(same_person),
                later,
            )
        },
{
}

/// A review begins with looking up who wrote the document. It needs someone who
/// reviews and one of the two decisions.
pub proof fn review_begins_with_the_author<T>(
    input: ReviewInputView,
    id: Seq<char>,
    caller: Option<Seq<char>>,
)
    ensures
        is_blank(input.reviewer) ==> review_first::<T>(input, id, caller) == ReviewStepView::<
            T,
        >::Fail(ErrorView::BadRequest("reviewing user is required"@)),
        !is_blank(input.reviewer) && input.decision != "approve"@ && input.decision != "review"@
            ==> review_first::<T>(input, id, caller) == ReviewStepView::<T>::Fail(
            ErrorView::BadRequest("invalid decision: "@ + input.decision),
        ),
        !is_blank(input.reviewer) && (input.decision == "approve"@ || input.decision == "review"@)
            ==> (review_first::<T>(input, id, caller) matches ReviewStepView::Ask(q, state) && {
            &&& q.sql == "SELECT author, author_email FROM type::record('document', $id)"@
            &&& q.binds.len() == 1
            &&& q.binds[0] == (BindView { name: "id"@, value: ParamView::Text(id) })
            &&& state == (ReviewStateView::<T>::Authorship { input, id, caller })
        }),
{
}

/// A document that is not there is not reviewed.
pub proof fn missing_document_is_not_reviewed<T>(state: ReviewStateView<T>, now: Seq<char>)
    requires
        state is Authorship || state is Record,
    ensures
        review_next(state, None, now) == ReviewStepView::<T>::Fail(ErrorView::NotFound),
{
}

/// The author is told of a review in full: on which document, by whom, how it was
/// decided and with what comment.
pub proof fn notice_tells_all<T>(
    input: ReviewInputView,
    id: Seq<char>,
    caller: Option<Seq<char>>,
    author_email: Seq<char>,
    at: Seq<char>,
    row: Row<T>,
    after: Option<Row<T>>,
    now: Seq<char>,
)
    requires
        author_email.len() > 0,
        caller != Some(author_email),
    ensures
        ({
            let first = review_next(
                ReviewStateView::Record { input, id, caller, author_email, now: at },
                Some(row),
                now,
            );
            let last = match first {
                ReviewStepView::Ask(_, state) => review_next(state, after, now),
                _ => first,
            };
            &&& first is Ask <==> input.decision == "approve"@ && row.fields.document_number is Some
            &&& last matches ReviewStepView::Notify(n, record) && {
                &&& record == row.record
                &&& n.recipient == author_email
                &&& input.decision == "approve"@ ==> n.kind == "approved"@
                &&& input.decision != "approve"@ ==> n.kind == "reviewed"@
                &&& n.document == id
                &&& n.document_number == or_empty(row.fields.document_number)
                &&& n.title == or_empty(row.fields.title)
                &&& n.actor == input.reviewer
                &&& n.comment == input.comment
            }
        }),
{
}

/// The queries of a review go by these names in the log.
pub proof fn review_queries_are_named(
    id: Seq<char>,
    name: Seq<char>,
    input: ReviewInputView,
    number: Seq<char>,
    now: Seq<char>,
)
    ensures
        authorship_query(id).op == "load document authorship"@,
        author_email_query(name).op == "look up author email"@,
        record_query(id, input, now).op == "record review"@,
        supersede_query(number, now, id, name).op == "supersede previous editions"@,
{
}

} // verus!
