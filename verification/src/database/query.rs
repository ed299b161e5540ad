//! What is asked of the database, what it answers, and how an operation that
//! asks it more than once goes on.

use vstd::prelude::*;

use crate::database::documents::model::{CreateDocument, CreateDocumentView, UpdateDocument,
    UpdateDocumentView};
use crate::database::documents::review::{ReviewEntry, ReviewEntryView};
use crate::database::documents::update::{NewRevision, NewRevisionView};
use crate::database::notifications::{NewNotification, NewNotificationView};
use crate::error::{AppError, ErrorView};

verus! {

/// A value bound to a query.
#[derive(Debug)]
pub enum Param {
    Text(String),
    Texts(Vec<String>),
    Document(CreateDocument),
    Edit(UpdateDocument),
    Revision(NewRevision),
    Review(ReviewEntry),
    Notification(NewNotification),
}

/// What a [`Param`] holds.
pub enum ParamView {
    Text(Seq<char>),
    Texts(Seq<Seq<char>>),
    Document(CreateDocumentView),
    Edit(UpdateDocumentView),
    Revision(NewRevisionView),
    Review(ReviewEntryView),
    Notification(NewNotificationView),
}

impl View for Param {
    type V = ParamView;

    open spec fn view(&self) -> ParamView {
        match self {
            Param::Text(s) => ParamView::Text(s@),
            Param::Texts(v) => ParamView::Texts(v.deep_view()),
            Param::Document(d) => ParamView::Document(d@),
            Param::Edit(d) => ParamView::Edit(d@),
            Param::Revision(d) => ParamView::Revision(d@),
            Param::Review(d) => ParamView::Review(d@),
            Param::Notification(n) => ParamView::Notification(n@),
        }
    }
}

/// A name in a query and the value that it stands for.
#[derive(Debug)]
pub struct Bind {
    pub name: &'static str,
    pub value: Param,
}

/// What a [`Bind`] holds.
pub struct BindView {
    pub name: Seq<char>,
    pub value: ParamView,
}

impl View for Bind {
    type V = BindView;

    open spec fn view(&self) -> BindView {
        BindView { name: self.name@, value: self.value@ }
    }
}

/// A query to the database.
#[derive(Debug)]
pub struct Query {
    /// What the query is for, as it is written in the log.
    pub op: &'static str,
    pub sql: String,
    pub binds: Vec<Bind>,
}

/// What a [`Query`] holds.
pub struct QueryView {
    pub op: Seq<char>,
    pub sql: Seq<char>,
    pub binds: Seq<BindView>,
}

impl View for Query {
    type V = QueryView;

    open spec fn view(&self) -> QueryView {
        QueryView {
            op: self.op@,
            sql: self.sql@,
            binds: self.binds@.map_values(|b: Bind| b@),
        }
    }
}

/// The query `sql` with nothing bound.
pub open spec fn query(op: Seq<char>, sql: Seq<char>) -> QueryView {
    QueryView { op, sql, binds: seq![] }
}

impl QueryView {
    /// The query with `name` bound to `value`.
    pub open spec fn bind(self, name: Seq<char>, value: ParamView) -> QueryView {
        QueryView { op: self.op, sql: self.sql, binds: self.binds.push(BindView { name, value }) }
    }

    /// The query with `name` bound to the text `value`.
    pub open spec fn text(self, name: Seq<char>, value: Seq<char>) -> QueryView {
        self.bind(name, ParamView::Text(value))
    }
}

impl Query {
    /// The query `sql` with nothing bound.
    pub fn new(op: &'static str, sql: String) -> (r: Query)
        ensures
            r@ == query(op@, sql@),
    {
        let r = Query { op, sql, binds: Vec::new() };
        assert(r@.binds =~= seq![]);
        r
    }

    /// The query with `name` bound to `value`.
    pub fn bind(self, name: &'static str, value: Param) -> (r: Query)
        ensures
            r@ == self@.bind(name@, value@),
    {
        let mut q = self;
        let b = Bind { name, value };
        q.binds.push(b);
        assert(q@.binds =~= self@.binds.push(b@));
        q
    }

    /// The query with `name` bound to the text `value`.
    pub fn text(self, name: &'static str, value: String) -> (r: Query)
        ensures
            r@ == self@.text(name@, value@),
    {
        self.bind(name, Param::Text(value))
    }
}

/// What the rules read of a row: fields that are missing or of another type
/// are `None`.
#[derive(Debug)]
pub struct Fields {
    /// The row itself, where it is a text.
    pub text: Option<String>,
    pub status: Option<String>,
    pub author: Option<String>,
    pub author_email: Option<String>,
    pub document_number: Option<String>,
    pub title: Option<String>,
    pub source_file: Option<String>,
    pub source_name: Option<String>,
    pub source_mime: Option<String>,
    pub edition: Option<u64>,
}

/// A row that the database answered with: the record as it is handed on to the
/// caller, and what the rules read of it.
#[derive(Debug)]
pub struct Row<T> {
    pub record: T,
    pub fields: Fields,
}

/// How an operation goes on.
#[derive(Debug)]
pub enum Step<S, T> {
    /// The query is run and its first row handed back together with the state.
    Ask(Query, S),
    /// The operation is answered.
    Done(T),
    /// The operation is refused.
    Fail(AppError),
}

/// What a [`Step`] holds.
pub enum StepView<S, T> {
    Ask(QueryView, S),
    Done(T),
    Fail(ErrorView),
}

impl<S: View, T> View for Step<S, T> {
    type V = StepView<S::V, T>;

    open spec fn view(&self) -> StepView<S::V, T> {
        match *self {
            Step::Ask(q, s) => StepView::Ask(q@, s@),
            Step::Done(t) => StepView::Done(t),
            Step::Fail(e) => StepView::Fail(e@),
        }
    }
}

/// A text field, empty where the row has none.
pub open spec fn or_empty(field: Option<String>) -> Seq<char> {
    match field {
        Some(s) => s@,
        None => seq![],
    }
}

/// A text field, empty where the row has none.
pub fn text_or_empty(field: Option<String>) -> (r: String)
    ensures
        r@ == or_empty(field),
{
    match field {
        Some(s) => s,
        None => {
            let s = String::new();
            assert(s@ =~= seq![]);
            s
        },
    }
}

/// The record that an operation answers with, where there is a row.
pub open spec fn record_or_not_found<S, T>(row: Option<Row<T>>) -> StepView<S, T> {
    match row {
        Some(row) => StepView::Done(row.record),
        None => StepView::Fail(ErrorView::NotFound),
    }
}

// ---------------------------------------------------------------------------
// Laws
// ---------------------------------------------------------------------------

/// Binding a value adds the name and the value behind those bound before, and
/// changes nothing else of the query.
pub proof fn binding_adds_one(q: QueryView, name: Seq<char>, value: ParamView, t: Seq<char>)
    ensures
        q.bind(name, value).op == q.op,
        q.bind(name, value).sql == q.sql,
        q.bind(name, value).binds.len() == q.binds.len() + 1,
        q.bind(name, value).binds.last() == (BindView { name, value }),
        forall|i: int|
            0 <= i < q.binds.len() ==> #[trigger] q.bind(name, value).binds[i] == q.binds[i],
        q.text(name, t) == q.bind(name, ParamView::Text(t)),
        query(name, t) == (QueryView { op: name, sql: t, binds: Seq::empty() }),
{
}

/// A text that is there is read as it is, and one that is missing as empty.
pub proof fn missing_text_is_empty(s: String)
    ensures
        or_empty(Some(s)) == s@,
        or_empty(None).len() == 0,
{
}

/// Where there is a row the operation is answered with its record, and else with
/// "not found".
pub proof fn missing_record_is_not_found<S, T>(row: Row<T>)
    ensures
        record_or_not_found::<S, T>(Some(row)) == StepView::<S, T>::Done(row.record),
        record_or_not_found::<S, T>(None) == StepView::<S, T>::Fail(ErrorView::NotFound),
{
}

} // verus!
