//! The document data model and its validation rules.

use vstd::prelude::*;

use crate::error::{AppError, ErrorView};
use crate::text::{blank, is_blank, same};

verus! {

/// A document type (the kind of document).
pub open spec fn is_allowed_type(s: Seq<char>) -> bool {
    s == "Policy"@ || s == "Method"@ || s == "Form"@ || s == "Work Instruction"@
}

/// A department (the discipline that owns the document).
pub open spec fn is_allowed_department(s: Seq<char>) -> bool {
    s == "Quality"@ || s == "Chemistry"@ || s == "Microbiology"@
}

/// An editor/content kind: a rich-text document or a spreadsheet.
pub open spec fn is_allowed_kind(s: Seq<char>) -> bool {
    s == "document"@ || s == "spreadsheet"@
}

/// A single entry in a document's activity log (its "commit history").
///
/// `kind` is one of: `created`, `edited`, `submitted`, `reviewed`, `approved`,
/// `archived`. `detail` carries the reason (edits) or comment (reviews);
/// `sections` lists what an edit touched.
#[derive(Debug)]
pub struct Event {
    pub kind: String,
    pub actor: String,
    pub detail: String,
    pub sections: Vec<String>,
    pub at: String,
}

/// What an [`Event`] holds.
pub struct EventView {
    pub kind: Seq<char>,
    pub actor: Seq<char>,
    pub detail: Seq<char>,
    pub sections: Seq<Seq<char>>,
    pub at: Seq<char>,
}

impl View for Event {
    type V = EventView;

    open spec fn view(&self) -> EventView {
        EventView {
            kind: self.kind@,
            actor: self.actor@,
            detail: self.detail@,
            sections: self.sections.deep_view(),
            at: self.at@,
        }
    }
}

/// What is wrong with the enumerated fields shared by create and update.
pub open spec fn enum_error(
    kind: Seq<char>,
    document_type: Seq<char>,
    department: Seq<char>,
) -> Option<ErrorView> {
    if !is_allowed_kind(kind) {
        Some(ErrorView::BadRequest("invalid kind: "@ + kind))
    } else if !is_allowed_type(document_type) {
        Some(ErrorView::BadRequest("invalid document_type: "@ + document_type))
    } else if !is_allowed_department(department) {
        Some(ErrorView::BadRequest("invalid department: "@ + department))
    } else {
        None
    }
}

/// A bad request with the message `what` followed by `value`.
pub(crate) fn bad_value(what: &str, value: &str) -> (r: AppError)
    ensures
        r@ == ErrorView::BadRequest(what@ + value@),
{
    let mut m = what.to_string();
    m.append(value);
    AppError::BadRequest(m)
}

/// Validate the enumerated fields shared by create and update.
pub fn validate_enums(kind: &str, document_type: &str, department: &str) -> (r: Result<
    (),
    AppError,
>)
    ensures
        match r {
            Ok(()) => enum_error(kind@, document_type@, department@) is None,
            Err(e) => enum_error(kind@, document_type@, department@) == Some(e@),
        },
{
    if !(same(kind, "document") || same(kind, "spreadsheet")) {
        return Err(bad_value("invalid kind: ", kind));
    }
    if !(same(document_type, "Policy") || same(document_type, "Method") || same(
        document_type,
        "Form",
    ) || same(document_type, "Work Instruction")) {
        return Err(bad_value("invalid document_type: ", document_type));
    }
    if !(same(department, "Quality") || same(department, "Chemistry") || same(
        department,
        "Microbiology",
    )) {
        return Err(bad_value("invalid department: ", department));
    }
    Ok(())
}

/// A document as it is created.
///
/// `author_email`, `status`, `approved_by`, the timestamps and the events are
/// server-controlled: a new document is always a Draft.
#[derive(Debug)]
pub struct CreateDocument {
    pub title: String,
    /// `document` or `spreadsheet`: determines how `body` is interpreted.
    pub kind: String,
    /// For a `document`: Tiptap HTML. For a `spreadsheet`: JSON-encoded grid.
    pub body: String,
    /// Document date, ISO-8601 (`YYYY-MM-DD`) from the form.
    pub date: String,
    /// Auto-filled from the signed-in user.
    pub author: String,
    /// The author's account email, used to address notifications about this
    /// document.
    pub author_email: String,
    pub status: String,
    pub approved_by: Vec<String>,
    pub document_number: String,
    /// Policy / Method / Form / Work Instruction.
    pub document_type: String,
    /// Quality / Chemistry / Microbiology.
    pub department: String,
    /// Current edition (version) number, e.g. 12 for "ED12".
    pub edition: u32,
    /// JSON-encoded page geometry for imported documents ("" = defaults).
    pub page_setup: String,
    /// Original imported file: stored name ("" = not imported).
    pub source_file: String,
    /// The original file's name as the user uploaded it.
    pub source_name: String,
    /// The original file's MIME type (e.g. "application/pdf").
    pub source_mime: String,
    pub created_at: String,
    pub updated_at: String,
    /// Activity log, seeded with a `created` event.
    pub events: Vec<Event>,
}

/// What a [`CreateDocument`] holds.
pub struct CreateDocumentView {
    pub title: Seq<char>,
    pub kind: Seq<char>,
    pub body: Seq<char>,
    pub date: Seq<char>,
    pub author: Seq<char>,
    pub author_email: Seq<char>,
    pub status: Seq<char>,
    pub approved_by: Seq<Seq<char>>,
    pub document_number: Seq<char>,
    pub document_type: Seq<char>,
    pub department: Seq<char>,
    pub edition: u32,
    pub page_setup: Seq<char>,
    pub source_file: Seq<char>,
    pub source_name: Seq<char>,
    pub source_mime: Seq<char>,
    pub created_at: Seq<char>,
    pub updated_at: Seq<char>,
    pub events: Seq<EventView>,
}

impl View for CreateDocument {
    type V = CreateDocumentView;

    open spec fn view(&self) -> CreateDocumentView {
        CreateDocumentView {
            title: self.title@,
            kind: self.kind@,
            body: self.body@,
            date: self.date@,
            author: self.author@,
            author_email: self.author_email@,
            status: self.status@,
            approved_by: self.approved_by.deep_view(),
            document_number: self.document_number@,
            document_type: self.document_type@,
            department: self.department@,
            edition: self.edition,
            page_setup: self.page_setup@,
            source_file: self.source_file@,
            source_name: self.source_name@,
            source_mime: self.source_mime@,
            created_at: self.created_at@,
            updated_at: self.updated_at@,
            events: self.events@.map_values(|e: Event| e@),
        }
    }
}

/// What is wrong with a document that is to be created.
pub open spec fn create_error(d: CreateDocumentView) -> Option<ErrorView> {
    if is_blank(d.title) {
        Some(ErrorView::BadRequest("title is required"@))
    } else if is_blank(d.author) {
        Some(ErrorView::BadRequest("author is required"@))
    } else if d.edition < 1 {
        Some(ErrorView::BadRequest("edition must be at least 1"@))
    } else {
        enum_error(d.kind, d.document_type, d.department)
    }
}

impl CreateDocument {
    /// Whether the document can be created.
    pub fn validate(&self) -> (r: Result<(), AppError>)
        ensures
            match r {
                Ok(()) => create_error(self@) is None,
                Err(e) => create_error(self@) == Some(e@),
            },
    {
        if blank(self.title.as_str()) {
            return Err(AppError::BadRequest("title is required".to_string()));
        }
        if blank(self.author.as_str()) {
            return Err(AppError::BadRequest("author is required".to_string()));
        }
        if self.edition < 1 {
            return Err(AppError::BadRequest("edition must be at least 1".to_string()));
        }
        validate_enums(self.kind.as_str(), self.document_type.as_str(), self.department.as_str())
    }
}

/// Payload for editing an existing document. Only content and metadata fields
/// are editable: what is not here is preserved.
#[derive(Debug)]
pub struct UpdateDocument {
    pub title: String,
    pub kind: String,
    pub body: String,
    pub date: String,
    pub document_number: String,
    pub document_type: String,
    pub department: String,
    pub edition: u32,
    /// JSON-encoded page geometry for imported documents ("" = defaults).
    pub page_setup: String,
    pub updated_at: String,
}

/// What an [`UpdateDocument`] holds.
pub struct UpdateDocumentView {
    pub title: Seq<char>,
    pub kind: Seq<char>,
    pub body: Seq<char>,
    pub date: Seq<char>,
    pub document_number: Seq<char>,
    pub document_type: Seq<char>,
    pub department: Seq<char>,
    pub edition: u32,
    pub page_setup: Seq<char>,
    pub updated_at: Seq<char>,
}

impl View for UpdateDocument {
    type V = UpdateDocumentView;

    open spec fn view(&self) -> UpdateDocumentView {
        UpdateDocumentView {
            title: self.title@,
            kind: self.kind@,
            body: self.body@,
            date: self.date@,
            document_number: self.document_number@,
            document_type: self.document_type@,
            department: self.department@,
            edition: self.edition,
            page_setup: self.page_setup@,
            updated_at: self.updated_at@,
        }
    }
}

/// What is wrong with an edit.
pub open spec fn update_error(d: UpdateDocumentView) -> Option<ErrorView> {
    if is_blank(d.title) {
        Some(ErrorView::BadRequest("title is required"@))
    } else if d.edition < 1 {
        Some(ErrorView::BadRequest("edition must be at least 1"@))
    } else {
        enum_error(d.kind, d.document_type, d.department)
    }
}

impl UpdateDocument {
    /// Whether the edit can be applied.
    pub fn validate(&self) -> (r: Result<(), AppError>)
        ensures
            match r {
                Ok(()) => update_error(self@) is None,
                Err(e) => update_error(self@) == Some(e@),
            },
    {
        if blank(self.title.as_str()) {
            return Err(AppError::BadRequest("title is required".to_string()));
        }
        if self.edition < 1 {
            return Err(AppError::BadRequest("edition must be at least 1".to_string()));
        }
        validate_enums(self.kind.as_str(), self.document_type.as_str(), self.department.as_str())
    }
}

// ---------------------------------------------------------------------------
// Laws
// ---------------------------------------------------------------------------

/// The kinds, types and departments that there are.
pub proof fn known_values_are_listed(s: Seq<char>)
    ensures
        is_allowed_kind(s) <==> s == "document"@ || s == "spreadsheet"@,
        is_allowed_type(s) <==> s == "Policy"@ || s == "Method"@ || s == "Form"@ || s
            == "Work Instruction"@,
        is_allowed_department(s) <==> s == "Quality"@ || s == "Chemistry"@ || s
            == "Microbiology"@,
{
}

/// A document is valid exactly where its title is not blank, its edition is at
/// least one, and its kind, type and department are among those that there are;
/// a new one needs an author too. What is wrong first is what is told.
pub proof fn validity_is_by_field(d: CreateDocumentView, u: UpdateDocumentView)
    ensures
        create_error(d) is None <==> {
            &&& !is_blank(d.title)
            &&& !is_blank(d.author)
            &&& d.edition >= 1
            &&& is_allowed_kind(d.kind)
            &&& is_allowed_type(d.document_type)
            &&& is_allowed_department(d.department)
        },
        update_error(u) is None <==> {
            &&& !is_blank(u.title)
            &&& u.edition >= 1
            &&& is_allowed_kind(u.kind)
            &&& is_allowed_type(u.document_type)
            &&& is_allowed_department(u.department)
        },
        is_blank(d.title) ==> create_error(d) == Some(ErrorView::BadRequest("title is required"@)),
        !is_blank(d.title) && is_blank(d.author) ==> create_error(d) == Some(
            ErrorView::BadRequest("author is required"@),
        ),
        !is_blank(d.title) && !is_blank(d.author) && d.edition == 0 ==> create_error(d) == Some(
            ErrorView::BadRequest("edition must be at least 1"@),
        ),
        is_blank(u.title) ==> update_error(u) == Some(ErrorView::BadRequest("title is required"@)),
        !is_blank(u.title) && u.edition == 0 ==> update_error(u) == Some(
            ErrorView::BadRequest("edition must be at least 1"@),
        ),
        !is_blank(u.title) && u.edition > 0 ==> update_error(u) == enum_error(
            u.kind,
            u.document_type,
            u.department,
        ),
        !is_blank(d.title) && !is_blank(d.author) && d.edition > 0 ==> create_error(d)
            == enum_error(d.kind, d.document_type, d.department),
{
}

/// A value that there is not is told, whole, with the field that it was given for.
pub proof fn unknown_value_is_told(kind: Seq<char>, document_type: Seq<char>, department: Seq<char>)
    ensures
        !is_allowed_kind(kind) ==> enum_error(kind, document_type, department) == Some(
            ErrorView::BadRequest("invalid kind: "@ + kind),
        ),
        is_allowed_kind(kind) && !is_allowed_type(document_type) ==> enum_error(
            kind,
            document_type,
            department,
        ) == Some(ErrorView::BadRequest("invalid document_type: "@ + document_type)),
        is_allowed_kind(kind) && is_allowed_type(document_type) && !is_allowed_department(
            department,
        ) ==> enum_error(kind, document_type, department) == Some(
            ErrorView::BadRequest("invalid department: "@ + department),
        ),
{
}

} // verus!
