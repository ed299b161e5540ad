use qims_backend::database::documents::create::{create, create_at};
use qims_backend::database::documents::history::{
    history, merged, number_resolved, LoggedDocument, LoggedEvent,
};
use qims_backend::database::documents::model::{
    validate_enums, CreateDocument, Event, UpdateDocument,
};
use qims_backend::database::documents::original::{download, original};
use qims_backend::database::documents::submit::{submit, submit_at, SubmitInput};
use qims_backend::database::documents::{found, get, init, list};
use qims_backend::convert::save_original_at;
use qims_backend::database::query::{Fields, Param, Query, Row};
use qims_backend::error::AppError;

fn fields() -> Fields {
    Fields {
        text: None,
        status: None,
        author: None,
        author_email: None,
        document_number: None,
        title: None,
        source_file: None,
        source_name: None,
        source_mime: None,
        edition: None,
    }
}

fn row(fields: Fields) -> Option<Row<u8>> {
    Some(Row { record: 7, fields })
}

fn text<'a>(q: &'a Query, name: &str) -> &'a str {
    for b in &q.binds {
        if b.name == name {
            match &b.value {
                Param::Text(s) => return s.as_str(),
                _ => unreachable!(),
            }
        }
    }
    panic!("not bound: {name}")
}

fn document() -> CreateDocument {
    CreateDocument {
        title: "Sampling".to_string(),
        kind: "document".to_string(),
        body: "<p/>".to_string(),
        date: "2024-05-01".to_string(),
        author: "Ann".to_string(),
        author_email: "forged@x".to_string(),
        status: "Approved".to_string(),
        approved_by: vec!["Eve".to_string()],
        document_number: "Q-1".to_string(),
        document_type: "Policy".to_string(),
        department: "Quality".to_string(),
        edition: 1,
        page_setup: String::new(),
        source_file: String::new(),
        source_name: String::new(),
        source_mime: String::new(),
        created_at: "forged".to_string(),
        updated_at: "forged".to_string(),
        events: Vec::new(),
    }
}

fn bad_request(r: Result<(), AppError>) -> String {
    match r {
        Err(AppError::BadRequest(m)) => m,
        _ => unreachable!(),
    }
}

#[test]
fn enumerated_fields_are_validated() {
    for kind in ["document", "spreadsheet"] {
        for ty in ["Policy", "Method", "Form", "Work Instruction"] {
            for department in ["Quality", "Chemistry", "Microbiology"] {
                assert!(validate_enums(kind, ty, department).is_ok());
            }
        }
    }
    assert_eq!(bad_request(validate_enums("sheet", "x", "y")), "invalid kind: sheet");
    assert_eq!(bad_request(validate_enums("document", "policy", "y")), "invalid document_type: policy");
    assert_eq!(bad_request(validate_enums("document", "Form", "")), "invalid department: ");
}

#[test]
fn new_documents_are_validated() {
    assert!(document().validate().is_ok());
    let mut d = document();
    d.title = " \t".to_string();
    d.author = String::new();
    assert_eq!(bad_request(d.validate()), "title is required");
    let mut d = document();
    d.author = "\u{a0}".to_string();
    assert_eq!(bad_request(d.validate()), "author is required");
    let mut d = document();
    d.edition = 0;
    assert_eq!(bad_request(d.validate()), "edition must be at least 1");
    let mut d = document();
    d.department = "Physics".to_string();
    assert_eq!(bad_request(d.validate()), "invalid department: Physics");
}

#[test]
fn edits_are_validated() {
    let edit = |title: &str, edition: u32, kind: &str| UpdateDocument {
        title: title.to_string(),
        kind: kind.to_string(),
        body: String::new(),
        date: String::new(),
        document_number: String::new(),
        document_type: "Form".to_string(),
        department: "Chemistry".to_string(),
        edition,
        page_setup: String::new(),
        updated_at: String::new(),
    };
    assert!(edit("T", 1, "spreadsheet").validate().is_ok());
    assert_eq!(bad_request(edit("", 0, "x").validate()), "title is required");
    assert_eq!(bad_request(edit("T", 0, "x").validate()), "edition must be at least 1");
    assert_eq!(bad_request(edit("T", 2, "x").validate()), "invalid kind: x");
}

#[test]
fn a_new_document_is_a_draft_of_the_caller() {
    let q = create_at(document(), Some("ann@x".to_string()), "T".to_string()).expect("valid");
    assert_eq!(q.op, "create document");
    assert_eq!(q.sql, "CREATE document CONTENT $data");
    assert_eq!(q.binds.len(), 1);
    assert_eq!(q.binds[0].name, "data");
    match &q.binds[0].value {
        Param::Document(d) => {
            assert_eq!(d.author_email, "ann@x");
            assert_eq!(d.status, "Draft");
            assert!(d.approved_by.is_empty());
            assert_eq!(d.created_at, "T");
            assert_eq!(d.updated_at, "T");
            assert_eq!(d.title, "Sampling");
            assert_eq!(d.document_number, "Q-1");
            assert_eq!(d.events.len(), 1);
            let e: &Event = &d.events[0];
            assert_eq!((e.kind.as_str(), e.actor.as_str(), e.at.as_str()), ("created", "Ann", "T"));
            assert!(e.detail.is_empty() && e.sections.is_empty());
        }
        _ => unreachable!(),
    }
}

#[test]
fn a_new_document_is_stored_at_the_current_time_in_utc() {
    let q = create(document(), None).expect("valid");
    match &q.binds[0].value {
        Param::Document(d) => {
            assert!(d.author_email.is_empty());
            assert!(d.created_at.ends_with("+00:00"));
            let shape: String =
                d.created_at.chars().take(19).map(|c| if c.is_ascii_digit() { '0' } else { c }).collect();
            assert_eq!(shape, "0000-00-00T00:00:00");
            assert!(d.created_at.as_str() > "2020-01-01T00:00:00+00:00");
            assert_eq!(d.created_at, d.updated_at);
            assert_eq!(d.events[0].at, d.created_at);
        }
        _ => unreachable!(),
    }
}

#[test]
fn an_invalid_document_is_not_created() {
    let mut d = document();
    d.title = String::new();
    match create(d, None) {
        Err(AppError::BadRequest(m)) => assert_eq!(m, "title is required"),
        _ => unreachable!(),
    }
}

#[test]
fn documents_are_listed_without_their_bodies() {
    assert_eq!(init().sql, "DEFINE TABLE IF NOT EXISTS document SCHEMALESS");
    assert_eq!(list().sql, "SELECT * OMIT body, page_setup FROM document ORDER BY date DESC");
    let q = get("abc".to_string());
    assert_eq!(q.sql, "SELECT * FROM type::record('document', $id)");
    assert_eq!(text(&q, "id"), "abc");
    assert_eq!(found(row(fields())).ok(), Some(7));
    assert!(matches!(found::<u8>(None), Err(AppError::NotFound)));
}

#[test]
fn submitting_moves_a_document_under_review() {
    let q = submit_at("d1".to_string(), Some(SubmitInput { actor: "Ann".to_string() }), "T".to_string());
    assert_eq!(
        q.sql,
        "UPDATE type::record('document', $id) SET status = 'Under Review', updated_at = $updated, events = array::append(events ?? [], { kind: 'submitted', actor: $actor, detail: '', sections: [], at: $updated }) RETURN AFTER"
    );
    assert_eq!((text(&q, "id"), text(&q, "updated"), text(&q, "actor")), ("d1", "T", "Ann"));
    let q = submit("d1".to_string(), None);
    assert_eq!(text(&q, "actor"), "");
    assert!(text(&q, "updated").ends_with("+00:00"));
}

#[test]
fn the_history_is_that_of_the_number() {
    let q = history("d1".to_string());
    assert_eq!(q.sql, "SELECT document_number FROM type::record('document', $id)");
    let numbered = Fields { document_number: Some("Q-1".to_string()), ..fields() };
    let (number, q) = number_resolved("d1".to_string(), row(numbered)).ok().expect("found");
    assert_eq!(number, "Q-1");
    assert_eq!(q.op, "collect number history");
    assert_eq!(text(&q, "num"), "Q-1");
    assert!(matches!(number_resolved::<u8>("d1".to_string(), None), Err(AppError::NotFound)));
}

#[test]
fn an_empty_number_merges_no_unrelated_documents() {
    for number in [None, Some("  ".to_string())] {
        let f = Fields { document_number: number, ..fields() };
        let (_, q) = number_resolved("d1".to_string(), row(f)).ok().expect("found");
        assert_eq!(
            q.sql,
            "SELECT edition, created_at, updated_at, events FROM type::record('document', $id)"
        );
        assert_eq!(text(&q, "id"), "d1");
        assert_eq!(q.binds.len(), 1);
    }
}

fn logged(
    edition: Option<u64>,
    created: Option<&str>,
    updated: Option<&str>,
    events: &[(Option<&str>, u8)],
) -> LoggedDocument<u8> {
    LoggedDocument {
        edition,
        created_at: created.map(|s| s.to_string()),
        updated_at: updated.map(|s| s.to_string()),
        events: events
            .iter()
            .map(|(at, event)| LoggedEvent { at: at.map(|s| s.to_string()), event: *event })
            .collect(),
    }
}

#[test]
fn logs_are_merged_chronologically() {
    let docs = vec![
        logged(Some(2), Some("b"), Some("f"), &[(Some("b"), 1), (Some("e"), 2)]),
        logged(None, None, None, &[(None, 3), (Some("b"), 4)]),
        logged(Some(1), Some("a"), Some("c"), &[(Some("a"), 5), (Some("c"), 6)]),
    ];
    let h = merged("Q-1".to_string(), docs);
    assert_eq!(h.document_number, "Q-1");
    assert_eq!(h.created_at, Some("a".to_string()));
    assert_eq!(h.updated_at, Some("f".to_string()));
    let entries: Vec<(u64, u8)> = h.events.into_iter().map(|e| (e.edition, e.event)).collect();
    assert_eq!(entries, vec![(0, 3), (1, 5), (2, 1), (0, 4), (1, 6), (2, 2)]);
}

#[test]
fn without_documents_there_is_no_history() {
    let h = merged::<u8>(String::new(), Vec::new());
    assert!(h.created_at.is_none() && h.updated_at.is_none() && h.events.is_empty());
}

fn source(file: &str, name: &str, mime: &str) -> Fields {
    Fields {
        source_file: Some(file.to_string()),
        source_name: Some(name.to_string()),
        source_mime: Some(mime.to_string()),
        ..fields()
    }
}

#[test]
fn originals_are_downloaded_under_their_own_name() {
    assert_eq!(text(&original("d1".to_string()), "id"), "d1");
    let d = download(row(source("1-a.pdf", "a \"b\"\r\n.pdf", "application/pdf"))).ok().expect("file");
    assert_eq!(d.file, "1-a.pdf");
    assert_eq!(d.mime, "application/pdf");
    assert_eq!(d.disposition, "attachment; filename=\"a _b___.pdf\"");
    let d = download(row(source("1-a.pdf", "", ""))).ok().expect("file");
    assert_eq!(d.mime, "application/octet-stream");
    assert_eq!(d.disposition, "attachment; filename=\"1-a.pdf\"");
}

#[test]
fn no_download_leads_out_of_the_directory() {
    assert!(matches!(download::<u8>(None), Err(AppError::NotFound)));
    assert!(matches!(download(row(fields())), Err(AppError::NotFound)));
    for file in ["../x", "a/b", "a\\b", "..", "a..b"] {
        match download(row(source(file, "", ""))) {
            Err(AppError::BadRequest(m)) => assert_eq!(m, "invalid source file"),
            _ => unreachable!(),
        }
    }
}

#[test]
fn what_was_saved_is_downloadable() {
    let saved = save_original_at("My/Report v1.2.docx", "docx", 3, Some(42));
    let d = download(row(source(&saved.file, &saved.name, &saved.mime))).ok().expect("file");
    assert_eq!(d.file, "42-My_Report_v1.2.docx");
    assert_eq!(d.disposition, "attachment; filename=\"My/Report v1.2.docx\"");
    for name in ["a..docx", "..", "../../etc/x.pdf", "....rtf", ".", "\\..\\a.doc"] {
        let saved = save_original_at(name, "docx", 3, Some(42));
        let d = download(row(source(&saved.file, &saved.name, &saved.mime))).ok().expect("file");
        assert_eq!(d.file, saved.file);
    }
}
