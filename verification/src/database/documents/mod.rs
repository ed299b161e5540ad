//! The `document` resource: model, validation, and operations.

pub mod create;
pub mod history;
pub mod model;
pub mod original;
pub mod review;
pub mod submit;
pub mod update;

use vstd::prelude::*;

use crate::database::query::{query, Query, Row};
use crate::error::{AppError, ErrorView};

verus! {

/// The query that ensures that the `document` table exists, so that reads
/// succeed on a fresh database.
pub fn init() -> (r: Query)
    ensures
        r@ == query(
            "define document table"@,
            "DEFINE TABLE IF NOT EXISTS document SCHEMALESS"@,
        ),
{
    Query::new(
        "define document table",
        "DEFINE TABLE IF NOT EXISTS document SCHEMALESS".to_string(),
    )
}

/// The query for all documents, newest first. Metadata only: `body` and
/// `page_setup` can be megabytes, and the listing renders a table.
pub fn list() -> (r: Query)
    ensures
        r@ == query(
            "list documents"@,
            "SELECT * OMIT body, page_setup FROM document ORDER BY date DESC"@,
        ),
{
    Query::new(
        "list documents",
        "SELECT * OMIT body, page_setup FROM document ORDER BY date DESC".to_string(),
    )
}

/// The query for the document `id`.
pub fn get(id: String) -> (r: Query)
    ensures
        r@ == query("get document"@, "SELECT * FROM type::record('document', $id)"@).text(
            "id"@,
            id@,
        ),
{
    Query::new("get document", "SELECT * FROM type::record('document', $id)".to_string()).text(
        "id",
        id,
    )
}

/// The record that a query for one document answered with, if it did.
pub fn found<T>(row: Option<Row<T>>) -> (r: Result<T, AppError>)
    ensures
        match row {
            Some(row) => r == Ok::<T, AppError>(row.record),
            None => r matches Err(e) && e@ == ErrorView::NotFound,
        },
{
    match row {
        Some(row) => Ok(row.record),
        None => Err(AppError::NotFound),
    }
}

} // verus!
