//! `GET /documents/{id}/original`: downloading the untouched file a document
//! was imported from.

use vstd::prelude::*;

use crate::convert::{is_segment, stored_name, stored_name_has_no_double_dots, stored_name_is_segment};
use crate::database::query::{or_empty, query, text_or_empty, BindView, ParamView, Query, QueryView,
    Row};
use crate::error::{AppError, ErrorView};
use crate::text::{chars_of, contains, find_is_first, holds, string_of};

verus! {

/// The query for the source of the document `id`.
pub open spec fn source_query(id: Seq<char>) -> QueryView {
    query(
        "load document source"@,
        "SELECT source_file, source_name, source_mime FROM type::record('document', $id)"@,
    ).text("id"@, id)
}

/// The query for the source of the document `id`.
pub fn original(id: String) -> (r: Query)
    ensures
        r@ == source_query(id@),
{
    Query::new(
        "load document source",
        "SELECT source_file, source_name, source_mime FROM type::record('document', $id)".to_string(),
    ).text("id", id)
}

/// The file that is sent.
#[derive(Debug)]
pub struct Download {
    /// The name that the file is stored under.
    pub file: String,
    /// Its `Content-Type`.
    pub mime: String,
    /// Its `Content-Disposition`.
    pub disposition: String,
}

/// A stored name that could lead out of the directory of originals. Stored
/// names are made by the server, but a value that has been through the database
/// is never trusted.
pub open spec fn leads_astray(file: Seq<char>) -> bool {
    contains(file, "/"@) || contains(file, "\\"@) || contains(file, ".."@)
}

/// `c` where it may stand inside a quoted file name, else an underscore.
pub open spec fn quotable(c: char) -> char {
    if c == '"' || c == '\r' || c == '\n' {
        '_'
    } else {
        c
    }
}

/// `name` as it stands inside the quotation marks of the header.
pub open spec fn quoted_name(name: Seq<char>) -> Seq<char> {
    name.map_values(|c: char| quotable(c))
}

/// The name that the file is downloaded under: the one it was uploaded under,
/// else the stored one.
pub open spec fn download_name<T>(row: Row<T>) -> Seq<char> {
    if or_empty(row.fields.source_name).len() == 0 {
        or_empty(row.fields.source_file)
    } else {
        or_empty(row.fields.source_name)
    }
}

/// The MIME type that the file is sent as.
pub open spec fn download_mime<T>(row: Row<T>) -> Seq<char> {
    if or_empty(row.fields.source_mime).len() == 0 {
        "application/octet-stream"@
    } else {
        or_empty(row.fields.source_mime)
    }
}

/// The header that names the file for the download.
pub open spec fn disposition(name: Seq<char>) -> Seq<char> {
    "attachment; filename=\""@ + quoted_name(name) + "\""@
}

/// What is wrong with a download.
pub open spec fn download_error<T>(row: Option<Row<T>>) -> Option<ErrorView> {
    match row {
        None => Some(ErrorView::NotFound),
        Some(row) => {
            let file = or_empty(row.fields.source_file);
            if file.len() == 0 {
                Some(ErrorView::NotFound)
            } else if leads_astray(file) {
                Some(ErrorView::BadRequest("invalid source file"@))
            } else {
                None
            }
        },
    }
}

/// `name` as it stands inside the quotation marks of the header.
fn quote_name(name: &str) -> (r: String)
    ensures
        r@ == quoted_name(name@),
{
    let cs: Vec<char> = chars_of(name);
    let mut out: Vec<char> = Vec::new();
    for i in 0..cs.len()
        invariant
            out@.len() == i,
            forall|j: int| 0 <= j < i ==> out@[j] == quotable(cs@[j]),
    {
        let c = cs[i];
        if c == '"' || c == '\r' || c == '\n' {
            out.push('_');
        } else {
            out.push(c);
        }
    }
    assert(out@ =~= quoted_name(name@));
    string_of(&out)
}

/// The file that is sent for the document with the source `row`: none where the
/// document was not imported.
pub fn download<T>(row: Option<Row<T>>) -> (r: Result<Download, AppError>)
    ensures
        match r {
            Ok(d) => {
                &&& download_error(row) is None
                &&& d.file@ == or_empty(row->0.fields.source_file)
                &&& d.mime@ == download_mime(row->0)
                &&& d.disposition@ == disposition(download_name(row->0))
            },
            Err(e) => download_error(row) == Some(e@),
        },
{
    let row = match row {
        Some(row) => row,
        None => return Err(AppError::NotFound),
    };
    let file = text_or_empty(row.fields.source_file);
    if file.as_str().is_empty() {
        return Err(AppError::NotFound);
    }
    let cs: Vec<char> = chars_of(file.as_str());
    if holds(&cs, "/") || holds(&cs, "\\") || holds(&cs, "..") {
        return Err(AppError::BadRequest("invalid source file".to_string()));
    }
    let mut mime = text_or_empty(row.fields.source_mime);
    if mime.as_str().is_empty() {
        mime = "application/octet-stream".to_string();
    }
    let name = text_or_empty(row.fields.source_name);
    let safe = if name.as_str().is_empty() {
        quote_name(file.as_str())
    } else {
        quote_name(name.as_str())
    };
    let mut header = "attachment; filename=\"".to_string();
    header.append(safe.as_str());
    header.append("\"");
    Ok(Download { file, mime, disposition: header })
}

/// Nothing in a file name breaks out of the quoted name or the header line.
pub proof fn name_stays_quoted(name: Seq<char>)
    ensures
        quoted_name(name).len() == name.len(),
        forall|i: int|
            0 <= i < name.len() ==> #[trigger] quoted_name(name)[i] != '"' && quoted_name(name)[i]
                != '\r' && quoted_name(name)[i] != '\n',
{
}

/// A file that is sent lies in the directory of originals: its name is a single
/// path segment and not one that means a directory above.
pub proof fn download_stays_inside<T>(row: Row<T>)
    requires
        download_error(Some(row)) is None,
    ensures
        is_segment(or_empty(row.fields.source_file)),
        or_empty(row.fields.source_file) != ".."@,
        or_empty(row.fields.source_file).len() > 0,
{
    let file = or_empty(row.fields.source_file);
    reveal_strlit("/");
    reveal_strlit("\\");
    reveal_strlit("..");
    find_is_first(file, "/"@, 0);
    find_is_first(file, "\\"@, 0);
    find_is_first(file, ".."@, 0);
    assert forall|i: int| 0 <= i < file.len() implies #[trigger] file[i] != '/' && file[i]
        != '\\' by {
        assert(!crate::text::occurs_at(file, "/"@, i));
        assert(!crate::text::occurs_at(file, "\\"@, i));
        if file[i] == '/' {
            assert(file.subrange(i, i + 1) =~= "/"@);
        }
        if file[i] == '\\' {
            assert(file.subrange(i, i + 1) =~= "\\"@);
        }
    }
    if file == ".."@ {
        assert(file.subrange(0, 2) =~= ".."@);
        assert(crate::text::occurs_at(file, ".."@, 0));
    }
}

/// What was saved stays downloadable: a document whose source is the name that
/// an upload was stored under gets that file, whatever the upload was called.
pub proof fn saved_original_is_served<T>(nanos: int, name: Seq<char>, row: Row<T>)
    requires
        or_empty(row.fields.source_file) == stored_name(nanos, name),
    ensures
        download_error(Some(row)) is None,
{
    let file = stored_name(nanos, name);
    stored_name_is_segment(nanos, name);
    stored_name_has_no_double_dots(nanos, name);
    reveal_strlit("/");
    reveal_strlit("\\");
    find_is_first(file, "/"@, 0);
    find_is_first(file, "\\"@, 0);
    if contains(file, "/"@) {
        let i = crate::text::find(file, "/"@)->0;
        assert(file.subrange(i, i + 1)[0] == '/');
    }
    if contains(file, "\\"@) {
        let i = crate::text::find(file, "\\"@)->0;
        assert(file.subrange(i, i + 1)[0] == '\\');
    }
}

// ---------------------------------------------------------------------------
// Laws
// ---------------------------------------------------------------------------

/// The download begins with the three fields that describe the imported file.
pub proof fn source_is_asked_for(id: Seq<char>)
    ensures
        source_query(id).sql
            == "SELECT source_file, source_name, source_mime FROM type::record('document', $id)"@,
        source_query(id).binds.len() == 1,
        source_query(id).binds[0] == (BindView { name: "id"@, value: ParamView::Text(id) }),
{
}

/// A quoted name is the name itself, character by character, but for quotation
/// marks and line ends, which become underscores; it stands whole in the header.
pub proof fn quoted_name_keeps_the_rest(name: Seq<char>)
    ensures
        forall|i: int|
            0 <= i < name.len() ==> #[trigger] quoted_name(name)[i] == if name[i] == '"' || name[i]
                == '\r' || name[i] == '\n' {
                '_'
            } else {
                name[i]
            },
        disposition(name) == "attachment; filename=\""@ + quoted_name(name) + "\""@,
{
}

/// A file is downloaded under the name that it was uploaded under, else under the
/// stored one, and as of its type, else as bytes.
pub proof fn download_is_described<T>(row: Row<T>)
    ensures
        or_empty(row.fields.source_name).len() > 0 ==> download_name(row) == or_empty(
            row.fields.source_name,
        ),
        or_empty(row.fields.source_name).len() == 0 ==> download_name(row) == or_empty(
            row.fields.source_file,
        ),
        or_empty(row.fields.source_mime).len() > 0 ==> download_mime(row) == or_empty(
            row.fields.source_mime,
        ),
        or_empty(row.fields.source_mime).len() == 0 ==> download_mime(row)
            == "application/octet-stream"@,
{
}

/// There is a download exactly where the document has a source that holds no
/// separator and no two dots together.
pub proof fn download_needs_a_plain_source<T>(row: Row<T>)
    ensures
        download_error::<T>(None) == Some(ErrorView::NotFound),
        or_empty(row.fields.source_file).len() == 0 ==> download_error(Some(row)) == Some(
            ErrorView::NotFound,
        ),
        or_empty(row.fields.source_file).len() > 0 ==> {
            let file = or_empty(row.fields.source_file);
            let plain = !contains(file, "/"@) && !contains(file, "\\"@) && !contains(file, ".."@);
            &&& plain ==> download_error(Some(row)) is None
            &&& !plain ==> download_error(Some(row)) == Some(
                ErrorView::BadRequest("invalid source file"@),
            )
        },
{
}

} // verus!
