//! `POST /convert?name=<filename>`: converting an uploaded office file or PDF
//! to HTML so that it can be imported into the editor. The conversion itself is
//! done with tools on the host; what is decided around them stands here.

pub mod footers;
pub mod images;
pub mod office;
pub mod page;
pub mod snippets;
pub mod xml;

use vstd::prelude::*;

use crate::clock::unix_nanos;
use crate::convert::footers::Footers;
use crate::convert::page::PageSetup;
use crate::error::{AppError, ErrorView};
use crate::text::{char_is_alphanumeric, chars_of, contains, find_is_first, is_alphanumeric,
    last_position, lower, lowered, rfind, same, signed_decimal, signed_decimal_of,
    string_of, substring};

verus! {

/// The query of a conversion request.
#[derive(Debug)]
pub struct ConvertParams {
    /// Original filename: its extension selects the converter.
    pub name: String,
}

/// The tools that convert a file.
#[derive(Debug, Clone, Copy, PartialEq, Eq, Structural)]
pub enum Pipeline {
    /// LibreOffice.
    Office,
    /// poppler's `pdftohtml`.
    Pdf,
}

/// A conversion that is to be made.
#[derive(Debug)]
pub struct Conversion {
    /// The extension of the file, in lower case.
    pub ext: String,
    pub pipeline: Pipeline,
}

/// What follows the last dot of `name`, all of it where there is none.
pub open spec fn last_part(name: Seq<char>) -> Seq<char> {
    match rfind(name, "."@) {
        Some(i) => name.skip(i + 1),
        None => name,
    }
}

/// The tools for a file of the extension `ext`.
pub open spec fn pipeline_of(ext: Seq<char>) -> Option<Pipeline> {
    if ext == "doc"@ || ext == "docx"@ || ext == "odt"@ || ext == "rtf"@ {
        Some(Pipeline::Office)
    } else if ext == "pdf"@ {
        Some(Pipeline::Pdf)
    } else {
        None
    }
}

/// The message for a file of a type that cannot be converted.
pub open spec fn unsupported(ext: Seq<char>) -> Seq<char> {
    "unsupported file type: ."@ + ext + " (use pdf, doc, docx, odt or rtf)"@
}

/// What follows the last dot of `name`, in lower case.
fn file_extension(name: &str) -> (r: String)
    ensures
        r@ == lower(last_part(name@)),
{
    proof {
        reveal_strlit(".");
    }
    let cs: Vec<char> = chars_of(name);
    let len: usize = cs.len();
    let from: usize = match last_position(&cs, ".") {
        Some(i) => i + 1,
        None => 0,
    };
    let part = &cs[from..len];
    proof {
        assert(part@ =~= last_part(name@));
    }
    string_of(&lowered(part))
}

/// How the file `params.name` with a body of `size` bytes is converted. An
/// empty body and a type that no tool takes are refused before anything is
/// written: the extension becomes part of a path.
pub fn convert(params: &ConvertParams, size: usize) -> (r: Result<Conversion, AppError>)
    ensures
        ({
            let ext = lower(last_part(params.name@));
            match r {
                Ok(c) => size > 0 && c.ext@ == ext && pipeline_of(ext) == Some(c.pipeline),
                Err(e) => if size == 0 {
                    e@ == ErrorView::BadRequest("empty file"@)
                } else {
                    pipeline_of(ext) is None && e@ == ErrorView::BadRequest(unsupported(ext))
                },
            }
        }),
{
    if size == 0 {
        return Err(AppError::BadRequest("empty file".to_string()));
    }
    let ext = file_extension(params.name.as_str());
    let e = ext.as_str();
    if same(e, "doc") || same(e, "docx") || same(e, "odt") || same(e, "rtf") {
        Ok(Conversion { ext, pipeline: Pipeline::Office })
    } else if same(e, "pdf") {
        proof {
            reveal_strlit("pdf");
            reveal_strlit("doc");
            reveal_strlit("docx");
            reveal_strlit("odt");
            reveal_strlit("rtf");
        }
        Ok(Conversion { ext, pipeline: Pipeline::Pdf })
    } else {
        let mut m = "unsupported file type: .".to_string();
        m.append(e);
        m.append(" (use pdf, doc, docx, odt or rtf)");
        Err(AppError::BadRequest(m))
    }
}

/// The MIME type for an import extension.
pub open spec fn mime_type(ext: Seq<char>) -> Seq<char> {
    if ext == "pdf"@ {
        "application/pdf"@
    } else if ext == "doc"@ {
        "application/msword"@
    } else if ext == "docx"@ {
        "application/vnd.openxmlformats-officedocument.wordprocessingml.document"@
    } else if ext == "odt"@ {
        "application/vnd.oasis.opendocument.text"@
    } else if ext == "rtf"@ {
        "application/rtf"@
    } else {
        "application/octet-stream"@
    }
}

/// MIME type for a (validated) import extension.
pub fn mime_for(ext: &str) -> (r: &'static str)
    ensures
        r@ == mime_type(ext@),
{
    if same(ext, "pdf") {
        "application/pdf"
    } else if same(ext, "doc") {
        "application/msword"
    } else if same(ext, "docx") {
        "application/vnd.openxmlformats-officedocument.wordprocessingml.document"
    } else if same(ext, "odt") {
        "application/vnd.oasis.opendocument.text"
    } else if same(ext, "rtf") {
        "application/rtf"
    } else {
        "application/octet-stream"
    }
}

/// The directory that uploads and scratch files are kept below: what is
/// configured, else `data`.
pub fn data_dir(configured: Option<&str>) -> (r: String)
    ensures
        r@ == crate::database::setting_of(configured, "data"@),
{
    match configured {
        Some(dir) => dir.to_string(),
        None => "data".to_string(),
    }
}

/// The path of `name` in the directory `dir`.
pub open spec fn path_in(dir: Seq<char>, name: Seq<char>) -> Seq<char> {
    if dir.len() == 0 || dir.last() == '/' {
        dir + name
    } else {
        dir + seq!['/'] + name
    }
}

/// Where original imported files are kept: `originals` in the directory that
/// [`data_dir`] names.
pub fn originals_dir(configured: Option<&str>) -> (r: String)
    ensures
        r@ == path_in(crate::database::setting_of(configured, "data"@), "originals"@),
{
    let mut path = data_dir(configured);
    let cs: Vec<char> = chars_of(path.as_str());
    let len: usize = cs.len();
    if len > 0 && cs[len - 1] != '/' {
        path.push('/');
    }
    path.append("originals");
    proof {
        assert(path@ =~= path_in(cs@, "originals"@));
    }
    path
}

// ---------------------------------------------------------------------------
// Keeping the original
// ---------------------------------------------------------------------------

/// A saved original file.
#[derive(Debug)]
pub struct SavedOriginal {
    /// The name it is stored under.
    pub file: String,
    /// The name the user uploaded it under.
    pub name: String,
    pub mime: String,
    pub size: usize,
}

/// `c` where it may stand in a stored name, else an underscore.
pub open spec fn safe_char(c: char) -> char {
    if is_alphanumeric(c) || c == '.' || c == '-' || c == '_' {
        c
    } else {
        '_'
    }
}

/// `name` flattened into a safe single path segment: each character that may not
/// stand there becomes an underscore, and so does a dot behind a dot.
pub open spec fn safe_name(name: Seq<char>) -> Seq<char> {
    Seq::new(
        name.len(),
        |i: int|
            if i > 0 && name[i] == '.' && name[i - 1] == '.' {
                '_'
            } else {
                safe_char(name[i])
            },
    )
}

/// The name that a file uploaded as `name` is stored under at the time `nanos`.
pub open spec fn stored_name(nanos: int, name: Seq<char>) -> Seq<char> {
    signed_decimal(nanos) + seq!['-'] + safe_name(name)
}

/// `name` flattened into a safe single path segment.
fn sanitized(name: &str) -> (r: String)
    ensures
        r@ == safe_name(name@),
{
    let cs: Vec<char> = chars_of(name);
    let mut out: Vec<char> = Vec::new();
    for i in 0..cs.len()
        invariant
            out@.len() == i,
            forall|j: int| 0 <= j < i ==> out@[j] == safe_name(cs@)[j],
    {
        let c = cs[i];
        if i > 0 && c == '.' && cs[i - 1] == '.' {
            out.push('_');
        } else if char_is_alphanumeric(c) || c == '.' || c == '-' || c == '_' {
            out.push(c);
        } else {
            out.push('_');
        }
    }
    assert(out@ =~= safe_name(name@));
    string_of(&out)
}

/// What describes the upload `name` of `size` bytes, saved at the time `nanos`.
pub fn save_original_at(name: &str, ext: &str, size: usize, nanos: Option<i64>) -> (r:
    SavedOriginal)
    ensures
        r.file@ == stored_name(
            (match nanos {
                Some(n) => n as int,
                None => 0,
            }),
            name@,
        ),
        r.name@ == name@,
        r.mime@ == mime_type(ext@),
        r.size == size,
{
    let n: i64 = match nanos {
        Some(n) => n,
        None => 0,
    };
    let mut file = signed_decimal_of(n);
    file.push('-');
    file.append(sanitized(name).as_str());
    proof {
        assert(file@ =~= stored_name(n as int, name@));
    }
    SavedOriginal { file, name: name.to_string(), mime: mime_for(ext).to_string(), size }
}

/// What describes the upload `name` of `size` bytes, to be saved now: the time
/// keeps its stored name from colliding with another.
pub fn save_original(name: &str, ext: &str, size: usize) -> (r: SavedOriginal)
    ensures
        exists|nanos: int| nanos >= 0 && r.file@ == #[trigger] stored_name(nanos, name@),
        r.name@ == name@,
        r.mime@ == mime_type(ext@),
        r.size == size,
{
    let nanos = unix_nanos();
    let r = save_original_at(name, ext, size, nanos);
    proof {
        let n = match nanos {
            Some(n) => n as int,
            None => 0,
        };
        assert(r.file@ == stored_name(n, name@));
    }
    r
}

/// `s` is a single path segment: it holds no separator.
pub open spec fn is_segment(s: Seq<char>) -> bool {
    forall|i: int| 0 <= i < s.len() ==> #[trigger] s[i] != '/' && s[i] != '\\'
}

/// The extension of a file that is converted becomes part of a path without
/// leading anywhere else: it is a single path segment without dots.
pub proof fn converted_extension_is_safe(ext: Seq<char>)
    requires
        pipeline_of(ext) is Some,
    ensures
        is_segment(ext),
        !ext.contains('.'),
{
    reveal_strlit("doc");
    reveal_strlit("docx");
    reveal_strlit("odt");
    reveal_strlit("rtf");
    reveal_strlit("pdf");
}

/// Whatever name a client sends, the stored name is a single path segment, and
/// not one of the two that mean a directory.
pub proof fn stored_name_is_segment(nanos: int, name: Seq<char>)
    ensures
        is_segment(stored_name(nanos, name)),
        stored_name(nanos, name) != "."@,
        stored_name(nanos, name) != ".."@,
{
    reveal_strlit(".");
    reveal_strlit("..");
    let digits = signed_decimal(nanos);
    lemma_decimal_chars(nanos);
    let s = stored_name(nanos, name);
    let safe = safe_name(name);
    assert forall|i: int| 0 <= i < s.len() implies #[trigger] s[i] != '/' && s[i] != '\\' by {
        if i < digits.len() {
            assert(s[i] == digits[i]);
        } else if i > digits.len() {
            assert(s[i] == safe[i - digits.len() - 1]);
        }
    }
    assert(s[0] == digits[0]);
}

proof fn lemma_decimal_chars(n: int)
    ensures
        signed_decimal(n).len() > 0,
        forall|i: int|
            0 <= i < signed_decimal(n).len() ==> crate::text::is_digit(
                #[trigger] signed_decimal(n)[i],
            ) || signed_decimal(n)[i] == '-',
{
    if n < 0 {
        crate::text::decimal_reads_back((-n) as nat);
        let d = crate::text::decimal((-n) as nat);
        assert forall|i: int| 0 <= i < signed_decimal(n).len() implies crate::text::is_digit(
            #[trigger] signed_decimal(n)[i],
        ) || signed_decimal(n)[i] == '-' by {
            if i > 0 {
                assert(signed_decimal(n)[i] == d[i - 1]);
            }
        }
    } else {
        crate::text::decimal_reads_back(n as nat);
    }
}

/// Two uploads at different times are never stored under the same name,
/// whatever they are called.
pub proof fn stored_names_differ(a: nat, b: nat, x: Seq<char>, y: Seq<char>)
    requires
        a != b,
    ensures
        stored_name(a as int, x) != stored_name(b as int, y),
{
    crate::text::decimal_reads_back(a);
    crate::text::decimal_reads_back(b);
    let p = crate::text::decimal(a);
    let q = crate::text::decimal(b);
    let s = stored_name(a as int, x);
    let t = stored_name(b as int, y);
    if s == t {
        if p.len() < q.len() {
            assert(s[p.len() as int] == '-');
            assert(t[p.len() as int] == q[p.len() as int]);
        } else if q.len() < p.len() {
            assert(t[q.len() as int] == '-');
            assert(s[q.len() as int] == p[q.len() as int]);
        } else {
            assert forall|i: int| 0 <= i < p.len() implies p[i] == q[i] by {
                assert(s[i] == p[i] && t[i] == q[i]);
            }
            assert(p =~= q);
        }
    }
}

/// Two uploads at the same time are stored under the same name only where their
/// flattened names are the same.
pub proof fn stored_names_differ_at_one_time(nanos: int, x: Seq<char>, y: Seq<char>)
    requires
        safe_name(x) != safe_name(y),
    ensures
        stored_name(nanos, x) != stored_name(nanos, y),
{
    let k = signed_decimal(nanos).len() + 1;
    let s = stored_name(nanos, x);
    let t = stored_name(nanos, y);
    assert(s.skip(k as int) =~= safe_name(x));
    assert(t.skip(k as int) =~= safe_name(y));
}

/// No two dots stand together in a stored name, whatever the client sent.
pub proof fn stored_name_has_no_double_dots(nanos: int, name: Seq<char>)
    ensures
        !contains(stored_name(nanos, name), ".."@),
{
    reveal_strlit("..");
    let digits = signed_decimal(nanos);
    lemma_decimal_chars(nanos);
    let s = stored_name(nanos, name);
    let safe = safe_name(name);
    let k = digits.len() + 1;
    find_is_first(s, ".."@, 0);
    if contains(s, ".."@) {
        let i = crate::text::find(s, ".."@)->0;
        assert(s.subrange(i, i + 2)[0] == '.' && s.subrange(i, i + 2)[1] == '.');
        if i < digits.len() {
            assert(s[i] == digits[i]);
        }
        assert(i >= k);
        assert(s[i] == safe[i - k] && s[i + 1] == safe[i + 1 - k]);
    }
}

// ---------------------------------------------------------------------------
// Tools and the response
// ---------------------------------------------------------------------------

/// The most of what a failed converter printed that is told.
pub const ERROR_LENGTH: usize = 300;

/// How the run of a converter ended.
#[derive(Debug)]
pub enum Outcome {
    /// It took too long.
    TimedOut,
    /// It could not be started, with the reason.
    NotStarted(String),
    /// It reported failure, having printed this to standard error.
    Failed(String),
    /// It reported success, having printed this to standard output.
    Finished(String),
}

/// What is told of a run that did not succeed.
pub open spec fn failure(outcome: Outcome) -> Option<Seq<char>> {
    match outcome {
        Outcome::TimedOut => Some("conversion timed out"@),
        Outcome::NotStarted(m) => Some("failed to run converter: "@ + m@),
        Outcome::Failed(m) => Some(
            "converter failed: "@ + snippets::first_chars(m@, ERROR_LENGTH as nat),
        ),
        Outcome::Finished(_) => None,
    }
}

/// What comes of the run of a converter: what it printed, or an error.
pub fn run(outcome: Outcome) -> (r: Result<String, AppError>)
    ensures
        match failure(outcome) {
            Some(m) => r matches Err(e) && e@ == ErrorView::Internal(m),
            None => r == Ok::<String, AppError>(outcome->Finished_0),
        },
{
    match outcome {
        Outcome::TimedOut => Err(AppError::Internal("conversion timed out".to_string())),
        Outcome::NotStarted(m) => {
            let mut s = "failed to run converter: ".to_string();
            s.append(m.as_str());
            Err(AppError::Internal(s))
        },
        Outcome::Failed(m) => {
            let cs: Vec<char> = chars_of(m.as_str());
            let mut s = "converter failed: ".to_string();
            if cs.len() <= ERROR_LENGTH {
                s.append(m.as_str());
            } else {
                let told = substring(&cs, 0, ERROR_LENGTH);
                proof {
                    assert(told@ =~= m@.take(ERROR_LENGTH as int));
                }
                s.append(told.as_str());
            }
            Err(AppError::Internal(s))
        },
        Outcome::Finished(out) => Ok(out),
    }
}

/// What a conversion is answered with.
#[derive(Debug)]
pub struct Converted {
    /// The full page, styles of its head included.
    pub html: String,
    /// The page geometry, where it could be derived.
    pub page: Option<PageSetup>,
    /// Snippets of the first text of the pages from the second on.
    pub pages: Vec<String>,
    /// The page footers, where they were looked for.
    pub footers: Option<Footers>,
}

/// The answer for a PDF: its HTML only.
pub fn pdf_converted(html: String) -> (r: Converted)
    ensures
        r.html == html,
        r.page is None,
        r.pages@.len() == 0,
        r.footers is None,
{
    Converted { html, page: None, pages: Vec::new(), footers: None }
}

// ---------------------------------------------------------------------------
// Laws
// ---------------------------------------------------------------------------

/// The extension of a file is what follows its last dot: text without a dot
/// behind a dot, or the whole name where it has none.
pub proof fn extension_follows_the_last_dot(base: Seq<char>, ext: Seq<char>)
    requires
        forall|i: int| 0 <= i < ext.len() ==> #[trigger] ext[i] != '.',
    ensures
        last_part(base + seq!['.'] + ext) == ext,
        last_part(ext) == ext,
{
    reveal_strlit(".");
    let name = base + seq!['.'] + ext;
    let at = base.len() as int;
    crate::text::rfind_is_last(name, "."@, name.len() as int);
    crate::text::rfind_is_last(ext, "."@, ext.len() as int);
    assert(name.subrange(at, at + 1) =~= "."@);
    assert(crate::text::occurs_at(name, "."@, at));
    let last = rfind(name, "."@)->0;
    assert(name.subrange(last, last + 1)[0] == name[last]);
    if last > at {
        assert(name[last] == ext[last - at - 1]);
    }
    assert(name.skip(at + 1) =~= ext);
    if let Some(i) = rfind(ext, "."@) {
        assert(ext.subrange(i, i + 1)[0] == ext[i]);
    }
}

/// Four types are converted by LibreOffice, PDF by poppler, and no other type at
/// all; a type that is refused is told.
pub proof fn known_types_are_converted(ext: Seq<char>)
    ensures
        pipeline_of(ext) == Some(Pipeline::Office) <==> ext == "doc"@ || ext == "docx"@ || ext
            == "odt"@ || ext == "rtf"@,
        pipeline_of(ext) == Some(Pipeline::Pdf) <==> ext == "pdf"@,
        unsupported(ext) == "unsupported file type: ."@ + ext
            + " (use pdf, doc, docx, odt or rtf)"@,
{
    reveal_strlit("doc");
    reveal_strlit("docx");
    reveal_strlit("odt");
    reveal_strlit("rtf");
    reveal_strlit("pdf");
    assert("pdf"@[0] != "doc"@[0]);
    assert("pdf"@[0] != "odt"@[0]);
    assert("pdf"@[0] != "rtf"@[0]);
    assert("pdf"@.len() != "docx"@.len());
}

/// Each type that is converted has its MIME type, and every other file is bytes.
pub proof fn types_have_their_mime(ext: Seq<char>)
    ensures
        mime_type("pdf"@) == "application/pdf"@,
        mime_type("doc"@) == "application/msword"@,
        mime_type("docx"@)
            == "application/vnd.openxmlformats-officedocument.wordprocessingml.document"@,
        mime_type("odt"@) == "application/vnd.oasis.opendocument.text"@,
        mime_type("rtf"@) == "application/rtf"@,
        pipeline_of(ext) is None ==> mime_type(ext) == "application/octet-stream"@,
{
    reveal_strlit("doc");
    reveal_strlit("docx");
    reveal_strlit("odt");
    reveal_strlit("rtf");
    reveal_strlit("pdf");
    assert("doc"@[0] != "pdf"@[0]);
    assert("odt"@[0] != "pdf"@[0] && "odt"@[0] != "doc"@[0]);
    assert("rtf"@[0] != "pdf"@[0] && "rtf"@[0] != "doc"@[0] && "rtf"@[0] != "odt"@[0]);
    assert("docx"@.len() == 4);
}

/// A flattened name has a character for each of the name: letters, digits, hyphens
/// and underscores stay, and a dot does unless one stands before it; every other
/// character becomes an underscore.
pub proof fn flattening_keeps_what_it_may(name: Seq<char>)
    ensures
        safe_name(name).len() == name.len(),
        forall|i: int|
            0 <= i < name.len() ==> #[trigger] safe_name(name)[i] == {
                let c = name[i];
                if is_alphanumeric(c) || c == '-' || c == '_' {
                    c
                } else if c == '.' && (i == 0 || name[i - 1] != '.') {
                    '.'
                } else {
                    '_'
                }
            },
{
}

/// A stored name is the time in decimal, a hyphen and the flattened name.
pub proof fn stored_name_tells_time_and_name(nanos: nat, name: Seq<char>) -> (k: int)
    ensures
        0 < k < stored_name(nanos as int, name).len(),
        crate::text::is_number(stored_name(nanos as int, name).take(k)),
        crate::text::number(stored_name(nanos as int, name).take(k)) == nanos,
        stored_name(nanos as int, name)[k] == '-',
        stored_name(nanos as int, name).skip(k + 1) == safe_name(name),
{
    crate::text::decimal_reads_back(nanos);
    let d = crate::text::decimal(nanos);
    let k = d.len() as int;
    let s = stored_name(nanos as int, name);
    assert(s.take(k) =~= d);
    assert(s.skip(k + 1) =~= safe_name(name));
    k
}

/// A path in a directory is the directory, a slash where it does not end with
/// one, and the name.
pub proof fn path_is_directory_and_name(dir: Seq<char>, name: Seq<char>)
    requires
        dir.len() > 0,
    ensures
        dir.last() == '/' ==> path_in(dir, name) == dir + name,
        dir.last() != '/' ==> path_in(dir, name) == path_in(dir.push('/'), name),
        path_in(Seq::empty(), name) == name,
{
    assert(dir.push('/') + name =~= dir + seq!['/'] + name);
    assert(Seq::<char>::empty() + name =~= name);
}

/// A run that failed is told with the beginning of what it printed, and one that
/// finished is no failure.
pub proof fn failed_runs_are_told(m: String)
    ensures
        failure(Outcome::TimedOut) == Some("conversion timed out"@),
        failure(Outcome::NotStarted(m)) == Some("failed to run converter: "@ + m@),
        failure(Outcome::Failed(m)) == Some(
            "converter failed: "@ + m@.take(
                if m@.len() < 300 {
                    m@.len() as int
                } else {
                    300
                },
            ),
        ),
        failure(Outcome::Finished(m)) is None,
{
    snippets::first_chars_are_first(m@, 300);
}

} // verus!
