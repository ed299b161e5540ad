//! Word-processor formats, exported by LibreOffice.
//!
//! The XHTML filter resolves list and heading numbers into text, so it goes
//! first; the legacy HTML filter takes its place when it fails in any way.
//! Both drop page footers and header images, which are salvaged from the OOXML
//! form of the document.

use vstd::prelude::*;

use crate::convert::footers::Footers;
use crate::convert::page::PageSetup;
use crate::convert::Converted;
use crate::error::{AppError, ErrorView};
use crate::text::{chars_of, contains, find, find_from, find_is_first, holds, lower, lowered,
    position, position_from, push_all, same, string_of};

verus! {

/// What is done next.
#[derive(Debug)]
pub enum OfficeStep {
    /// Export with the legacy HTML filter.
    ExportHtml,
    /// Unpack the OOXML form; the export is held.
    Unpack(String),
    /// Salvage images from the unpacked form; the export is held.
    SalvageImages(String),
    /// Read footers and page geometry from the unpacked form, then finish; the
    /// export is held.
    ReadParts(String),
    /// Finish without the unpacked form; the export is held.
    Finish(String),
}

/// What is done behind the XHTML export.
pub open spec fn behind_xhtml(output: Option<String>) -> OfficeStep {
    match output {
        Some(html) => OfficeStep::Unpack(html),
        None => OfficeStep::ExportHtml,
    }
}

/// What is done behind the unpacking of the OOXML form.
pub open spec fn behind_unpacking(html: String, ok: bool) -> OfficeStep {
    if !ok {
        OfficeStep::Finish(html)
    } else if has_image(html@) {
        OfficeStep::ReadParts(html)
    } else {
        OfficeStep::SalvageImages(html)
    }
}

/// Why the OOXML form could not be had, as it is written in the log.
pub open spec fn unpack_told(e: UnpackError) -> Seq<char> {
    match e {
        UnpackError::Conversion(e) => "docx conversion failed: "@ + crate::error::description_of(e@),
        UnpackError::Unzip(e) => "unzip failed: "@ + crate::error::description_of(e@),
    }
}

/// Goes on from the XHTML export: `output` is what was written, where the
/// export succeeded and could be read.
pub fn xhtml_exported(output: Option<String>) -> (r: OfficeStep)
    ensures
        r == behind_xhtml(output),
{
    match output {
        Some(html) => OfficeStep::Unpack(html),
        None => OfficeStep::ExportHtml,
    }
}

/// Goes on from the legacy export: `output` is what was written, where it could
/// be read.
pub fn html_exported(output: Option<String>) -> (r: Result<OfficeStep, AppError>)
    ensures
        match output {
            Some(html) => r == Ok::<OfficeStep, AppError>(OfficeStep::Unpack(html)),
            None => r matches Err(e) && e@ == ErrorView::Internal(
                "LibreOffice produced no output"@,
            ),
        },
{
    match output {
        Some(html) => Ok(OfficeStep::Unpack(html)),
        None => Err(AppError::Internal("LibreOffice produced no output".to_string())),
    }
}

/// The export shows an image of its own.
pub open spec fn has_image(html: Seq<char>) -> bool {
    contains(lower(html), "<img"@)
}

/// Goes on from the unpacking of the OOXML form: images are salvaged only for
/// an export that has none of its own.
pub fn unpacked(html: String, ok: bool) -> (r: OfficeStep)
    ensures
        r == behind_unpacking(html, ok),
{
    if !ok {
        OfficeStep::Finish(html)
    } else if holds(&lowered(&chars_of(html.as_str())), "<img") {
        OfficeStep::ReadParts(html)
    } else {
        OfficeStep::SalvageImages(html)
    }
}

/// Where the body of a page begins: behind the first `<body …>`, in whatever
/// case it is written.
pub open spec fn body_start(html: Seq<char>) -> Option<int> {
    match find(lower(html), "<body"@) {
        None => None,
        Some(i) => match find_from(lower(html), ">"@, i) {
            None => None,
            Some(j) => Some(j + 1),
        },
    }
}

/// `html` with `tags` at the beginning of its body, unchanged where it has none.
pub open spec fn with_tags(html: Seq<char>, tags: Seq<char>) -> Seq<char> {
    match body_start(html) {
        Some(at) => html.take(at) + tags + html.skip(at),
        None => html,
    }
}

/// Putting tags into a page loses nothing of it: without them it is what it
/// was.
pub proof fn tags_lose_nothing(html: Seq<char>, tags: Seq<char>)
    ensures
        match body_start(html) {
            Some(at) => {
                &&& 0 <= at <= html.len()
                &&& with_tags(html, tags).take(at) + with_tags(html, tags).skip(at + tags.len())
                    == html
                &&& with_tags(html, tags).subrange(at, at + tags.len()) == tags
            },
            None => with_tags(html, tags) == html,
        },
{
    let low = lower(html);
    find_is_first(low, "<body"@, 0);
    if let Some(i) = find(low, "<body"@) {
        find_is_first(low, ">"@, i);
        reveal_strlit(">");
        if let Some(at) = body_start(html) {
            let out = with_tags(html, tags);
            assert(out.take(at) + out.skip(at + tags.len()) =~= html);
            assert(out.subrange(at, at + tags.len()) =~= tags);
        }
    }
}

/// Goes on from the salvage of images: `tags` are the image tags, where the
/// salvage succeeded.
pub fn images_salvaged(html: String, tags: Option<String>) -> (r: OfficeStep)
    ensures
        r matches OfficeStep::ReadParts(out) && out@ == match tags {
            Some(t) => with_tags(html@, t@),
            None => html@,
        },
{
    match tags {
        None => OfficeStep::ReadParts(html),
        Some(t) => {
            let cs: Vec<char> = chars_of(html.as_str());
            let low: Vec<char> = lowered(&cs);
            let len: usize = low.len();
            proof {
                reveal_strlit(">");
            }
            match position(&low, "<body") {
                None => OfficeStep::ReadParts(html),
                Some(i) => match position_from(&low, ">", i) {
                    None => OfficeStep::ReadParts(html),
                    Some(j) => {
                        let at: usize = j + 1;
                        let mut out: Vec<char> = Vec::new();
                        out.extend_from_slice(&cs[0..at]);
                        push_all(&mut out, t.as_str());
                        out.extend_from_slice(&cs[at..len]);
                        proof {
                            assert(out@ =~= with_tags(html@, t@));
                        }
                        OfficeStep::ReadParts(string_of(&out))
                    },
                },
            }
        },
    }
}

/// The answer for a word-processor file: the export, the snippets of its pages,
/// and what was taken from the unpacked form where there is one.
pub fn office_converted(
    html: String,
    parts: Option<(Option<PageSetup>, Footers)>,
    pages: Vec<String>,
) -> (r: Converted)
    ensures
        r.html == html,
        r.pages == pages,
        match parts {
            Some((page, footers)) => r.page == page && r.footers == Some(footers),
            None => r.page is None && r.footers is None,
        },
{
    match parts {
        Some((page, footers)) => Converted { html, page, pages, footers: Some(footers) },
        None => Converted { html, page: None, pages, footers: None },
    }
}

/// Whether a file of the extension `ext` has to be converted to OOXML before it
/// can be unpacked.
pub fn needs_docx(ext: &str) -> (r: bool)
    ensures
        r == (ext@ != "docx"@),
{
    !same(ext, "docx")
}

/// Why the OOXML form could not be had.
#[derive(Debug)]
pub enum UnpackError {
    /// The conversion to OOXML failed.
    Conversion(AppError),
    /// The unpacking failed.
    Unzip(AppError),
}

/// What is written in the log when the OOXML form could not be had.
pub fn unpack_failure(e: &UnpackError) -> (r: String)
    ensures
        r@ == unpack_told(*e),
{
    match e {
        UnpackError::Conversion(e) => {
            let mut s = "docx conversion failed: ".to_string();
            s.append(e.describe().as_str());
            s
        },
        UnpackError::Unzip(e) => {
            let mut s = "unzip failed: ".to_string();
            s.append(e.describe().as_str());
            s
        },
    }
}

// ---------------------------------------------------------------------------
// Laws
// ---------------------------------------------------------------------------

/// `c` is the letter `small`, in either case.
pub open spec fn is_letter(c: char, small: char) -> bool {
    c == small || c as u32 + 32 == small as u32
}

/// `<img` stands at `i`, in whatever case.
pub open spec fn img_at(html: Seq<char>, i: int) -> bool {
    &&& 0 <= i
    &&& i + 4 <= html.len()
    &&& html[i] == '<'
    &&& is_letter(html[i + 1], 'i')
    &&& is_letter(html[i + 2], 'm')
    &&& is_letter(html[i + 3], 'g')
}

/// `<body` stands at `i`, in whatever case.
pub open spec fn body_at(html: Seq<char>, i: int) -> bool {
    &&& 0 <= i
    &&& i + 5 <= html.len()
    &&& html[i] == '<'
    &&& is_letter(html[i + 1], 'b')
    &&& is_letter(html[i + 2], 'o')
    &&& is_letter(html[i + 3], 'd')
    &&& is_letter(html[i + 4], 'y')
}

proof fn lemma_img_at(html: Seq<char>, i: int)
    ensures
        crate::text::occurs_at(lower(html), "<img"@, i) <==> img_at(html, i),
{
    reveal_strlit("<img");
    let low = lower(html);
    if 0 <= i && i + 4 <= html.len() {
        let part = low.subrange(i, i + 4);
        assert(part[0] == low[i] && part[1] == low[i + 1] && part[2] == low[i + 2] && part[3]
            == low[i + 3]);
        if img_at(html, i) {
            assert(part =~= "<img"@);
        }
    }
}

proof fn lemma_body_at(html: Seq<char>, i: int)
    ensures
        crate::text::occurs_at(lower(html), "<body"@, i) <==> body_at(html, i),
{
    reveal_strlit("<body");
    let low = lower(html);
    if 0 <= i && i + 5 <= html.len() {
        let part = low.subrange(i, i + 5);
        assert(part[0] == low[i] && part[1] == low[i + 1] && part[2] == low[i + 2] && part[3]
            == low[i + 3] && part[4] == low[i + 4]);
        if body_at(html, i) {
            assert(part =~= "<body"@);
        }
    }
}

/// An export shows an image of its own exactly where an image tag stands in it,
/// in whatever case.
pub proof fn images_are_seen_in_any_case(html: Seq<char>)
    ensures
        has_image(html) <==> exists|i: int| img_at(html, i),
{
    find_is_first(lower(html), "<img"@, 0);
    if has_image(html) {
        let i = find(lower(html), "<img"@)->0;
        lemma_img_at(html, i);
        assert(img_at(html, i));
    }
    if exists|i: int| img_at(html, i) {
        let i = choose|i: int| img_at(html, i);
        lemma_img_at(html, i);
    }
}

/// Tags are put directly behind the first opening of the body, in whatever case
/// that is written, and nowhere where there is none.
pub proof fn tags_stand_behind_the_body_tag(html: Seq<char>, tags: Seq<char>)
    ensures
        match body_start(html) {
            Some(at) => {
                &&& exists|i: int|
                    {
                        &&& #[trigger] body_at(html, i)
                        &&& i < at - 1
                        &&& forall|j: int| 0 <= j < i ==> !#[trigger] body_at(html, j)
                        &&& forall|j: int| i <= j < at - 1 ==> #[trigger] html[j] != '>'
                    }
                &&& 0 < at <= html.len()
                &&& html[at - 1] == '>'
                &&& with_tags(html, tags) == html.take(at) + tags + html.skip(at)
            },
            None => {
                &&& forall|i: int| #[trigger]
                    body_at(html, i) && (forall|j: int|
                        0 <= j < i ==> !#[trigger] body_at(html, j)) ==> forall|j: int|
                        i <= j < html.len() ==> #[trigger] html[j] != '>'
                &&& with_tags(html, tags) == html
            },
        },
{
    reveal_strlit(">");
    let low = lower(html);
    find_is_first(low, "<body"@, 0);
    assert forall|i: int| crate::text::occurs_at(low, "<body"@, i) == #[trigger] body_at(html, i) by {
        lemma_body_at(html, i);
    }
    if let Some(i) = find(low, "<body"@) {
        lemma_body_at(html, i);
        assert(body_at(html, i));
        find_is_first(low, ">"@, i);
        assert forall|j: int| i <= j < html.len() implies (#[trigger] html[j] == '>')
            == crate::text::occurs_at(low, ">"@, j) by {
            assert(low.subrange(j, j + 1)[0] == low[j]);
            assert(low.subrange(j, j + 1) =~= seq![low[j]]);
            assert(">"@ =~= seq!['>']);
        }
        assert forall|k: int| #[trigger] body_at(html, k) && (forall|j: int|
            0 <= j < k ==> !#[trigger] body_at(html, j)) implies k == i by {
            assert(crate::text::occurs_at(low, "<body"@, k));
        }
        if let Some(at) = body_start(html) {
            assert(crate::text::occurs_at(low, ">"@, at - 1));
            assert(html[at - 1] == '>');
        }
    } else {
        assert forall|i: int| !#[trigger] body_at(html, i) by {
            assert(!crate::text::occurs_at(low, "<body"@, i));
        }
    }
}

/// An export is never lost: the one that succeeded goes through every step, and
/// only where there is none the legacy filter is tried. Images are salvaged where
/// the document could be unpacked and the export shows none.
pub proof fn export_goes_through(html: String, e: AppError)
    ensures
        behind_xhtml(Some(html)) == OfficeStep::Unpack(html),
        behind_xhtml(None) == OfficeStep::ExportHtml,
        behind_unpacking(html, false) == OfficeStep::Finish(html),
        has_image(html@) ==> behind_unpacking(html, true) == OfficeStep::ReadParts(html),
        !has_image(html@) ==> behind_unpacking(html, true) == OfficeStep::SalvageImages(html),
        unpack_told(UnpackError::Conversion(e)) == "docx conversion failed: "@
            + crate::error::description_of(e@),
        unpack_told(UnpackError::Unzip(e)) == "unzip failed: "@ + crate::error::description_of(e@),
{
}

} // verus!
