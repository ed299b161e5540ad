//! Page footers of an OOXML document.
//!
//! LibreOffice's HTML exports drop page footers, so their text is taken from
//! the footer parts of the document: each part becomes HTML, and the section
//! properties say which of them is for the first page.

use vstd::prelude::*;

use crate::convert::xml::{blocks, bold_from, has_bold, quoted, quoted_after, split_tags};
use crate::order::{arrange, is_order, key_views, stable_order, KeyView, SortKey};
use crate::text::{begins, char_is_digit, chars_of, contains, decimal, decimal_of, ends_with, find,
    find_from, find_is_first, finishes, holds, is_digit, is_number, is_roman, last_position, lower,
    lowered, number, number_of, occurs_at, position, position_from, rfind, roman_number, same,
    starts_with, string_of,
    substring, trim, trim_end, trim_end_is_prefix, trim_start, trim_start_is_suffix, trimmed,
    word_list, words};

verus! {

/// How a footer paragraph is set.
#[derive(Debug, Clone, Copy, PartialEq, Eq, Structural)]
pub enum Align {
    Center,
    Right,
    Justify,
}

/// The font size of a footer paragraph.
#[derive(Debug)]
pub enum FontSize {
    /// The size in points.
    Points(String),
    /// The half-points as the document gives them, where they are not a plain
    /// whole number.
    Raw(String),
}

/// What a [`FontSize`] holds.
pub enum FontSizeView {
    Points(Seq<char>),
    Raw(Seq<char>),
}

impl View for FontSize {
    type V = FontSizeView;

    open spec fn view(&self) -> FontSizeView {
        match self {
            FontSize::Points(t) => FontSizeView::Points(t@),
            FontSize::Raw(t) => FontSizeView::Raw(t@),
        }
    }
}

/// One paragraph extracted from an OOXML footer.
#[derive(Debug)]
pub struct FooterParagraph {
    /// The text, ready to stand in HTML.
    pub text: String,
    pub bold: bool,
    pub align: Option<Align>,
    pub size: FontSize,
}

/// What a [`FooterParagraph`] holds.
pub struct ParagraphView {
    pub text: Seq<char>,
    pub bold: bool,
    pub align: Option<Align>,
    pub size: FontSizeView,
}

impl View for FooterParagraph {
    type V = ParagraphView;

    open spec fn view(&self) -> ParagraphView {
        ParagraphView {
            text: self.text@,
            bold: self.bold,
            align: self.align,
            size: self.size@,
        }
    }
}

// ---------------------------------------------------------------------------
// One paragraph
// ---------------------------------------------------------------------------

/// `c` as it stands in HTML text: an angle bracket becomes its entity.
pub open spec fn escape_char(c: char) -> Seq<char> {
    if c == '<' {
        "&lt;"@
    } else if c == '>' {
        "&gt;"@
    } else {
        seq![c]
    }
}

/// `s` with its angle brackets as entities.
pub open spec fn escape(s: Seq<char>) -> Seq<char>
    decreases s.len(),
{
    if s.len() == 0 {
        seq![]
    } else {
        escape(s.drop_last()) + escape_char(s.last())
    }
}

/// The text of one `<w:t>` run: what stands between its opening and its last
/// closing, with angle brackets as entities. A run that closes itself is empty.
pub open spec fn run_text(run: Seq<char>) -> Seq<char> {
    match (find(run, ">"@), rfind(run, "</"@)) {
        (Some(gt), Some(lt)) => if !ends_with(run, "/>"@) && gt + 1 <= lt {
            escape(run.subrange(gt + 1, lt))
        } else {
            seq![]
        },
        _ => seq![],
    }
}

/// The texts of `runs` one behind the other.
pub open spec fn runs_text(runs: Seq<Seq<char>>) -> Seq<char>
    decreases runs.len(),
{
    if runs.len() == 0 {
        seq![]
    } else {
        runs_text(runs.drop_last()) + run_text(runs.last())
    }
}

/// The text of a paragraph, without white space at its ends.
pub open spec fn paragraph_text(p: Seq<char>) -> Seq<char> {
    trim(runs_text(blocks(p, "w:t"@)))
}

/// `word` is a number of a page: in digits or, in lower case, in Roman numerals.
pub open spec fn numbers_page(word: Seq<char>) -> bool {
    is_number(word) || is_roman(word)
}

/// `text` is a cached page-number field such as "Page 2 of 6", "Page ii of vi" or
/// "Page 2 of 6 pages": the word "page", a number, the word "of" and a number, in
/// whatever case, behind which at most the word for pages stands.
pub open spec fn is_page_number(text: Seq<char>) -> bool {
    let parts = words(lower(text));
    &&& parts.len() == 4 || parts.len() == 5 && (parts[4] == "page"@ || parts[4] == "pages"@)
    &&& parts[0] == "page"@
    &&& numbers_page(parts[1])
    &&& parts[2] == "of"@
    &&& numbers_page(parts[3])
}

/// The alignment that a paragraph asks for.
pub open spec fn alignment(p: Seq<char>) -> Option<Align> {
    if contains(p, "w:jc w:val=\"center\""@) {
        Some(Align::Center)
    } else if contains(p, "w:jc w:val=\"end\""@) || contains(p, "w:jc w:val=\"right\""@) {
        Some(Align::Right)
    } else if contains(p, "w:jc w:val=\"both\""@) {
        Some(Align::Justify)
    } else {
        None
    }
}

/// The largest number of half-points that is turned into points here.
pub const MAX_HALF_POINTS: u32 = 1_000_000;

/// `n` half-points in points.
pub open spec fn half_points(n: nat) -> Seq<char> {
    if n % 2 == 0 {
        decimal(n / 2)
    } else {
        decimal(n / 2) + ".5"@
    }
}

/// The font size that a paragraph asks for: its first `w:sz`, in half-points;
/// eight points where it has none.
pub open spec fn font_size(p: Seq<char>) -> FontSizeView {
    match quoted(p, "<w:sz w:val=\""@) {
        None => FontSizeView::Points("8"@),
        Some(raw) => if is_number(raw) && number(raw) <= MAX_HALF_POINTS {
            FontSizeView::Points(half_points(number(raw)))
        } else {
            FontSizeView::Raw(raw)
        },
    }
}

/// What is taken from the paragraph `p`: nothing where it has no text or holds
/// a page number, which would show a stale value.
pub open spec fn paragraph(p: Seq<char>) -> Option<ParagraphView> {
    let text = paragraph_text(p);
    if text.len() == 0 || is_page_number(text) {
        None
    } else {
        Some(
            ParagraphView {
                text,
                bold: bold_from(p, 0),
                align: alignment(p),
                size: font_size(p),
            },
        )
    }
}

/// No angle bracket stands in `s`.
pub open spec fn no_angles(s: Seq<char>) -> bool {
    forall|i: int| 0 <= i < s.len() ==> #[trigger] s[i] != '<' && s[i] != '>'
}

proof fn lemma_escape_no_angles(s: Seq<char>)
    ensures
        no_angles(escape(s)),
    decreases s.len(),
{
    if s.len() > 0 {
        lemma_escape_no_angles(s.drop_last());
        reveal_strlit("&lt;");
        reveal_strlit("&gt;");
        let front = escape(s.drop_last());
        let back = escape_char(s.last());
        assert(no_angles(back));
        assert forall|i: int| 0 <= i < (front + back).len() implies #[trigger] (front + back)[i]
            != '<' && (front + back)[i] != '>' by {
            if i >= front.len() {
                assert((front + back)[i] == back[i - front.len()]);
            } else {
                assert((front + back)[i] == front[i]);
            }
        }
    }
}

proof fn lemma_runs_no_angles(runs: Seq<Seq<char>>)
    ensures
        no_angles(runs_text(runs)),
    decreases runs.len(),
{
    if runs.len() > 0 {
        lemma_runs_no_angles(runs.drop_last());
        let run = runs.last();
        if let (Some(gt), Some(lt)) = (find(run, ">"@), rfind(run, "</"@)) {
            lemma_escape_no_angles(run.subrange(gt + 1, lt));
        }
        let front = runs_text(runs.drop_last());
        let back = run_text(run);
        assert forall|i: int| 0 <= i < (front + back).len() implies #[trigger] (front + back)[i]
            != '<' && (front + back)[i] != '>' by {
            if i >= front.len() {
                assert((front + back)[i] == back[i - front.len()]);
            } else {
                assert((front + back)[i] == front[i]);
            }
        }
    }
}

/// Whatever a footer part holds, the text taken from it brings no markup into
/// the HTML: it holds no angle bracket.
pub proof fn text_has_no_markup(p: Seq<char>)
    ensures
        paragraph(p) matches Some(v) ==> no_angles(v.text),
{
    let whole = runs_text(blocks(p, "w:t"@));
    lemma_runs_no_angles(blocks(p, "w:t"@));
    trim_start_is_suffix(whole);
    let front = trim_start(whole);
    trim_end_is_prefix(front);
    let text = trim_end(front);
    assert forall|i: int| 0 <= i < text.len() implies #[trigger] text[i] != '<' && text[i] != '>' by {
        assert(text[i] == front[i]);
        assert(front[i] == whole[i + whole.len() - front.len()]);
    }
}

/// Appends `s` to `out` with its angle brackets as entities.
fn push_escaped(out: &mut Vec<char>, s: &[char])
    ensures
        final(out)@ == old(out)@ + escape(s@),
{
    let ghost start = out@;
    proof {
        assert(s@.take(0) =~= seq![]);
        assert(start + escape(s@.take(0)) =~= start);
    }
    for i in 0..s.len()
        invariant
            out@ == start + escape(s@.take(i as int)),
    {
        let c = s[i];
        let ghost before = out@;
        if c == '<' {
            crate::text::push_all(out, "&lt;");
        } else if c == '>' {
            crate::text::push_all(out, "&gt;");
        } else {
            out.push(c);
        }
        proof {
            assert(out@ =~= before + escape_char(c));
            assert(s@.take(i + 1).drop_last() =~= s@.take(i as int));
            assert(start + (escape(s@.take(i as int)) + escape_char(c)) =~= before + escape_char(c));
        }
    }
    proof {
        assert(s@.take(s@.len() as int) =~= s@);
    }
}

/// The texts of `runs` one behind the other.
fn text_of_runs(runs: &Vec<String>) -> (r: Vec<char>)
    ensures
        r@ == runs_text(runs.deep_view()),
{
    let mut text: Vec<char> = Vec::new();
    let ghost all = runs.deep_view();
    proof {
        assert(all.take(0) =~= seq![]);
        reveal_strlit(">");
    }
    for k in 0..runs.len()
        invariant
            all == runs.deep_view(),
            all.len() == runs@.len(),
            ">"@.len() == 1,
            text@ == runs_text(all.take(k as int)),
    {
        let run: Vec<char> = chars_of(runs[k].as_str());
        let ghost before = text@;
        proof {
            assert(run@ == all[k as int]);
            assert(all.take(k + 1).drop_last() =~= all.take(k as int));
            assert(all.take(k + 1).last() == run@);
        }
        if !finishes(&run, "/>") {
            if let Some(gt) = position(&run, ">") {
                if let Some(lt) = last_position(&run, "</") {
                    if gt < lt {
                        push_escaped(&mut text, &run[gt + 1..lt]);
                    }
                }
            }
        }
        proof {
            assert(text@ =~= before + run_text(run@));
        }
    }
    proof {
        assert(all.take(all.len() as int) =~= all);
    }
    text
}

/// Whether `s` is a row of digits.
fn all_digits(s: &str) -> (r: bool)
    ensures
        r == is_number(s@),
{
    let cs: Vec<char> = chars_of(s);
    for i in 0..cs.len()
        invariant
            cs@ == s@,
            forall|j: int| 0 <= j < i ==> is_digit(#[trigger] cs@[j]),
    {
        if !char_is_digit(cs[i]) {
            return false;
        }
    }
    cs.len() > 0
}

/// Whether `word` is a number of a page.
fn page_numeral(word: &str) -> (r: bool)
    ensures
        r == numbers_page(word@),
{
    all_digits(word) || roman_number(word)
}

/// Whether `text` is a cached page-number field.
fn page_number(text: &[char]) -> (r: bool)
    ensures
        r == is_page_number(text@),
{
    let parts: Vec<String> = word_list(&lowered(text));
    proof {
        assert(parts.deep_view().len() == parts@.len());
    }
    let fits = parts.len() == 4 || (parts.len() == 5 && (same(parts[4].as_str(), "page") || same(
        parts[4].as_str(),
        "pages",
    )));
    fits && same(parts[0].as_str(), "page") && page_numeral(parts[1].as_str()) && same(
        parts[2].as_str(),
        "of",
    ) && page_numeral(parts[3].as_str())
}

/// The font size that the paragraph `p` asks for.
fn paragraph_size(p: &[char]) -> (r: FontSize)
    ensures
        r@ == font_size(p@),
{
    match quoted_after(p, "<w:sz w:val=\"") {
        None => FontSize::Points("8".to_string()),
        Some(raw) => match number_of(&chars_of(raw.as_str()), MAX_HALF_POINTS) {
            Some(n) => {
                let mut points = decimal_of((n / 2) as u128);
                if n % 2 != 0 {
                    points.append(".5");
                }
                FontSize::Points(points)
            },
            None => FontSize::Raw(raw),
        },
    }
}

/// Text and basic formatting of one footer paragraph; `None` when it is empty
/// or a stale page-number field.
pub fn parse_footer_paragraph(p: &str) -> (r: Option<FooterParagraph>)
    ensures
        match r {
            Some(f) => paragraph(p@) == Some(f@),
            None => paragraph(p@) is None,
        },
{
    let text: Vec<char> = trimmed(&text_of_runs(&split_tags(p, "w:t")));
    if text.len() == 0 || page_number(&text) {
        return None;
    }
    let cs: Vec<char> = chars_of(p);
    let align = if holds(&cs, "w:jc w:val=\"center\"") {
        Some(Align::Center)
    } else if holds(&cs, "w:jc w:val=\"end\"") || holds(&cs, "w:jc w:val=\"right\"") {
        Some(Align::Right)
    } else if holds(&cs, "w:jc w:val=\"both\"") {
        Some(Align::Justify)
    } else {
        None
    };
    Some(
        FooterParagraph {
            text: string_of(&text),
            bold: has_bold(p),
            align,
            size: paragraph_size(&cs),
        },
    )
}

// ---------------------------------------------------------------------------
// One footer part
// ---------------------------------------------------------------------------

/// What is taken from the paragraphs `ps`, in order.
pub open spec fn paragraphs(ps: Seq<Seq<char>>) -> Seq<ParagraphView>
    decreases ps.len(),
{
    if ps.len() == 0 {
        seq![]
    } else {
        match paragraph(ps.last()) {
            Some(v) => paragraphs(ps.drop_last()).push(v),
            None => paragraphs(ps.drop_last()),
        }
    }
}

/// What `ps` hold.
pub open spec fn views(ps: Seq<FooterParagraph>) -> Seq<ParagraphView> {
    ps.map_values(|p: FooterParagraph| p@)
}

/// The paragraphs of a footer part that have something to show.
pub fn footer_paragraphs(xml: &str) -> (r: Vec<FooterParagraph>)
    ensures
        views(r@) == paragraphs(blocks(xml@, "w:p"@)),
{
    let ps: Vec<String> = split_tags(xml, "w:p");
    let ghost all = ps.deep_view();
    let mut out: Vec<FooterParagraph> = Vec::new();
    proof {
        assert(all.take(0) =~= seq![]);
        assert(views(out@) =~= seq![]);
    }
    for k in 0..ps.len()
        invariant
            all == ps.deep_view(),
            all.len() == ps@.len(),
            views(out@) == paragraphs(all.take(k as int)),
    {
        proof {
            assert(all.take(k + 1).drop_last() =~= all.take(k as int));
            assert(all.take(k + 1).last() == ps@[k as int]@);
        }
        let ghost was = out@;
        if let Some(p) = parse_footer_paragraph(ps[k].as_str()) {
            out.push(p);
            proof {
                assert(views(out@) =~= views(was).push(p@));
            }
        }
    }
    proof {
        assert(all.take(all.len() as int) =~= all);
    }
    out
}

/// ` align="…"`, or nothing.
pub open spec fn align_attribute(align: Option<Align>) -> Seq<char> {
    match align {
        Some(Align::Center) => " align=\"center\""@,
        Some(Align::Right) => " align=\"right\""@,
        Some(Align::Justify) => " align=\"justify\""@,
        None => seq![],
    }
}

/// The size in points as it stands in the style: a size that was not read as a
/// number counts as eight points.
pub open spec fn points(size: FontSizeView) -> Seq<char> {
    match size {
        FontSizeView::Points(t) => t,
        FontSizeView::Raw(_) => "8"@,
    }
}

/// A footer paragraph in HTML.
pub open spec fn paragraph_html(p: ParagraphView) -> Seq<char> {
    let bold = if p.bold {
        "<b>"@ + p.text + "</b>"@
    } else {
        p.text
    };
    "<p"@ + align_attribute(p.align) + " style=\"font-size: "@ + points(p.size) + "pt\">"@ + bold
        + "</p>"@
}

/// Footer paragraphs in HTML, one behind the other.
pub open spec fn paragraphs_html(ps: Seq<ParagraphView>) -> Seq<char>
    decreases ps.len(),
{
    if ps.len() == 0 {
        seq![]
    } else {
        paragraphs_html(ps.drop_last()) + paragraph_html(ps.last())
    }
}

/// Appends `p` in HTML to `html`.
#[verifier::rlimit(40)]
fn push_paragraph(html: &mut String, p: &FooterParagraph)
    ensures
        final(html)@ == old(html)@ + paragraph_html(p@),
{
    let ghost start = html@;
    html.append("<p");
    match p.align {
        Some(Align::Center) => html.append(" align=\"center\""),
        Some(Align::Right) => html.append(" align=\"right\""),
        Some(Align::Justify) => html.append(" align=\"justify\""),
        None => {},
    }
    let ghost opened = "<p"@ + align_attribute(p@.align);
    assert(html@ =~= start + opened);
    html.append(" style=\"font-size: ");
    match &p.size {
        FontSize::Points(t) => html.append(t.as_str()),
        FontSize::Raw(_) => html.append("8"),
    }
    html.append("pt\">");
    let ghost sized = opened + " style=\"font-size: "@ + points(p@.size) + "pt\">"@;
    assert(html@ =~= start + sized);
    if p.bold {
        html.append("<b>");
        html.append(p.text.as_str());
        html.append("</b>");
        assert(html@ =~= start + (sized + ("<b>"@ + p@.text + "</b>"@)));
    } else {
        html.append(p.text.as_str());
        assert(html@ =~= start + (sized + p@.text));
    }
    html.append("</p>");
    proof {
        assert(html@ =~= start + paragraph_html(p@));
    }
}

/// Footer HTML for the paragraphs of one footer part; `None` when it has no
/// usable text.
pub fn footer_file_html(ps: &Vec<FooterParagraph>) -> (r: Option<String>)
    ensures
        match r {
            Some(html) => ps@.len() > 0 && html@ == paragraphs_html(views(ps@)),
            None => ps@.len() == 0,
        },
{
    if ps.len() == 0 {
        return None;
    }
    let mut html = String::new();
    proof {
        assert(views(ps@).take(0) =~= seq![]);
    }
    for k in 0..ps.len()
        invariant
            html@ == paragraphs_html(views(ps@).take(k as int)),
    {
        push_paragraph(&mut html, &ps[k]);
        proof {
            assert(views(ps@).take(k + 1).drop_last() =~= views(ps@).take(k as int));
            assert(views(ps@).take(k + 1).last() == ps@[k as int]@);
        }
    }
    proof {
        assert(views(ps@).take(ps@.len() as int) =~= views(ps@));
    }
    Some(html)
}

// ---------------------------------------------------------------------------
// Which part is for which page
// ---------------------------------------------------------------------------

/// A footer that the section properties refer to.
#[derive(Debug)]
pub struct FooterRef {
    /// `first`, `default` or `even`.
    pub kind: String,
    /// The footer part, a path below the document's folder.
    pub target: String,
}

/// What a [`FooterRef`] holds.
pub struct RefView {
    pub kind: Seq<char>,
    pub target: Seq<char>,
}

impl View for FooterRef {
    type V = RefView;

    open spec fn view(&self) -> RefView {
        RefView { kind: self.kind@, target: self.target@ }
    }
}

/// `s` without the slashes it begins with.
pub open spec fn without_slashes(s: Seq<char>) -> Seq<char>
    decreases s.len(),
{
    if s.len() > 0 && s[0] == '/' {
        without_slashes(s.skip(1))
    } else {
        s
    }
}

/// The footer part that the relationship `rid` of the relationships `rels`
/// leads to; nothing where there is none or it leads to no footer.
pub open spec fn target_of(rels: Seq<char>, rid: Seq<char>) -> Option<Seq<char>> {
    match find(rels, "Id=\""@ + rid + "\""@) {
        None => None,
        Some(i) => match rfind(rels.take(i), "<"@) {
            None => None,
            Some(start) => match find_from(rels, ">"@, start) {
                None => None,
                Some(end) => relationship_target(rels.subrange(start, end)),
            },
        },
    }
}

/// The target of a relationship element that leads to a footer.
pub open spec fn relationship_target(element: Seq<char>) -> Option<Seq<char>> {
    if contains(element, "relationships/footer"@) {
        match quoted(element, "Target=\""@) {
            Some(t) => Some(without_slashes(t)),
            None => None,
        }
    } else {
        None
    }
}

/// The footer that the reference element `element` names.
pub open spec fn reference(element: Seq<char>, rels: Seq<char>) -> Option<RefView> {
    match (quoted(element, "w:type=\""@), quoted(element, "r:id=\""@)) {
        (Some(kind), Some(rid)) => match target_of(rels, rid) {
            Some(target) => Some(RefView { kind, target }),
            None => None,
        },
        _ => None,
    }
}

/// The footers that the document `doc` refers to from `at` on, in order.
pub open spec fn references_from(doc: Seq<char>, rels: Seq<char>, at: int) -> Seq<RefView>
    decreases doc.len() - at,
{
    match find_from(doc, "<w:footerReference"@, at) {
        None => seq![],
        Some(start) => match find_from(doc, ">"@, start) {
            None => seq![],
            Some(end) => if at < end <= doc.len() {
                let later = references_from(doc, rels, end);
                match reference(doc.subrange(start, end), rels) {
                    Some(r) => seq![r] + later,
                    None => later,
                }
            } else {
                seq![]
            },
        },
    }
}

/// `s` without the slashes it begins with.
fn strip_slashes(s: &str) -> (r: String)
    ensures
        r@ == without_slashes(s@),
{
    let cs: Vec<char> = chars_of(s);
    let mut i: usize = 0;
    proof {
        assert(cs@.skip(0) =~= cs@);
    }
    while i < cs.len() && cs[i] == '/'
        invariant
            cs@ == s@,
            i <= cs@.len(),
            without_slashes(s@) == without_slashes(cs@.skip(i as int)),
        decreases cs@.len() - i,
    {
        proof {
            assert(cs@.skip(i as int)[0] == cs@[i as int]);
            assert(cs@.skip(i as int).skip(1) =~= cs@.skip(i + 1));
        }
        i = i + 1;
    }
    proof {
        if i < cs@.len() {
            assert(cs@.skip(i as int)[0] == cs@[i as int]);
        }
        assert(cs@.skip(i as int) =~= cs@.subrange(i as int, cs@.len() as int));
    }
    substring(&cs, i, cs.len())
}

/// The footer part that the relationship `rid` leads to.
fn find_target(rels: &[char], rid: &str) -> (r: Option<String>)
    ensures
        match r {
            Some(t) => target_of(rels@, rid@) == Some(t@),
            None => target_of(rels@, rid@) is None,
        },
{
    let mut key = "Id=\"".to_string();
    key.append(rid);
    key.append("\"");
    let i: usize = match position(rels, key.as_str()) {
        Some(i) => i,
        None => return None,
    };
    let front = &rels[0..i];
    proof {
        assert(front@ =~= rels@.take(i as int));
    }
    let start: usize = match last_position(front, "<") {
        Some(s) => s,
        None => return None,
    };
    let end: usize = match position_from(rels, ">", start) {
        Some(e) => e,
        None => return None,
    };
    let element = &rels[start..end];
    if !holds(element, "relationships/footer") {
        return None;
    }
    match quoted_after(element, "Target=\"") {
        Some(t) => Some(strip_slashes(t.as_str())),
        None => None,
    }
}

/// The footers that the document's section properties refer to
/// (`<w:footerReference w:type="first|default|even" r:id>`), in order, as far
/// as the relationships part `rels` leads to a footer.
pub fn footer_references(doc: &str, rels: &str) -> (r: Vec<FooterRef>)
    ensures
        ref_views(r@) == references_from(doc@, rels@, 0),
{
    let cs: Vec<char> = chars_of(doc);
    let rel: Vec<char> = chars_of(rels);
    let len: usize = cs.len();
    let mut out: Vec<FooterRef> = Vec::new();
    let mut at: usize = 0;
    proof {
        reveal_strlit(">");
        reveal_strlit("<w:footerReference");
        assert(ref_views(out@) + references_from(doc@, rels@, 0) =~= references_from(
            doc@,
            rels@,
            0,
        ));
    }
    loop
        invariant
            cs@ == doc@,
            rel@ == rels@,
            len == cs@.len(),
            at <= len,
            references_from(doc@, rels@, 0) == ref_views(out@) + references_from(
                doc@,
                rels@,
                at as int,
            ),
        decreases len - at,
    {
        let start: usize = match position_from(&cs, "<w:footerReference", at) {
            Some(s) => s,
            None => {
                proof {
                    assert(references_from(doc@, rels@, 0) =~= ref_views(out@));
                }
                return out;
            },
        };
        let end: usize = match position_from(&cs, ">", start) {
            Some(e) => e,
            None => {
                proof {
                    assert(references_from(doc@, rels@, 0) =~= ref_views(out@));
                }
                return out;
            },
        };
        proof {
            lemma_reference_end(doc@, at as int);
        }
        let element = &cs[start..end];
        let ghost was = ref_views(out@);
        let ghost later = references_from(doc@, rels@, end as int);
        if let Some(kind) = quoted_after(element, "w:type=\"") {
            if let Some(rid) = quoted_after(element, "r:id=\"") {
                if let Some(target) = find_target(&rel, rid.as_str()) {
                    let found = FooterRef { kind, target };
                    out.push(found);
                    proof {
                        assert(ref_views(out@) =~= was.push(found@));
                        assert(was.push(found@) + later =~= was + (seq![found@] + later));
                    }
                }
            }
        }
        at = end;
    }
}

/// What `rs` hold.
pub open spec fn ref_views(rs: Seq<FooterRef>) -> Seq<RefView> {
    rs.map_values(|r: FooterRef| r@)
}

proof fn lemma_reference_end(doc: Seq<char>, at: int)
    requires
        0 <= at,
    ensures
        find_from(doc, "<w:footerReference"@, at) matches Some(start) ==> at <= start && (find_from(
            doc,
            ">"@,
            start,
        ) matches Some(end) ==> start < end < doc.len()),
{
    reveal_strlit(">");
    reveal_strlit("<w:footerReference");
    find_is_first(doc, "<w:footerReference"@, at);
    if let Some(start) = find_from(doc, "<w:footerReference"@, at) {
        find_is_first(doc, ">"@, start);
        assert(doc.subrange(start, start + "<w:footerReference"@.len())[0] == '<');
        if let Some(end) = find_from(doc, ">"@, start) {
            assert(doc.subrange(end, end + 1)[0] == '>');
        }
    }
}

/// A footer that the section properties refer to, with its HTML where its part
/// could be read and has usable text.
#[derive(Debug)]
pub struct FoundFooter {
    pub kind: String,
    pub html: Option<String>,
}

/// What a [`FoundFooter`] holds.
pub struct FoundView {
    pub kind: Seq<char>,
    pub html: Option<Seq<char>>,
}

impl View for FoundFooter {
    type V = FoundView;

    open spec fn view(&self) -> FoundView {
        FoundView { kind: self.kind@, html: self.html.deep_view() }
    }
}

/// What `fs` hold.
pub open spec fn found_views(fs: Seq<FoundFooter>) -> Seq<FoundView> {
    fs.map_values(|f: FoundFooter| f@)
}

/// The document's footers: the one for page one and the one for the others.
#[derive(Debug)]
pub struct Footers {
    pub first: Option<String>,
    pub default: Option<String>,
}

/// The first HTML among the footers of `kind`.
pub open spec fn first_of(fs: Seq<FoundView>, kind: Seq<char>) -> Option<Seq<char>>
    decreases fs.len(),
{
    if fs.len() == 0 {
        None
    } else if first_of(fs.drop_last(), kind) is Some {
        first_of(fs.drop_last(), kind)
    } else if fs.last().kind == kind {
        fs.last().html
    } else {
        None
    }
}

/// The footer for the pages other than the first: the footer for even pages
/// counts only where there is no default.
pub open spec fn default_of(fs: Seq<FoundView>) -> Option<Seq<char>> {
    if first_of(fs, "default"@) is Some {
        first_of(fs, "default"@)
    } else {
        first_of(fs, "even"@)
    }
}

/// What becomes of the footers that the section properties refer to.
#[derive(Debug)]
pub enum Salvage {
    /// These are the document's footers.
    Found(Footers),
    /// None of the references gave a footer: the document's folder is searched
    /// for footer parts instead.
    SearchFolder,
}

/// The document's footers classified as first-page and default, from those
/// that its section properties refer to.
pub fn salvage_footers_classified(found: Vec<FoundFooter>) -> (r: Salvage)
    ensures
        match r {
            Salvage::Found(f) => {
                &&& f.first.deep_view() == first_of(found_views(found@), "first"@)
                &&& f.default.deep_view() == default_of(found_views(found@))
                &&& f.first is Some || f.default is Some
            },
            Salvage::SearchFolder => first_of(found_views(found@), "first"@) is None && default_of(
                found_views(found@),
            ) is None,
        },
{
    let mut first: Option<String> = None;
    let mut default: Option<String> = None;
    let mut even: Option<String> = None;
    let ghost fs = found_views(found@);
    proof {
        reveal_strlit("first");
        reveal_strlit("default");
        reveal_strlit("even");
        assert("first"@.len() != "default"@.len());
        assert("first"@.len() != "even"@.len());
        assert("default"@.len() != "even"@.len());
        assert(fs.take(0) =~= seq![]);
    }
    for k in 0..found.len()
        invariant
            fs == found_views(found@),
            "first"@ != "default"@,
            "first"@ != "even"@,
            "default"@ != "even"@,
            first.deep_view() == first_of(fs.take(k as int), "first"@),
            default.deep_view() == first_of(fs.take(k as int), "default"@),
            even.deep_view() == first_of(fs.take(k as int), "even"@),
    {
        let f = &found[k];
        proof {
            assert(fs.take(k + 1).drop_last() =~= fs.take(k as int));
            assert(fs.take(k + 1).last() == f@);
        }
        if same(f.kind.as_str(), "first") {
            if first.is_none() {
                first = f.html.clone();
            }
        } else if same(f.kind.as_str(), "default") {
            if default.is_none() {
                default = f.html.clone();
            }
        } else if same(f.kind.as_str(), "even") {
            if even.is_none() {
                even = f.html.clone();
            }
        }
    }
    proof {
        assert(fs.take(fs.len() as int) =~= fs);
    }
    if default.is_none() {
        default = even;
    }
    if first.is_none() && default.is_none() {
        Salvage::SearchFolder
    } else {
        Salvage::Found(Footers { first, default })
    }
}

// ---------------------------------------------------------------------------
// Without references
// ---------------------------------------------------------------------------

/// `name` is the file name of a footer part.
pub open spec fn is_footer_name(name: Seq<char>) -> bool {
    starts_with(name, "footer"@) && ends_with(name, ".xml"@)
}

/// The names of footer parts among `names`.
pub open spec fn footer_names(names: Seq<Seq<char>>) -> Seq<Seq<char>>
    decreases names.len(),
{
    if names.len() == 0 {
        seq![]
    } else if is_footer_name(names.last()) {
        footer_names(names.drop_last()).push(names.last())
    } else {
        footer_names(names.drop_last())
    }
}

/// The digits of `s`, one behind the other.
pub open spec fn digits_of(s: Seq<char>) -> Seq<char>
    decreases s.len(),
{
    if s.len() == 0 {
        seq![]
    } else if is_digit(s.last()) {
        digits_of(s.drop_last()).push(s.last())
    } else {
        digits_of(s.drop_last())
    }
}

/// What a footer part is ordered by: the number in its name, where that is
/// there and fits 32 bits, and then its name without `.xml`.
pub open spec fn file_key(name: Seq<char>) -> KeyView {
    let stem = name.take(name.len() - 4);
    let digits = digits_of(stem);
    KeyView {
        number: if is_number(digits) && number(digits) <= u32::MAX {
            number(digits)
        } else {
            0
        },
        text: stem,
    }
}

/// What the footer parts `names` are ordered by.
pub open spec fn file_keys(names: Seq<Seq<char>>) -> Seq<KeyView> {
    names.map_values(|n: Seq<char>| file_key(n))
}

/// The digits of `s`.
fn only_digits(s: &[char]) -> (r: Vec<char>)
    ensures
        r@ == digits_of(s@),
{
    let mut out: Vec<char> = Vec::new();
    proof {
        assert(s@.take(0) =~= seq![]);
    }
    for i in 0..s.len()
        invariant
            out@ == digits_of(s@.take(i as int)),
    {
        proof {
            assert(s@.take(i + 1).drop_last() =~= s@.take(i as int));
        }
        if char_is_digit(s[i]) {
            out.push(s[i]);
        }
    }
    proof {
        assert(s@.take(s@.len() as int) =~= s@);
    }
    out
}

/// The footer parts among the files `names` of the document's folder, by their
/// number and then by their name.
pub fn footer_files(names: &Vec<String>) -> (r: Vec<String>)
    ensures
        exists|order: Seq<usize>|
            is_order(file_keys(footer_names(names.deep_view())), order) && r.deep_view()
                == #[trigger] arrange(footer_names(names.deep_view()), order),
{
    let ghost all = names.deep_view();
    let mut kept: Vec<String> = Vec::new();
    let mut keys: Vec<SortKey> = Vec::new();
    proof {
        reveal_strlit(".xml");
        assert(all.take(0) =~= seq![]);
        assert(kept.deep_view() =~= seq![]);
        assert(key_views(keys@) =~= file_keys(kept.deep_view()));
    }
    for k in 0..names.len()
        invariant
            all == names.deep_view(),
            all.len() == names@.len(),
            ".xml"@.len() == 4,
            kept.deep_view() == footer_names(all.take(k as int)),
            key_views(keys@) == file_keys(kept.deep_view()),
    {
        let name: Vec<char> = chars_of(names[k].as_str());
        proof {
            assert(all.take(k + 1).drop_last() =~= all.take(k as int));
            assert(all.take(k + 1).last() == name@);
        }
        if begins(&name, "footer") && finishes(&name, ".xml") {
            let stem = &name[0..name.len() - 4];
            let number = match number_of(&only_digits(stem), u32::MAX) {
                Some(n) => n,
                None => 0,
            };
            let key = SortKey { number, text: string_of(stem) };
            let ghost was = kept.deep_view();
            let ghost were = key_views(keys@);
            keys.push(key);
            kept.push(names[k].clone());
            proof {
                assert(stem@ =~= name@.take(name@.len() - 4));
                assert(key@ == file_key(name@));
                assert(kept.deep_view() =~= was.push(name@));
                assert(key_views(keys@) =~= were.push(key@));
                assert(file_keys(was.push(name@)) =~= file_keys(was).push(file_key(name@)));
            }
        }
    }
    proof {
        assert(all.take(all.len() as int) =~= all);
    }
    let order: Vec<usize> = stable_order(&keys);
    let mut out: Vec<String> = Vec::new();
    let ghost parts = kept.deep_view();
    for k in 0..order.len()
        invariant
            parts == kept.deep_view(),
            key_views(keys@) == file_keys(parts),
            is_order(key_views(keys@), order@),
            out.deep_view() == arrange(parts, order@).take(k as int),
    {
        let at: usize = order[k];
        let ghost was = out.deep_view();
        out.push(kept[at].clone());
        proof {
            assert(out.deep_view() =~= was.push(parts[at as int]));
            assert(arrange(parts, order@).take(k + 1) =~= arrange(parts, order@).take(
                k as int,
            ).push(parts[at as int]));
        }
    }
    proof {
        assert(arrange(parts, order@).take(order@.len() as int) =~= arrange(parts, order@));
        assert(is_order(file_keys(footer_names(names.deep_view())), order@));
    }
    out
}

/// The HTML of `parts` one behind the other, each different one once.
pub open spec fn distinct_html(parts: Seq<Option<Seq<char>>>) -> Seq<char>
    decreases parts.len(),
{
    if parts.len() == 0 {
        seq![]
    } else {
        let front = distinct_html(parts.drop_last());
        match parts.last() {
            Some(html) => if parts.drop_last().contains(Some(html)) {
                front
            } else {
                front + html
            },
            None => front,
        }
    }
}

/// Nothing is lost: the HTML of each part stands in the whole.
pub proof fn no_footer_is_lost(parts: Seq<Option<Seq<char>>>, i: int)
    requires
        0 <= i < parts.len(),
    ensures
        parts[i] matches Some(html) ==> contains(distinct_html(parts), html),
    decreases parts.len(),
{
    let front = parts.drop_last();
    let before = distinct_html(front);
    let whole = distinct_html(parts);
    if let Some(html) = parts[i] {
        find_is_first(whole, html, 0);
        let at = if i < front.len() {
            assert(front[i] == parts[i]);
            no_footer_is_lost(front, i);
            find_is_first(before, html, 0);
            find(before, html)->0
        } else if front.contains(Some(html)) {
            let j = choose|j: int| 0 <= j < front.len() && front[j] == Some(html);
            no_footer_is_lost(front, j);
            find_is_first(before, html, 0);
            find(before, html)->0
        } else {
            before.len() as int
        };
        assert(whole.subrange(at, at + html.len()) =~= html) by {
            if at + html.len() <= before.len() {
                assert(before.subrange(at, at + html.len()) =~= html);
                assert(whole.subrange(at, at + html.len()) =~= before.subrange(at, at + html.len()));
            }
        }
        assert(occurs_at(whole, html, at));
    }
}

/// What `parts` hold.
pub open spec fn html_views(parts: Seq<Option<String>>) -> Seq<Option<Seq<char>>> {
    parts.map_values(|p: Option<String>| p.deep_view())
}

/// The footers of a document whose section properties refer to none: each
/// different footer part as default content, so that nothing is lost.
pub fn footers_without_references(parts: Vec<Option<String>>) -> (r: Footers)
    ensures
        r.first is None,
        match r.default {
            Some(html) => html@.len() > 0 && html@ == distinct_html(html_views(parts@)),
            None => distinct_html(html_views(parts@)).len() == 0,
        },
{
    let ghost hs = html_views(parts@);
    let mut html = String::new();
    proof {
        assert(hs.take(0) =~= seq![]);
    }
    for k in 0..parts.len()
        invariant
            hs == html_views(parts@),
            html@ == distinct_html(hs.take(k as int)),
    {
        proof {
            assert(hs.take(k + 1).drop_last() =~= hs.take(k as int));
            assert(hs.take(k + 1).last() == parts@[k as int].deep_view());
        }
        if let Some(part) = &parts[k] {
            let mut seen = false;
            for j in 0..k
                invariant
                    k < parts@.len(),
                    hs == html_views(parts@),
                    seen <==> exists|i: int| 0 <= i < j && #[trigger] hs[i] == Some(part@),
            {
                proof {
                    assert(hs[j as int] == parts@[j as int].deep_view());
                }
                if let Some(earlier) = &parts[j] {
                    if same(earlier.as_str(), part.as_str()) {
                        seen = true;
                    }
                }
            }
            proof {
                assert(seen <==> hs.take(k as int).contains(Some(part@))) by {
                    if seen {
                        let i = choose|i: int| 0 <= i < k && #[trigger] hs[i] == Some(part@);
                        assert(hs.take(k as int)[i] == Some(part@));
                    }
                    if hs.take(k as int).contains(Some(part@)) {
                        let i = choose|i: int|
                            0 <= i < k && hs.take(k as int)[i] == Some(part@);
                        assert(hs[i] == Some(part@));
                    }
                }
            }
            if !seen {
                html.append(part.as_str());
            }
        }
    }
    proof {
        assert(hs.take(hs.len() as int) =~= hs);
    }
    if chars_of(html.as_str()).len() == 0 {
        Footers { first: None, default: None }
    } else {
        Footers { first: None, default: Some(html) }
    }
}

// ---------------------------------------------------------------------------
// Laws
// ---------------------------------------------------------------------------

/// Text is escaped character by character: the two angle brackets become their
/// entities and every other character stays as it is.
pub proof fn escape_goes_by_character(a: Seq<char>, c: char)
    ensures
        escape(a.push(c)) == escape(a) + if c == '<' {
            "&lt;"@
        } else if c == '>' {
            "&gt;"@
        } else {
            seq![c]
        },
        escape(Seq::<char>::empty()).len() == 0,
{
    assert(a.push(c).drop_last() =~= a);
}

/// A run with a text between its tags gives that text, escaped, whatever the
/// text is and whatever stands in the opening tag; a run that closes itself gives
/// none.
pub proof fn run_gives_its_text(open: Seq<char>, text: Seq<char>, name: Seq<char>)
    requires
        forall|i: int| 0 <= i < open.len() ==> #[trigger] open[i] != '>',
        name.len() > 0,
        forall|i: int| 0 <= i < name.len() ==> #[trigger] name[i] != '/' && name[i] != '<',
    ensures
        run_text(open + seq!['>'] + text + seq!['<', '/'] + name + seq!['>']) == escape(text),
        run_text(open + seq!['/', '>']).len() == 0,
{
    reveal_strlit(">");
    reveal_strlit("</");
    reveal_strlit("/>");
    let run = open + seq!['>'] + text + seq!['<', '/'] + name + seq!['>'];
    let gt = open.len() as int;
    let lt = gt + 1 + text.len();
    find_is_first(run, ">"@, 0);
    assert(run.subrange(gt, gt + 1) =~= ">"@);
    assert(occurs_at(run, ">"@, gt));
    let found = find(run, ">"@)->0;
    crate::text::occurrence_goes_by_character(run, ">"@, found);
    assert(run[found + 0] == ">"@[0]);
    if found < gt {
        assert(run[found] == open[found]);
    }
    crate::text::rfind_is_last(run, "</"@, run.len() as int);
    assert(run.subrange(lt, lt + 2) =~= "</"@);
    assert(occurs_at(run, "</"@, lt));
    let last = rfind(run, "</"@)->0;
    crate::text::occurrence_goes_by_character(run, "</"@, last);
    assert(run[last + 0] == "</"@[0]);
    assert(run[last + 1] == "</"@[1]);
    if last > lt {
        if last == lt + 1 {
            assert(run[last] == '/');
        } else if last < run.len() - 1 {
            assert(run[last] == name[last - lt - 2]);
        }
        assert(false);
    }
    if ends_with(run, "/>"@) {
        crate::text::occurrence_goes_by_character(run, "/>"@, run.len() - 2);
        assert(run[run.len() - 2 + 0] == "/>"@[0]);
        assert(run[run.len() - 2] == name[name.len() - 1]);
    }
    assert(run.subrange(gt + 1, lt) =~= text);
    let short = open + seq!['/', '>'];
    assert(short.subrange(short.len() - 2, short.len() as int) =~= "/>"@);
}

/// The text of runs is that of each, one behind the other.
pub proof fn runs_go_one_by_one(runs: Seq<Seq<char>>, run: Seq<char>)
    ensures
        runs_text(runs.push(run)) == runs_text(runs) + run_text(run),
        runs_text(Seq::<Seq<char>>::empty()).len() == 0,
{
    assert(runs.push(run).drop_last() =~= runs);
}

/// A text is a page number where it reads `page`, a number, `of` and a number,
/// whatever its case and white space, with or without `page` or `pages` behind
/// it. The numbers are in digits or in Roman numerals.
pub proof fn page_numbers_are_fields(text: Seq<char>)
    ensures
        is_page_number(text) <==> exists|a: Seq<char>, b: Seq<char>|
            #![trigger is_number(a), is_number(b)]
            {
                let fields = words(lower(text));
                &&& is_number(a) || is_roman(a)
                &&& is_number(b) || is_roman(b)
                &&& {
                    ||| fields == seq!["page"@, a, "of"@, b]
                    ||| fields == seq!["page"@, a, "of"@, b, "page"@]
                    ||| fields == seq!["page"@, a, "of"@, b, "pages"@]
                }
            },
{
    let fields = words(lower(text));
    if is_page_number(text) {
        let a = fields[1];
        let b = fields[3];
        assert(is_number(a) || !is_number(a));
        assert(is_number(b) || !is_number(b));
        if fields.len() == 4 {
            assert(fields =~= seq!["page"@, a, "of"@, b]);
        } else {
            assert(fields =~= seq!["page"@, a, "of"@, b, fields[4]]);
        }
    }
}

/// What a paragraph is read as: the trimmed text of its runs, unless that is
/// empty or a page number, with its bold property, the alignment that it names
/// and its font size.
pub proof fn paragraph_has_its_text(p: Seq<char>)
    ensures
        ({
            let text = trim(runs_text(blocks(p, "w:t"@)));
            &&& paragraph(p) is Some <==> text.len() > 0 && !is_page_number(text)
            &&& paragraph(p) matches Some(v) ==> {
                &&& v.text == text
                &&& v.bold == bold_from(p, 0)
                &&& (v.align == Some(Align::Center) <==> contains(p, "w:jc w:val=\"center\""@))
                &&& (v.align == Some(Align::Right) <==> !contains(p, "w:jc w:val=\"center\""@) && (
                contains(p, "w:jc w:val=\"end\""@) || contains(p, "w:jc w:val=\"right\""@)))
                &&& (v.align is None ==> !contains(p, "w:jc w:val=\"both\""@))
                &&& (v.align == Some(Align::Justify) ==> contains(p, "w:jc w:val=\"both\""@))
            }
        }),
{
}

/// The font size is half of what the document gives in half-points, and eight
/// points where it gives none.
pub proof fn font_size_is_half(p: Seq<char>, raw: Seq<char>, n: nat)
    requires
        paragraph(p) is Some,
        quoted(p, "<w:sz w:val=\""@) is Some ==> quoted(p, "<w:sz w:val=\""@) == Some(raw),
    ensures
        quoted(p, "<w:sz w:val=\""@) is None ==> paragraph(p)->0.size == FontSizeView::Points(
            "8"@,
        ),
        quoted(p, "<w:sz w:val=\""@) is Some && is_number(raw) && number(raw) == 2 * n && n
            <= 500_000 ==> paragraph(p)->0.size == FontSizeView::Points(decimal(n)),
        quoted(p, "<w:sz w:val=\""@) is Some && is_number(raw) && number(raw) == 2 * n + 1 && n
            < 500_000 ==> paragraph(p)->0.size == FontSizeView::Points(decimal(n) + ".5"@),
        quoted(p, "<w:sz w:val=\""@) is Some && !is_number(raw) ==> paragraph(p)->0.size
            == FontSizeView::Raw(raw),
{
}

/// No usable paragraph of a footer part is lost and their order is kept: what is
/// taken from two lists of blocks is what is taken from the first and then what
/// is taken from the second, and of a single block it is its paragraph, where it
/// has one.
pub proof fn paragraphs_of_parts(a: Seq<Seq<char>>, b: Seq<Seq<char>>)
    ensures
        paragraphs(a + b) == paragraphs(a) + paragraphs(b),
        a.len() == 1 ==> paragraphs(a) == match paragraph(a[0]) {
            Some(v) => seq![v],
            None => seq![],
        },
        a.len() == 0 ==> paragraphs(a).len() == 0,
    decreases b.len(),
{
    if a.len() == 1 {
        assert(a.drop_last() =~= seq![]);
        assert(paragraphs(a.drop_last()) =~= seq![]);
        assert(a.last() == a[0]);
    }
    if b.len() == 0 {
        assert(a + b =~= a);
        assert(paragraphs(a) + paragraphs(b) =~= paragraphs(a));
    } else {
        paragraphs_of_parts(a, b.drop_last());
        assert((a + b).drop_last() =~= a + b.drop_last());
        assert((a + b).last() == b.last());
        assert(paragraphs(a + b) =~= paragraphs(a) + paragraphs(b));
    }
}

/// There are as many paragraphs as blocks with usable text, and the paragraph of
/// each such block is there.
pub proof fn each_usable_block_counts(ps: Seq<Seq<char>>)
    ensures
        paragraphs(ps).len() == ps.filter(|p: Seq<char>| paragraph(p) is Some).len(),
        forall|i: int|
            0 <= i < ps.len() && paragraph(#[trigger] ps[i]) is Some ==> paragraphs(ps).contains(
                paragraph(ps[i])->0,
            ),
    decreases ps.len(),
{
    reveal(Seq::filter);
    if ps.len() > 0 {
        let front = ps.drop_last();
        each_usable_block_counts(front);
        assert forall|i: int| 0 <= i < ps.len() && paragraph(#[trigger] ps[i]) is Some implies
            paragraphs(ps).contains(paragraph(ps[i])->0) by {
            if i < front.len() {
                assert(front[i] == ps[i]);
                let v = paragraph(ps[i])->0;
                let j = choose|j: int| 0 <= j < paragraphs(front).len() && paragraphs(front)[j] == v;
                assert(paragraphs(ps)[j] == v);
            } else {
                assert(paragraphs(ps)[paragraphs(ps).len() - 1] == paragraph(ps[i])->0);
            }
        }
    }
}

/// A footer part's HTML is that of its paragraphs, one behind the other. A
/// paragraph stands whole in its element, with its size, in bold where it is bold
/// and aligned where it is aligned.
pub proof fn html_goes_by_paragraph(ps: Seq<ParagraphView>, p: ParagraphView)
    ensures
        paragraphs_html(Seq::<ParagraphView>::empty()).len() == 0,
        ({
            let text = if p.bold {
                "<b>"@ + p.text + "</b>"@
            } else {
                p.text
            };
            let align = match p.align {
                Some(Align::Center) => " align=\"center\""@,
                Some(Align::Right) => " align=\"right\""@,
                Some(Align::Justify) => " align=\"justify\""@,
                None => Seq::<char>::empty(),
            };
            let size = match p.size {
                FontSizeView::Points(t) => t,
                FontSizeView::Raw(_) => "8"@,
            };
            paragraphs_html(ps.push(p)) == paragraphs_html(ps) + ("<p"@ + align
                + " style=\"font-size: "@ + size + "pt\">"@ + text + "</p>"@)
        }),
{
    assert(ps.push(p).drop_last() =~= ps);
}

/// All slashes that a path begins with are taken off, and no other ones.
pub proof fn leading_slashes_go(slashes: Seq<char>, path: Seq<char>)
    requires
        forall|i: int| 0 <= i < slashes.len() ==> #[trigger] slashes[i] == '/',
        path.len() > 0 ==> path[0] != '/',
    ensures
        without_slashes(slashes + path) == path,
    decreases slashes.len(),
{
    if slashes.len() == 0 {
        assert(slashes + path =~= path);
    } else {
        let s = slashes + path;
        assert(s[0] == slashes[0]);
        assert(s.skip(1) =~= slashes.skip(1) + path);
        leading_slashes_go(slashes.skip(1), path);
    }
}

/// The target of a relationship is read from the element with its identifier:
/// its path without leading slashes, if the relationship is one to a footer.
pub proof fn target_is_in_its_element(
    front: Seq<char>,
    element: Seq<char>,
    rest: Seq<char>,
    rid: Seq<char>,
    at: int,
)
    requires
        forall|i: int|
            0 <= i < element.len() ==> #[trigger] element[i] != '<' && element[i] != '>',
        occurs_at(element, "Id=\""@ + rid + "\""@, at),
        forall|j: int|
            0 <= j < front.len() + 1 + at ==> !#[trigger] occurs_at(
                front + seq!['<'] + element + seq!['>'] + rest,
                "Id=\""@ + rid + "\""@,
                j,
            ),
    ensures
        target_of(front + seq!['<'] + element + seq!['>'] + rest, rid) == if contains(
            seq!['<'] + element,
            "relationships/footer"@,
        ) {
            match quoted(seq!['<'] + element, "Target=\""@) {
                Some(t) => Some(without_slashes(t)),
                None => None,
            }
        } else {
            None
        },
{
    reveal_strlit("<");
    reveal_strlit(">");
    let rels = front + seq!['<'] + element + seq!['>'] + rest;
    let key = "Id=\""@ + rid + "\""@;
    let start = front.len() as int;
    let end = start + 1 + element.len();
    let i = start + 1 + at;
    find_is_first(rels, key, 0);
    assert(rels.subrange(i, i + key.len()) =~= element.subrange(at, at + key.len()));
    assert(occurs_at(rels, key, i));
    assert(find(rels, key) == Some(i));
    let before = rels.take(i);
    crate::text::rfind_is_last(before, "<"@, before.len() as int);
    assert(before.subrange(start, start + 1) =~= "<"@);
    assert(occurs_at(before, "<"@, start));
    let last = rfind(before, "<"@)->0;
    crate::text::occurrence_goes_by_character(before, "<"@, last);
    assert(before[last + 0] == "<"@[0]);
    if last > start {
        assert(before[last] == element[last - start - 1]);
    }
    find_is_first(rels, ">"@, start);
    assert(rels.subrange(end, end + 1) =~= ">"@);
    assert(occurs_at(rels, ">"@, end));
    let gt = find_from(rels, ">"@, start)->0;
    crate::text::occurrence_goes_by_character(rels, ">"@, gt);
    assert(rels[gt + 0] == ">"@[0]);
    if gt < end {
        if gt > start {
            assert(rels[gt] == element[gt - start - 1]);
        }
        assert(false);
    }
    assert(rels.subrange(start, end) =~= seq!['<'] + element);
}

/// Without its identifier there is no target.
pub proof fn no_target_without_relationship(rels: Seq<char>, rid: Seq<char>)
    requires
        !contains(rels, "Id=\""@ + rid + "\""@),
    ensures
        target_of(rels, rid) is None,
{
}

/// The references are those of the reference elements, one after the other: from
/// `at` on, that of the first such element, where its type, its identifier and
/// its target are given, and then those behind it.
pub proof fn references_go_on_behind_each(
    doc: Seq<char>,
    rels: Seq<char>,
    at: int,
    start: int,
    end: int,
)
    requires
        0 <= at <= start < end < doc.len(),
        occurs_at(doc, "<w:footerReference"@, start),
        forall|j: int| at <= j < start ==> !#[trigger] occurs_at(doc, "<w:footerReference"@, j),
        doc[end] == '>',
        forall|j: int| start <= j < end ==> #[trigger] doc[j] != '>',
    ensures
        ({
            let element = doc.subrange(start, end);
            let kind = quoted(element, "w:type=\""@);
            let rid = quoted(element, "r:id=\""@);
            let later = references_from(doc, rels, end);
            references_from(doc, rels, at) == if kind is Some && rid is Some && target_of(
                rels,
                rid->0,
            ) is Some {
                seq![RefView { kind: kind->0, target: target_of(rels, rid->0)->0 }] + later
            } else {
                later
            }
        }),
{
    reveal_strlit(">");
    find_is_first(doc, "<w:footerReference"@, at);
    find_is_first(doc, ">"@, start);
    assert(doc.subrange(end, end + 1) =~= ">"@);
    assert(occurs_at(doc, ">"@, end));
    let gt = find_from(doc, ">"@, start)->0;
    crate::text::occurrence_goes_by_character(doc, ">"@, gt);
    assert(doc[gt + 0] == ">"@[0]);
}

/// Where no reference element stands from `at` on there are no references.
pub proof fn no_references_without_elements(doc: Seq<char>, rels: Seq<char>, at: int)
    requires
        0 <= at,
        forall|j: int| at <= j ==> !#[trigger] occurs_at(doc, "<w:footerReference"@, j),
    ensures
        references_from(doc, rels, at).len() == 0,
{
    find_is_first(doc, "<w:footerReference"@, at);
}

/// The footer of a kind is the first of that kind that has any content, and there
/// is none where none of that kind has.
pub proof fn first_footer_counts(fs: Seq<FoundView>, kind: Seq<char>)
    ensures
        match first_of(fs, kind) {
            Some(html) => exists|i: int|
                0 <= i < fs.len() && (#[trigger] fs[i]).kind == kind && fs[i].html == Some(html)
                    && forall|j: int|
                    0 <= j < i && (#[trigger] fs[j]).kind == kind ==> fs[j].html is None,
            None => forall|j: int|
                0 <= j < fs.len() && (#[trigger] fs[j]).kind == kind ==> fs[j].html is None,
        },
    decreases fs.len(),
{
    if fs.len() > 0 {
        let front = fs.drop_last();
        first_footer_counts(front, kind);
        if first_of(front, kind) is Some {
            let html = first_of(front, kind)->0;
            let i = choose|i: int|
                0 <= i < front.len() && (#[trigger] front[i]).kind == kind && front[i].html == Some(
                    html,
                ) && forall|j: int|
                    0 <= j < i && (#[trigger] front[j]).kind == kind ==> front[j].html is None;
            assert(fs[i] == front[i]);
            assert forall|j: int| 0 <= j < i && (#[trigger] fs[j]).kind == kind implies
                fs[j].html is None by {
                assert(fs[j] == front[j]);
            }
        } else {
            assert forall|j: int| 0 <= j < front.len() && (#[trigger] fs[j]).kind == kind implies
                fs[j].html is None by {
                assert(fs[j] == front[j]);
            }
            assert(fs.last() == fs[fs.len() - 1]);
        }
    }
}

/// The default footer is the first of the kind `default` that has content, and
/// only where there is none the first of the kind `even`.
pub proof fn even_footer_stands_in(fs: Seq<FoundView>)
    ensures
        first_of(fs, "default"@) is Some ==> default_of(fs) == first_of(fs, "default"@),
        first_of(fs, "default"@) is None ==> default_of(fs) == first_of(fs, "even"@),
{
}

proof fn lemma_footer_name(name: Seq<char>)
    requires
        is_footer_name(name),
    ensures
        name == "footer"@ + name.subrange(6, name.len() - 4) + ".xml"@,
{
    reveal_strlit("footer");
    reveal_strlit(".xml");
    let n = name.len() - 4;
    assert(name.subrange(0, 6) == "footer"@);
    assert(name.subrange(n, n + 4) == ".xml"@);
    assert(name.subrange(n, n + 4)[0] == name[n]);
    if n < 6 {
        assert(name.subrange(0, 6)[n] == name[n]);
        assert("footer"@[n] != '.');
    }
    assert(name =~= name.subrange(0, 6) + name.subrange(6, n) + name.subrange(n, n + 4));
}

/// A footer part is named `footer`, anything and `.xml`.
pub proof fn footer_parts_are_named(name: Seq<char>)
    ensures
        is_footer_name(name) <==> exists|mid: Seq<char>|
            name == #[trigger] ("footer"@ + mid + ".xml"@),
{
    if is_footer_name(name) {
        lemma_footer_name(name);
    }
    if exists|mid: Seq<char>| name == #[trigger] ("footer"@ + mid + ".xml"@) {
        let mid = choose|mid: Seq<char>| name == #[trigger] ("footer"@ + mid + ".xml"@);
        let n = name.len() - ".xml"@.len();
        assert(name.subrange(0, "footer"@.len() as int) =~= "footer"@);
        assert(name.subrange(n, name.len() as int) =~= ".xml"@);
    }
}

/// Of file names those of footer parts are kept, all of them, in their order; of
/// characters the digits.
pub proof fn kept_names_are_footers(names: Seq<Seq<char>>, name: Seq<char>)
    ensures
        footer_names(names.push(name)) == if starts_with(name, "footer"@) && ends_with(
            name,
            ".xml"@,
        ) {
            footer_names(names).push(name)
        } else {
            footer_names(names)
        },
        footer_names(Seq::<Seq<char>>::empty()).len() == 0,
        forall|s: Seq<char>, c: char| #[trigger]
            digits_of(s.push(c)) == if '0' <= c <= '9' {
                digits_of(s).push(c)
            } else {
                digits_of(s)
            },
        digits_of(Seq::<char>::empty()).len() == 0,
{
    assert(names.push(name).drop_last() =~= names);
    assert forall|s: Seq<char>, c: char| #[trigger] digits_of(s.push(c)) == if '0' <= c <= '9' {
        digits_of(s).push(c)
    } else {
        digits_of(s)
    } by {
        assert(s.push(c).drop_last() =~= s);
    }
}

/// The number that the digits in `name` make, where there are any and it is not
/// too large, else nothing.
pub open spec fn number_in(name: Seq<char>) -> nat {
    if digits_of(name).len() > 0 && number(digits_of(name)) <= u32::MAX {
        number(digits_of(name))
    } else {
        0
    }
}

/// Footer parts go by the number in their names, and parts of the same number by
/// their names: of two files that stand one before the other the first has no
/// greater number, and with the same number no greater name. The ending does not
/// count.
pub proof fn footer_files_go_by_number(names: Seq<Seq<char>>, order: Seq<usize>, a: int, b: int)
    requires
        is_order(file_keys(footer_names(names)), order),
        0 <= a <= b < order.len(),
    ensures
        ({
            let files = arrange(footer_names(names), order);
            let x = files[a].take(files[a].len() - 4);
            let y = files[b].take(files[b].len() - 4);
            &&& number_in(x) <= number_in(y)
            &&& number_in(x) == number_in(y) ==> !crate::text::text_lt(y, x)
            &&& x == y ==> order[a] <= order[b]
            &&& files.len() == footer_names(names).len()
            &&& files[a] == footer_names(names)[order[a] as int]
        }),
{
    crate::order::order_is_sorted(file_keys(footer_names(names)), order, a, b);
    let fs = footer_names(names);
    lemma_digits_are_digits(fs[order[a] as int].take(fs[order[a] as int].len() - 4));
    lemma_digits_are_digits(fs[order[b] as int].take(fs[order[b] as int].len() - 4));
}

proof fn lemma_digits_are_digits(s: Seq<char>)
    ensures
        digits_of(s).len() > 0 ==> is_number(digits_of(s)),
        digits_of(s).len() == 0 ==> !is_number(digits_of(s)),
    decreases s.len(),
{
    if s.len() > 0 {
        lemma_digits_are_digits(s.drop_last());
        let front = digits_of(s.drop_last());
        assert forall|i: int| 0 <= i < digits_of(s).len() implies is_digit(
            #[trigger] digits_of(s)[i],
        ) by {
            if i < front.len() {
                assert(digits_of(s)[i] == front[i]);
            }
        }
    }
}

/// Without references the footer is the content of all parts in their order, each
/// content once.
pub proof fn repeated_footers_count_once(parts: Seq<Option<Seq<char>>>, html: Seq<char>)
    ensures
        distinct_html(parts.push(Some(html))) == if exists|i: int|
            0 <= i < parts.len() && #[trigger] parts[i] == Some(html) {
            distinct_html(parts)
        } else {
            distinct_html(parts) + html
        },
        distinct_html(parts.push(None)) == distinct_html(parts),
        distinct_html(Seq::<Option<Seq<char>>>::empty()).len() == 0,
{
    assert(parts.push(Some(html)).drop_last() =~= parts);
    assert(parts.push(None).drop_last() =~= parts);
    if parts.contains(Some(html)) {
        let i = choose|i: int| 0 <= i < parts.len() && parts[i] == Some(html);
        assert(parts[i] == Some(html));
    }
}

} // verus!
