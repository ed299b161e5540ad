//! Where the original pages begin: a snippet of the first body text of each
//! page from the second on, taken from a rendering of the document. The page
//! header that the interior pages share is left out.

use vstd::prelude::*;

use crate::text::{chars_of, collapse, collapsed, matches_at, starts_with, string_of, substring,
    trim_start, trimmed_start};

verus! {

/// The number of characters in a snippet.
pub const SNIPPET_LENGTH: usize = 80;

/// A shared beginning that is shorter is no page header.
pub const SHORTEST_HEADER: usize = 10;

/// The texts read, and whether the document has ended, once a page with the text
/// `text` is taken.
pub open spec fn behind_page(texts: Seq<Seq<char>>, ended: bool, text: Seq<char>) -> (
    Seq<Seq<char>>,
    bool,
) {
    if ended {
        (texts, true)
    } else if text.len() == 0 && texts.len() > 0 && texts.last().len() == 0 {
        (texts, true)
    } else {
        (texts.push(text), false)
    }
}

/// The reading of the pages' texts, from page two on.
#[derive(Debug)]
pub struct PageScan {
    texts: Vec<String>,
    ended: bool,
}

impl PageScan {
    /// The texts read so far, from page two on, words one space apart.
    pub closed spec fn texts(self) -> Seq<Seq<char>> {
        self.texts.deep_view()
    }

    /// No further page is read.
    pub closed spec fn ended(self) -> bool {
        self.ended
    }

    /// A reading that has not begun.
    pub fn new() -> (r: PageScan)
        ensures
            r.texts() == Seq::<Seq<char>>::empty(),
            !r.ended(),
    {
        let r = PageScan { texts: Vec::new(), ended: false };
        assert(r.texts() =~= Seq::<Seq<char>>::empty());
        r
    }

    /// The page to read next: each from page two on, until the document has
    /// ended.
    pub fn next_page(&self) -> (r: Option<u128>)
        ensures
            match r {
                Some(page) => !self.ended() && page == self.texts().len() + 2,
                None => self.ended(),
            },
    {
        if self.ended {
            None
        } else {
            Some(self.texts.len() as u128 + 2)
        }
    }

    /// Takes what the next page holds. One page without text can be an interior
    /// page of images; two in a row mean that the document has ended, and behind
    /// its end nothing is taken.
    pub fn read(&mut self, output: &str)
        ensures
            (final(self).texts(), final(self).ended()) == behind_page(
                old(self).texts(),
                old(self).ended(),
                collapse(output@),
            ),
    {
        if self.ended {
            return ;
        }
        let text = collapsed(output);
        let n: usize = self.texts.len();
        if text.as_str().is_empty() && n > 0 && self.texts[n - 1].as_str().is_empty() {
            self.ended = true;
            return ;
        }
        self.texts.push(text);
        proof {
            assert(self.texts() =~= old(self).texts().push(text@));
        }
    }

    /// The snippets of the pages that were read.
    pub fn finish(self) -> (r: Vec<String>)
        ensures
            r.deep_view() == snippets(self.texts()),
    {
        page_snippets(self.texts)
    }
}

/// `texts` without the empty ones at its end.
pub open spec fn without_empty_end(texts: Seq<Seq<char>>) -> Seq<Seq<char>>
    decreases texts.len(),
{
    if texts.len() > 0 && texts.last().len() == 0 {
        without_empty_end(texts.drop_last())
    } else {
        texts
    }
}

/// The texts that are not empty.
pub open spec fn filled(texts: Seq<Seq<char>>) -> Seq<Seq<char>>
    decreases texts.len(),
{
    if texts.len() == 0 {
        seq![]
    } else if texts.last().len() > 0 {
        filled(texts.drop_last()).push(texts.last())
    } else {
        filled(texts.drop_last())
    }
}

/// Up to where `a` and `b` agree, if they do up to `k`.
pub open spec fn agree_to(a: Seq<char>, b: Seq<char>, k: int) -> int
    decreases a.len() - k,
{
    if 0 <= k < a.len() && k < b.len() && a[k] == b[k] {
        agree_to(a, b, k + 1)
    } else {
        k
    }
}

/// What each of `texts` begins with.
pub open spec fn shared_beginning(texts: Seq<Seq<char>>) -> Seq<char>
    decreases texts.len(),
{
    if texts.len() == 0 {
        seq![]
    } else if texts.len() == 1 {
        texts[0]
    } else {
        let front = shared_beginning(texts.drop_last());
        front.take(agree_to(front, texts.last(), 0))
    }
}

/// The page header: what the pages with text begin with, where that is long
/// enough.
pub open spec fn header(texts: Seq<Seq<char>>) -> Seq<char> {
    let shared = shared_beginning(filled(texts));
    if shared.len() < SHORTEST_HEADER {
        seq![]
    } else {
        shared
    }
}

/// The first characters of `s`, `n` of them where it has as many.
pub open spec fn first_chars(s: Seq<char>, n: nat) -> Seq<char> {
    if s.len() <= n {
        s
    } else {
        s.take(n as int)
    }
}

/// The snippet of a page with the text `text`.
pub open spec fn snippet(text: Seq<char>, header: Seq<char>) -> Seq<char> {
    let body = if starts_with(text, header) {
        text.skip(header.len() as int)
    } else {
        text
    };
    first_chars(trim_start(body), SNIPPET_LENGTH as nat)
}

/// The snippets of pages with the texts `texts`. With fewer than two pages, or
/// two with text, the header cannot be told from the body: then there are none.
pub open spec fn snippets(texts: Seq<Seq<char>>) -> Seq<Seq<char>> {
    let pages = without_empty_end(texts);
    if pages.len() < 2 || filled(pages).len() < 2 {
        seq![]
    } else {
        pages.map_values(|t: Seq<char>| snippet(t, header(pages)))
    }
}

proof fn lemma_agree(a: Seq<char>, b: Seq<char>, k: int)
    requires
        0 <= k <= a.len(),
        k <= b.len(),
        a.take(k) == b.take(k),
    ensures
        k <= agree_to(a, b, k) <= a.len(),
        agree_to(a, b, k) <= b.len(),
        a.take(agree_to(a, b, k)) == b.take(agree_to(a, b, k)),
        agree_to(a, b, k) < a.len() && agree_to(a, b, k) < b.len() ==> a[agree_to(a, b, k)]
            != b[agree_to(a, b, k)],
    decreases a.len() - k,
{
    if k < a.len() && k < b.len() && a[k] == b[k] {
        assert(a.take(k + 1) =~= a.take(k).push(a[k]));
        assert(b.take(k + 1) =~= b.take(k).push(b[k]));
        lemma_agree(a, b, k + 1);
    }
}

/// The shared beginning is one of each text, and the longest such: whatever
/// else each text begins with, the shared beginning begins with it too.
pub proof fn shared_beginning_is_longest(texts: Seq<Seq<char>>)
    requires
        texts.len() > 0,
    ensures
        forall|i: int|
            0 <= i < texts.len() ==> starts_with(#[trigger] texts[i], shared_beginning(texts)),
        forall|p: Seq<char>|
            (forall|i: int| 0 <= i < texts.len() ==> starts_with(#[trigger] texts[i], p))
                ==> #[trigger] starts_with(shared_beginning(texts), p),
    decreases texts.len(),
{
    let s = shared_beginning(texts);
    if texts.len() == 1 {
        assert(s.subrange(0, s.len() as int) =~= s);
        assert forall|p: Seq<char>|
            (forall|i: int| 0 <= i < texts.len() ==> starts_with(
                #[trigger] texts[i],
                p,
            )) implies #[trigger] starts_with(s, p) by {
            assert(starts_with(texts[0], p));
        }
    } else {
        let before = texts.drop_last();
        let front = shared_beginning(before);
        let last = texts.last();
        shared_beginning_is_longest(before);
        assert(front.take(0) =~= last.take(0));
        lemma_agree(front, last, 0);
        let n = agree_to(front, last, 0);
        assert forall|i: int| 0 <= i < texts.len() implies starts_with(#[trigger] texts[i], s) by {
            if i < before.len() {
                assert(texts[i] == before[i]);
                assert(starts_with(before[i], front));
                assert(texts[i].subrange(0, n) =~= texts[i].subrange(
                    0,
                    front.len() as int,
                ).subrange(0, n));
                assert(front.subrange(0, n) =~= s);
            } else {
                assert(last.subrange(0, n) =~= last.take(n));
            }
        }
        assert forall|p: Seq<char>|
            (forall|i: int| 0 <= i < texts.len() ==> starts_with(
                #[trigger] texts[i],
                p,
            )) implies #[trigger] starts_with(s, p) by {
            assert forall|i: int| 0 <= i < before.len() implies starts_with(
                #[trigger] before[i],
                p,
            ) by {
                assert(texts[i] == before[i]);
            }
            assert(starts_with(front, p));
            assert(starts_with(texts[texts.len() - 1], p));
            if p.len() > n {
                assert(front.subrange(0, p.len() as int)[n] == front[n]);
                assert(last.subrange(0, p.len() as int)[n] == last[n]);
            }
            assert(s.subrange(0, p.len() as int) =~= front.subrange(0, p.len() as int));
        }
    }
}

/// No snippet is longer than it may be, none begins with white space, and there
/// is one for each page up to the last with text, or none at all.
pub proof fn snippets_are_short(texts: Seq<Seq<char>>)
    ensures
        snippets(texts).len() == 0 || snippets(texts).len() == without_empty_end(texts).len(),
        forall|i: int|
            0 <= i < snippets(texts).len() ==> #[trigger] snippets(texts)[i].len()
                <= SNIPPET_LENGTH && (snippets(texts)[i].len() > 0 ==> !crate::text::is_space(
                snippets(texts)[i][0],
            )),
{
    let pages = without_empty_end(texts);
    assert forall|i: int| 0 <= i < snippets(texts).len() implies #[trigger] snippets(texts)[i].len()
        <= SNIPPET_LENGTH && (snippets(texts)[i].len() > 0 ==> !crate::text::is_space(
        snippets(texts)[i][0],
    )) by {
        let h = header(pages);
        let t = pages[i];
        let body = if starts_with(t, h) {
            t.skip(h.len() as int)
        } else {
            t
        };
        crate::text::trim_start_is_suffix(body);
        assert(snippets(texts)[i] == first_chars(trim_start(body), SNIPPET_LENGTH as nat));
    }
}

/// A snippet is taken from its page: it stands in the page's text as it is.
pub proof fn snippet_is_from_its_page(text: Seq<char>, header: Seq<char>)
    ensures
        crate::text::contains(text, snippet(text, header)),
{
    let from = if starts_with(text, header) {
        header.len() as int
    } else {
        0
    };
    let body = text.skip(from);
    assert(text.skip(0) =~= text);
    crate::text::trim_start_is_suffix(body);
    let rest = trim_start(body);
    let at = from + (body.len() - rest.len());
    let part = snippet(text, header);
    assert(text.subrange(at, at + part.len()) =~= part);
    assert(crate::text::occurs_at(text, part, at));
    crate::text::find_is_first(text, part, 0);
}

/// Each page from the second on has its snippet, however many there are: where
/// the last page has text and another one too, there are as many snippets as
/// pages were read.
pub proof fn each_page_has_its_snippet(texts: Seq<Seq<char>>)
    requires
        filled(texts).len() >= 2,
        texts.last().len() > 0,
    ensures
        snippets(texts).len() == texts.len(),
        forall|i: int|
            0 <= i < texts.len() ==> #[trigger] snippets(texts)[i] == snippet(
                texts[i],
                header(texts),
            ),
{
    lemma_filled_is_part(texts);
}

proof fn lemma_filled_is_part(texts: Seq<Seq<char>>)
    ensures
        filled(texts).len() <= texts.len(),
    decreases texts.len(),
{
    if texts.len() > 0 {
        lemma_filled_is_part(texts.drop_last());
    }
}

/// A document of fewer than three pages has no snippets: there are none where
/// fewer than two of the pages from the second on have text.
pub proof fn short_documents_have_no_snippets(texts: Seq<Seq<char>>)
    requires
        filled(texts).len() < 2,
    ensures
        snippets(texts).len() == 0,
{
    lemma_filled_without_end(texts);
}

proof fn lemma_filled_without_end(texts: Seq<Seq<char>>)
    ensures
        filled(without_empty_end(texts)) == filled(texts),
    decreases texts.len(),
{
    if texts.len() > 0 && texts.last().len() == 0 {
        lemma_filled_without_end(texts.drop_last());
    }
}

/// The first `k` characters of `s` are white space, and no more of it follows.
pub open spec fn leading_space(s: Seq<char>, k: int) -> bool {
    &&& 0 <= k <= s.len()
    &&& forall|j: int| 0 <= j < k ==> crate::text::is_space(#[trigger] s[j])
    &&& k < s.len() ==> !crate::text::is_space(s[k])
}

/// `s` is where `body` begins, behind its leading white space: its first 80
/// characters, or all of them where there are fewer.
pub open spec fn begins(body: Seq<char>, s: Seq<char>) -> bool {
    exists|k: int| #[trigger]
        leading_space(body, k) && s == body.skip(k).take(
            if body.len() - k < 80 {
                body.len() - k
            } else {
                80
            },
        )
}

/// The pages that have text begin with `h`, which is long enough for a page
/// header or empty, and there is no other such beginning that `h` does not begin
/// with itself.
pub open spec fn is_page_header(texts: Seq<Seq<char>>, h: Seq<char>) -> bool {
    &&& h.len() == 0 || h.len() >= 10
    &&& begin_with(texts, h)
    &&& forall|p: Seq<char>| p.len() >= 10 && #[trigger] begin_with(texts, p) ==> p.len() <= h.len()
        && h.take(p.len() as int) == p
}

/// Each of `texts` that is not empty begins with `p`.
pub open spec fn begin_with(texts: Seq<Seq<char>>, p: Seq<char>) -> bool {
    forall|i: int|
        0 <= i < texts.len() && (#[trigger] texts[i]).len() > 0 ==> p.len() <= texts[i].len()
            && texts[i].take(p.len() as int) == p
}

/// A snippet is where the body of its page begins: of a page with a header and a
/// body behind it, it is the first 80 characters of the body behind leading
/// white space.
pub proof fn snippet_begins_the_body(header: Seq<char>, body: Seq<char>)
    ensures
        begins(body, snippet(header + body, header)),
{
    let text = header + body;
    assert(text.subrange(0, header.len() as int) =~= header);
    assert(text.skip(header.len() as int) =~= body);
    lemma_begins(body);
}

proof fn lemma_begins(body: Seq<char>)
    ensures
        begins(body, first_chars(trim_start(body), SNIPPET_LENGTH as nat)),
{
    crate::text::trim_start_is_suffix(body);
    let rest = trim_start(body);
    let k = body.len() - rest.len();
    assert(rest =~= body.skip(k));
    if k < body.len() {
        assert(rest[0] == body[k]);
    }
    assert(leading_space(body, k));
    assert(rest.take(rest.len() as int) =~= rest);
}

proof fn lemma_filled_is_text(texts: Seq<Seq<char>>)
    ensures
        forall|i: int|
            0 <= i < texts.len() && (#[trigger] texts[i]).len() > 0 ==> filled(texts).contains(
                texts[i],
            ),
        forall|j: int|
            0 <= j < filled(texts).len() ==> texts.contains(#[trigger] filled(texts)[j])
                && filled(texts)[j].len() > 0,
    decreases texts.len(),
{
    if texts.len() > 0 {
        let front = texts.drop_last();
        let fs = filled(texts);
        lemma_filled_is_text(front);
        assert forall|i: int| 0 <= i < texts.len() && (#[trigger] texts[i]).len() > 0 implies
            fs.contains(texts[i]) by {
            if i < front.len() {
                assert(front[i] == texts[i]);
                let j = choose|j: int| 0 <= j < filled(front).len() && filled(front)[j] == texts[i];
                assert(fs[j] == texts[i]);
            } else {
                assert(fs[fs.len() - 1] == texts[i]);
            }
        }
        assert forall|j: int| 0 <= j < fs.len() implies texts.contains(#[trigger] fs[j])
            && fs[j].len() > 0 by {
            if j < filled(front).len() {
                assert(fs[j] == filled(front)[j]);
                let i = choose|i: int| 0 <= i < front.len() && front[i] == fs[j];
                assert(texts[i] == fs[j]);
            } else {
                assert(texts[texts.len() - 1] == fs[j]);
            }
        }
    }
}

proof fn lemma_without_end(texts: Seq<Seq<char>>)
    ensures
        without_empty_end(texts).len() <= texts.len(),
        without_empty_end(texts) == texts.take(without_empty_end(texts).len() as int),
        forall|i: int|
            without_empty_end(texts).len() <= i < texts.len() ==> (#[trigger] texts[i]).len() == 0,
        without_empty_end(texts).len() > 0 ==> without_empty_end(texts).last().len() > 0,
    decreases texts.len(),
{
    if texts.len() > 0 && texts.last().len() == 0 {
        let front = texts.drop_last();
        lemma_without_end(front);
        let n = without_empty_end(texts).len() as int;
        assert(texts.take(n) =~= front.take(n));
        assert forall|i: int| n <= i < texts.len() implies (#[trigger] texts[i]).len() == 0 by {
            if i < front.len() {
                assert(front[i] == texts[i]);
            }
        }
    } else {
        assert(texts.take(texts.len() as int) =~= texts);
    }
}

proof fn lemma_header(pages: Seq<Seq<char>>)
    requires
        filled(pages).len() > 0,
    ensures
        is_page_header(pages, header(pages)),
{
    let fs = filled(pages);
    let shared = shared_beginning(fs);
    let h = header(pages);
    shared_beginning_is_longest(fs);
    lemma_filled_is_text(pages);
    assert forall|i: int| 0 <= i < pages.len() && (#[trigger] pages[i]).len() > 0 implies h.len()
        <= pages[i].len() && pages[i].take(h.len() as int) == h by {
        let j = choose|j: int| 0 <= j < fs.len() && fs[j] == pages[i];
        assert(starts_with(fs[j], shared));
        if h.len() == 0 {
            assert(pages[i].take(0) =~= h);
        } else {
            assert(pages[i].take(h.len() as int) =~= pages[i].subrange(0, h.len() as int));
        }
    }
    assert forall|p: Seq<char>| p.len() >= 10 && #[trigger] begin_with(pages, p) implies p.len()
        <= h.len() && h.take(p.len() as int) == p by {
        assert forall|j: int| 0 <= j < fs.len() implies starts_with(#[trigger] fs[j], p) by {
            let i = choose|i: int| 0 <= i < pages.len() && pages[i] == fs[j];
            assert(pages[i].len() > 0);
            assert(pages[i].take(p.len() as int) =~= pages[i].subrange(0, p.len() as int));
        }
        assert(starts_with(shared, p));
        assert(shared.take(p.len() as int) =~= shared.subrange(0, p.len() as int));
    }
}

/// Each snippet is where its page begins behind the page header, which is the
/// longest beginning that all pages with text share; a page without text has an
/// empty snippet.
pub proof fn snippets_begin_their_pages(texts: Seq<Seq<char>>)
    requires
        snippets(texts).len() > 0,
    ensures
        snippets(texts).len() <= texts.len(),
        exists|h: Seq<char>| #[trigger]
            is_page_header(texts, h) && forall|i: int|
                0 <= i < snippets(texts).len() ==> if texts[i].len() == 0 {
                    (#[trigger] snippets(texts)[i]).len() == 0
                } else {
                    begins(texts[i].skip(h.len() as int), snippets(texts)[i])
                },
{
    let pages = without_empty_end(texts);
    let h = header(pages);
    lemma_without_end(texts);
    lemma_header(pages);
    assert forall|p: Seq<char>| #[trigger] begin_with(texts, p) <==> begin_with(pages, p) by {
        if begin_with(texts, p) {
            assert forall|i: int| 0 <= i < pages.len() && (#[trigger] pages[i]).len() > 0 implies
                p.len() <= pages[i].len() && pages[i].take(p.len() as int) == p by {
                assert(texts[i] == pages[i]);
            }
        }
        if begin_with(pages, p) {
            assert forall|i: int| 0 <= i < texts.len() && (#[trigger] texts[i]).len() > 0 implies
                p.len() <= texts[i].len() && texts[i].take(p.len() as int) == p by {
                assert(i < pages.len());
                assert(texts[i] == pages[i]);
            }
        }
    }
    assert(begin_with(texts, h));
    assert forall|p: Seq<char>| p.len() >= 10 && #[trigger] begin_with(texts, p) implies p.len()
        <= h.len() && h.take(p.len() as int) == p by {
        assert(begin_with(pages, p));
    }
    assert(is_page_header(texts, h));
    assert forall|i: int| 0 <= i < snippets(texts).len() implies if texts[i].len() == 0 {
        (#[trigger] snippets(texts)[i]).len() == 0
    } else {
        begins(texts[i].skip(h.len() as int), snippets(texts)[i])
    } by {
        assert(pages[i] == texts[i]);
        assert(snippets(texts)[i] == snippet(pages[i], h));
        if texts[i].len() == 0 {
            let body = if starts_with(pages[i], h) {
                pages[i].skip(h.len() as int)
            } else {
                pages[i]
            };
            crate::text::trim_start_is_suffix(body);
        } else {
            let body = pages[i].skip(h.len() as int);
            assert(pages[i] =~= h + body);
            snippet_begins_the_body(h, body);
        }
    }
}

/// There are snippets exactly where two pages have text; there is one for each
/// page up to the last that has, and pages without text at the end make no
/// difference.
pub proof fn two_pages_have_snippets(texts: Seq<Seq<char>>, a: int, b: int)
    requires
        0 <= a < b < texts.len(),
        texts[a].len() > 0,
        texts[b].len() > 0,
        forall|i: int| b < i < texts.len() ==> (#[trigger] texts[i]).len() == 0,
    ensures
        snippets(texts).len() == b + 1,
        snippets(texts) == snippets(texts.take(b + 1)),
{
    lemma_without_end(texts);
    let pages = without_empty_end(texts);
    if pages.len() <= b {
        assert(texts[b].len() == 0);
    }
    if pages.len() > b + 1 {
        assert(pages.last() == texts[pages.len() - 1]);
    }
    let front = pages.take(b);
    assert(pages.drop_last() =~= front);
    assert(pages.last() == texts[b]);
    lemma_filled_is_text(front);
    assert(front[a] == texts[a]);
    assert(filled(front).contains(texts[a]));
    assert(filled(pages).len() >= 2);
    assert(pages =~= texts.take(b + 1));
    assert(without_empty_end(pages) == pages);
}

/// Where at most one page has text there are no snippets.
pub proof fn one_page_has_no_snippet(texts: Seq<Seq<char>>, only: int)
    requires
        forall|i: int| 0 <= i < texts.len() && i != only ==> (#[trigger] texts[i]).len() == 0,
    ensures
        snippets(texts).len() == 0,
{
    lemma_few_filled(texts, only);
    short_documents_have_no_snippets(texts);
}

proof fn lemma_few_filled(texts: Seq<Seq<char>>, only: int)
    requires
        forall|i: int| 0 <= i < texts.len() && i != only ==> (#[trigger] texts[i]).len() == 0,
    ensures
        filled(texts).len() <= if 0 <= only < texts.len() {
            1nat
        } else {
            0nat
        },
    decreases texts.len(),
{
    if texts.len() > 0 {
        let front = texts.drop_last();
        assert forall|i: int| 0 <= i < front.len() && i != only implies (#[trigger] front[i]).len()
            == 0 by {
            assert(texts[i] == front[i]);
        }
        lemma_few_filled(front, only);
    }
}

/// The first characters of a text are what it begins with, as many as asked for
/// or all that there are.
pub proof fn first_chars_are_first(s: Seq<char>, n: nat)
    ensures
        first_chars(s, n).len() == if s.len() < n {
            s.len()
        } else {
            n
        },
        s.take(first_chars(s, n).len() as int) == first_chars(s, n),
{
    assert(s.take(s.len() as int) =~= s);
}

/// Up to where `a` and `b` agree.
fn agreement(a: &[char], b: &[char]) -> (n: usize)
    ensures
        n == agree_to(a@, b@, 0),
        n <= a@.len(),
{
    let mut k: usize = 0;
    while k < a.len() && k < b.len() && a[k] == b[k]
        invariant
            k <= a@.len(),
            k <= b@.len(),
            agree_to(a@, b@, 0) == agree_to(a@, b@, k as int),
        decreases a@.len() - k,
    {
        k = k + 1;
    }
    k
}

/// The snippet of a page with the text `text`.
fn snippet_of(text: &str, header: &[char]) -> (r: String)
    ensures
        r@ == snippet(text@, header@),
{
    let cs: Vec<char> = chars_of(text);
    let from: usize = if matches_at(&cs, header, 0) {
        header.len()
    } else {
        0
    };
    let body = &cs[from..cs.len()];
    proof {
        if from == 0 {
            assert(body@ =~= cs@);
            if starts_with(text@, header@) {
                assert(text@.skip(header@.len() as int) =~= text@);
            }
        } else {
            assert(body@ =~= cs@.skip(from as int));
        }
    }
    let rest: Vec<char> = trimmed_start(body);
    if rest.len() <= SNIPPET_LENGTH {
        string_of(&rest)
    } else {
        let r = substring(&rest, 0, SNIPPET_LENGTH);
        assert(r@ =~= rest@.take(SNIPPET_LENGTH as int));
        r
    }
}

/// For each page from the second on a snippet of its first body text, given
/// the texts of the pages. Empty when the document has fewer than three pages.
pub fn page_snippets(texts: Vec<String>) -> (r: Vec<String>)
    ensures
        r.deep_view() == snippets(texts.deep_view()),
{
    let ghost all = texts.deep_view();
    let mut pages: Vec<String> = texts;
    while pages.len() > 0 && pages[pages.len() - 1].as_str().is_empty()
        invariant
            without_empty_end(all) == without_empty_end(pages.deep_view()),
        decreases pages@.len(),
    {
        let ghost was = pages.deep_view();
        pages.pop();
        proof {
            assert(pages.deep_view() =~= was.drop_last());
        }
    }
    let ghost ps = pages.deep_view();
    if pages.len() < 2 {
        let none: Vec<String> = Vec::new();
        assert(none.deep_view() =~= seq![]);
        return none;
    }
    let mut count: usize = 0;
    let mut shared: Vec<char> = Vec::new();
    proof {
        assert(ps.take(0) =~= seq![]);
    }
    for k in 0..pages.len()
        invariant
            ps == pages.deep_view(),
            count <= k,
            count == filled(ps.take(k as int)).len(),
            shared@ == shared_beginning(filled(ps.take(k as int))),
    {
        proof {
            assert(ps.take(k + 1).drop_last() =~= ps.take(k as int));
            assert(ps.take(k + 1).last() == pages@[k as int]@);
        }
        if !pages[k].as_str().is_empty() {
            let text: Vec<char> = chars_of(pages[k].as_str());
            proof {
                let before = filled(ps.take(k as int));
                assert(before.push(text@).drop_last() =~= before);
            }
            if count == 0 {
                shared = text;
            } else {
                let n: usize = agreement(&shared, &text);
                shared.truncate(n);
            }
            count = count + 1;
        }
    }
    proof {
        assert(ps.take(ps.len() as int) =~= ps);
    }
    if count < 2 {
        let none: Vec<String> = Vec::new();
        assert(none.deep_view() =~= seq![]);
        return none;
    }
    if shared.len() < SHORTEST_HEADER {
        shared.clear();
    }
    let mut out: Vec<String> = Vec::new();
    for k in 0..pages.len()
        invariant
            ps == pages.deep_view(),
            shared@ == header(ps),
            out@.len() == k,
            forall|i: int| 0 <= i < k ==> #[trigger] out@[i]@ == snippet(ps[i], header(ps)),
    {
        out.push(snippet_of(pages[k].as_str(), &shared));
    }
    assert(out.deep_view() =~= snippets(all));
    out
}

/// A page with text is always taken, and so is one without text behind a page
/// with text; the second without text in a row ends the document, and nothing is
/// taken behind its end.
pub proof fn two_empty_pages_end_the_document(texts: Seq<Seq<char>>, text: Seq<char>)
    ensures
        text.len() > 0 ==> behind_page(texts, false, text) == (texts.push(text), false),
        texts.len() == 0 || texts.last().len() > 0 ==> behind_page(texts, false, text) == (
            texts.push(text),
            false,
        ),
        behind_page(texts.push(Seq::empty()), false, Seq::empty()) == (
            texts.push(Seq::empty()),
            true,
        ),
        behind_page(texts, true, text) == (texts, true),
{
}

} // verus!
