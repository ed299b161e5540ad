//! A naive reading of OOXML: blocks of one element, quoted attribute values
//! and the bold property. Elements of the kinds looked for do not nest.

use vstd::prelude::*;

use crate::text::{chars_of, contains, ends_with, find, find_from, find_is_first, holds, occurs_at,
    position, position_from, starts_with, substring};

verus! {

/// `<tag>`
pub open spec fn bare_open(tag: Seq<char>) -> Seq<char> {
    seq!['<'] + tag + seq!['>']
}

/// `<tag `, the opening of an element with attributes.
pub open spec fn attributed_open(tag: Seq<char>) -> Seq<char> {
    seq!['<'] + tag + seq![' ']
}

/// `</tag>`
pub open spec fn closing(tag: Seq<char>) -> Seq<char> {
    seq!['<', '/'] + tag + seq!['>']
}

/// Where the first opening of a `tag` element stands in `xml` from `at` on.
pub open spec fn next_open(xml: Seq<char>, tag: Seq<char>, at: int) -> Option<int> {
    match (find_from(xml, bare_open(tag), at), find_from(xml, attributed_open(tag), at)) {
        (Some(a), Some(b)) => Some(if a <= b { a } else { b }),
        (Some(a), None) => Some(a),
        (None, Some(b)) => Some(b),
        (None, None) => None,
    }
}

/// The opening at `start` closes itself: its first `>` has a `/` before it.
pub open spec fn closes_itself(xml: Seq<char>, start: int) -> bool {
    match find_from(xml, seq!['>'], start) {
        Some(gt) => gt > 0 && xml[gt - 1] == '/',
        None => false,
    }
}

/// Where the element opened at `start` ends: behind the `>` of an opening that
/// closes itself, else behind the next `</tag>`.
pub open spec fn block_end(xml: Seq<char>, tag: Seq<char>, start: int) -> Option<int> {
    if closes_itself(xml, start) {
        Some(find_from(xml, seq!['>'], start)->0 + 1)
    } else {
        match find_from(xml, closing(tag), start) {
            Some(e) => Some(e + closing(tag).len()),
            None => None,
        }
    }
}

/// The `tag` elements of `xml` from `at` on, in order, each from its opening
/// to its end. The reading stops at an element without an end.
pub open spec fn blocks_from(xml: Seq<char>, tag: Seq<char>, at: int) -> Seq<Seq<char>>
    decreases xml.len() - at,
{
    match next_open(xml, tag, at) {
        None => seq![],
        Some(start) => match block_end(xml, tag, start) {
            None => seq![],
            Some(end) => if at < end <= xml.len() {
                seq![xml.subrange(start, end)] + blocks_from(xml, tag, end)
            } else {
                seq![]
            },
        },
    }
}

/// The `tag` elements of `xml`, in order.
pub open spec fn blocks(xml: Seq<char>, tag: Seq<char>) -> Seq<Seq<char>> {
    blocks_from(xml, tag, 0)
}

/// `tag` can name an element: it is not empty and holds no character of markup.
pub open spec fn is_name(tag: Seq<char>) -> bool {
    &&& tag.len() > 0
    &&& forall|i: int|
        0 <= i < tag.len() ==> #[trigger] tag[i] != '<' && tag[i] != '>' && tag[i] != '/' && tag[i]
            != ' '
}

/// `block` is a `tag` element: it opens as one, and either closes itself or
/// ends with `</tag>`.
pub open spec fn is_element(block: Seq<char>, tag: Seq<char>) -> bool {
    &&& starts_with(block, bare_open(tag)) || starts_with(block, attributed_open(tag))
    &&& ends_with(block, closing(tag)) || ends_with(block, seq!['/', '>'])
}

/// The characters of an occurrence are those of the pattern.
proof fn lemma_occurrence(s: Seq<char>, pat: Seq<char>, i: int)
    requires
        occurs_at(s, pat, i),
    ensures
        forall|k: int| 0 <= k < pat.len() ==> s[i + k] == #[trigger] pat[k],
{
    assert forall|k: int| 0 <= k < pat.len() implies s[i + k] == #[trigger] pat[k] by {
        assert(s.subrange(i, i + pat.len())[k] == pat[k]);
    }
}

proof fn lemma_next_open(xml: Seq<char>, tag: Seq<char>, at: int)
    requires
        0 <= at,
    ensures
        next_open(xml, tag, at) matches Some(start) ==> at <= start < xml.len() && xml[start] == '<'
            && (occurs_at(xml, bare_open(tag), start) || occurs_at(
            xml,
            attributed_open(tag),
            start,
        )),
{
    find_is_first(xml, bare_open(tag), at);
    find_is_first(xml, attributed_open(tag), at);
    if let Some(start) = next_open(xml, tag, at) {
        if occurs_at(xml, bare_open(tag), start) {
            lemma_occurrence(xml, bare_open(tag), start);
            assert(xml[start + 0] == bare_open(tag)[0]);
        } else {
            lemma_occurrence(xml, attributed_open(tag), start);
            assert(xml[start + 0] == attributed_open(tag)[0]);
        }
    }
}

proof fn lemma_block_end(xml: Seq<char>, tag: Seq<char>, start: int)
    requires
        0 <= start < xml.len(),
        xml[start] == '<',
    ensures
        block_end(xml, tag, start) matches Some(end) ==> start < end <= xml.len(),
{
    find_is_first(xml, seq!['>'], start);
    find_is_first(xml, closing(tag), start);
    if let Some(gt) = find_from(xml, seq!['>'], start) {
        lemma_occurrence(xml, seq!['>'], gt);
        assert(xml[gt + 0] == seq!['>'][0]);
    }
}

proof fn lemma_block_is_element(xml: Seq<char>, tag: Seq<char>, start: int)
    requires
        is_name(tag),
        0 <= start < xml.len(),
        xml[start] == '<',
        occurs_at(xml, bare_open(tag), start) || occurs_at(xml, attributed_open(tag), start),
    ensures
        block_end(xml, tag, start) matches Some(end) ==> is_element(xml.subrange(start, end), tag),
{
    lemma_block_end(xml, tag, start);
    find_is_first(xml, seq!['>'], start);
    find_is_first(xml, closing(tag), start);
    let bare = occurs_at(xml, bare_open(tag), start);
    let open = if bare {
        bare_open(tag)
    } else {
        attributed_open(tag)
    };
    let n = open.len();
    lemma_occurrence(xml, open, start);
    assert(open[n - 1] == if bare { '>' } else { ' ' });
    assert forall|k: int| 1 <= k < n - 1 implies #[trigger] open[k] == tag[k - 1] by {}
    if let Some(end) = block_end(xml, tag, start) {
        let block = xml.subrange(start, end);
        if closes_itself(xml, start) {
            let gt = end - 1;
            lemma_occurrence(xml, seq!['>'], gt);
            assert(xml[gt + 0] == seq!['>'][0]);
            if gt < start + n {
                assert(xml[start + (gt - start)] == open[gt - start]);
                assert(gt == start + n - 1);
                assert(xml[start + (n - 2)] == open[n - 2]);
                assert(open[n - 2] == tag[n - 3]);
                assert(false);
            }
            assert(block.subrange(block.len() - 2, block.len() as int) =~= seq!['/', '>']);
        } else {
            let e = end - closing(tag).len();
            lemma_occurrence(xml, closing(tag), e);
            assert(xml[e + 0] == closing(tag)[0]);
            assert(xml[e + 1] == closing(tag)[1]);
            if e < start + n {
                assert(xml[start + (e - start)] == open[e - start]);
                if e == start {
                    assert(xml[start + 1] == open[1]);
                    assert(open[1] == tag[0]);
                } else if e < start + n - 1 {
                    assert(open[e - start] == tag[e - start - 1]);
                }
                assert(false);
            }
            assert(block.subrange(e - start, block.len() as int) =~= xml.subrange(e, end));
        }
        assert(block.subrange(0, n as int) =~= xml.subrange(start, start + n));
    }
}

/// Each block that is read is an element of the kind asked for.
pub proof fn blocks_are_elements(xml: Seq<char>, tag: Seq<char>, at: int)
    requires
        is_name(tag),
        0 <= at,
    ensures
        forall|i: int|
            0 <= i < blocks_from(xml, tag, at).len() ==> is_element(
                #[trigger] blocks_from(xml, tag, at)[i],
                tag,
            ),
    decreases xml.len() - at,
{
    lemma_next_open(xml, tag, at);
    if let Some(start) = next_open(xml, tag, at) {
        lemma_block_end(xml, tag, start);
        lemma_block_is_element(xml, tag, start);
        if let Some(end) = block_end(xml, tag, start) {
            blocks_are_elements(xml, tag, end);
            let rest = blocks_from(xml, tag, end);
            assert forall|i: int| 0 <= i < blocks_from(xml, tag, at).len() implies is_element(
                #[trigger] blocks_from(xml, tag, at)[i],
                tag,
            ) by {
                if i > 0 {
                    assert(blocks_from(xml, tag, at)[i] == rest[i - 1]);
                }
            }
        }
    }
}

/// A `tag` element opens in `xml` at `i`.
pub open spec fn opens_at(xml: Seq<char>, tag: Seq<char>, i: int) -> bool {
    occurs_at(xml, bare_open(tag), i) || occurs_at(xml, attributed_open(tag), i)
}

/// Where the text before block `i` begins, for blocks that are read from `at` on
/// and stand at `starts`: behind the block before it.
pub open spec fn gap_start(blocks: Seq<Seq<char>>, starts: Seq<int>, at: int, i: int) -> int {
    if i <= 0 {
        at
    } else {
        starts[i - 1] + blocks[i - 1].len()
    }
}

/// The blocks that are read stand in `xml` one behind the other, and no element
/// is passed over: the text before and between the blocks holds no opening of the
/// tag.
pub proof fn blocks_are_apart(xml: Seq<char>, tag: Seq<char>, at: int) -> (starts: Seq<int>)
    requires
        0 <= at,
    ensures
        starts.len() == blocks_from(xml, tag, at).len(),
        forall|i: int|
            0 <= i < starts.len() ==> at <= #[trigger] starts[i] && occurs_at(
                xml,
                blocks_from(xml, tag, at)[i],
                starts[i],
            ),
        forall|i: int, j: int|
            0 <= i < j < starts.len() ==> #[trigger] starts[i] + blocks_from(xml, tag, at)[i].len()
                <= #[trigger] starts[j],
        forall|i: int, j: int|
            #![trigger starts[i], opens_at(xml, tag, j)]
            0 <= i < starts.len() && gap_start(blocks_from(xml, tag, at), starts, at, i) <= j
                < starts[i] ==> !opens_at(xml, tag, j),
    decreases xml.len() - at,
{
    lemma_next_open(xml, tag, at);
    find_is_first(xml, bare_open(tag), at);
    find_is_first(xml, attributed_open(tag), at);
    let all = blocks_from(xml, tag, at);
    let start = next_open(xml, tag, at);
    if start is Some && block_end(xml, tag, start->0) is Some {
        let start = start->0;
        let end = block_end(xml, tag, start)->0;
        lemma_block_end(xml, tag, start);
        let later = blocks_are_apart(xml, tag, end);
        let rest = blocks_from(xml, tag, end);
        let starts = seq![start] + later;
        assert forall|i: int| 0 <= i < starts.len() implies at <= #[trigger] starts[i]
            && occurs_at(xml, all[i], starts[i]) by {
            if i > 0 {
                assert(starts[i] == later[i - 1]);
                assert(all[i] == rest[i - 1]);
            }
        }
        assert forall|i: int, j: int| 0 <= i < j < starts.len() implies #[trigger] starts[i]
            + all[i].len() <= #[trigger] starts[j] by {
            assert(starts[j] == later[j - 1]);
            if i > 0 {
                assert(starts[i] == later[i - 1]);
                assert(all[i] == rest[i - 1]);
            }
        }
        assert forall|i: int, j: int|
            #![trigger starts[i], opens_at(xml, tag, j)]
            0 <= i < starts.len() && gap_start(all, starts, at, i) <= j
                < starts[i] implies !opens_at(xml, tag, j) by {
            if i > 0 {
                assert(starts[i] == later[i - 1]);
                if i > 1 {
                    assert(starts[i - 1] == later[i - 2]);
                    assert(all[i - 1] == rest[i - 2]);
                }
                assert(gap_start(all, starts, at, i) == gap_start(rest, later, end, i - 1));
            }
        }
        starts
    } else {
        seq![]
    }
}

fn wrap(front: &str, tag: &str, back: char) -> (r: String)
    ensures
        r@ == front@ + tag@ + seq![back],
{
    let mut s = String::new();
    s.append(front);
    s.append(tag);
    s.push(back);
    assert(s@ =~= front@ + tag@ + seq![back]);
    s
}

/// All `<tag …>…</tag>` blocks in `xml`, in order. An opening with attributes
/// that closes itself (`<w:t xml:space="…"/>`) is a block of its own: taking
/// the next `</tag>` for its end would swallow a later element.
pub fn split_tags(xml: &str, tag: &str) -> (r: Vec<String>)
    ensures
        r.deep_view() == blocks(xml@, tag@),
{
    let cs: Vec<char> = chars_of(xml);
    proof {
        reveal_strlit("<");
        reveal_strlit("</");
        reveal_strlit(">");
        assert("<"@ =~= seq!['<']);
        assert("</"@ =~= seq!['<', '/']);
        assert(">"@ =~= seq!['>']);
    }
    let open_a = wrap("<", tag, '>');
    let open_b = wrap("<", tag, ' ');
    let close = wrap("</", tag, '>');
    let close_len: usize = chars_of(close.as_str()).len();
    let mut out: Vec<String> = Vec::new();
    let mut at: usize = 0;
    let len: usize = cs.len();
    proof {
        assert(out.deep_view() + blocks(xml@, tag@) =~= blocks(xml@, tag@));
    }
    loop
        invariant
            cs@ == xml@,
            len == cs@.len(),
            open_a@ == bare_open(tag@),
            open_b@ == attributed_open(tag@),
            close@ == closing(tag@),
            close_len == closing(tag@).len(),
            ">"@ == seq!['>'],
            at <= cs@.len(),
            blocks(xml@, tag@) == out.deep_view() + blocks_from(xml@, tag@, at as int),
        decreases cs@.len() - at,
    {
        let a = position_from(&cs, open_a.as_str(), at);
        let b = position_from(&cs, open_b.as_str(), at);
        let start: usize = match (a, b) {
            (Some(a), Some(b)) => if a <= b {
                a
            } else {
                b
            },
            (Some(a), None) => a,
            (None, Some(b)) => b,
            (None, None) => {
                proof {
                    assert(blocks(xml@, tag@) =~= out.deep_view());
                }
                return out;
            },
        };
        proof {
            lemma_next_open(xml@, tag@, at as int);
            lemma_block_end(xml@, tag@, start as int);
        }
        let end: usize = match position_from(&cs, ">", start) {
            Some(gt) if gt > 0 && cs[gt - 1] == '/' => gt + 1,
            _ => match position_from(&cs, close.as_str(), start) {
                Some(e) => e + close_len,
                None => {
                    proof {
                        assert(blocks(xml@, tag@) =~= out.deep_view());
                    }
                    return out;
                },
            },
        };
        let block = substring(&cs, start, end);
        let ghost before = out.deep_view();
        out.push(block);
        proof {
            assert(out.deep_view() =~= before.push(block@));
            assert(before + (seq![block@] + blocks_from(xml@, tag@, end as int)) =~= before.push(
                block@,
            ) + blocks_from(xml@, tag@, end as int));
        }
        at = end;
    }
}

/// The value quoted behind the first `key` in `s`, where `key` ends with the
/// opening quotation mark.
pub open spec fn quoted(s: Seq<char>, key: Seq<char>) -> Option<Seq<char>> {
    match find(s, key) {
        None => None,
        Some(i) => match find_from(s, seq!['"'], i + key.len()) {
            None => None,
            Some(j) => Some(s.subrange(i + key.len(), j)),
        },
    }
}

/// The value quoted behind the first `key` in `s`.
pub fn quoted_after(s: &[char], key: &str) -> (r: Option<String>)
    ensures
        match r {
            Some(v) => quoted(s@, key@) == Some(v@),
            None => quoted(s@, key@) is None,
        },
{
    proof {
        reveal_strlit("\"");
        assert("\""@ =~= seq!['"']);
    }
    let key_len: usize = chars_of(key).len();
    let len: usize = s.len();
    match position(s, key) {
        None => None,
        Some(i) => match position_from(s, "\"", i + key_len) {
            None => None,
            Some(j) => Some(substring(s, i + key_len, j)),
        },
    }
}

/// The attributes of a bold property switch it off.
pub open spec fn turned_off(attributes: Seq<char>) -> bool {
    ||| contains(attributes, "w:val=\"0\""@)
    ||| contains(attributes, "w:val=\"false\""@)
    ||| contains(attributes, "w:val=\"none\""@)
}

/// A bold property that is on stands in `p` at `start`: `<w:b/>`, `<w:b>`, or
/// `<w:b …>` with attributes that do not switch it off.
pub open spec fn bold_on(p: Seq<char>, start: int) -> bool {
    &&& occurs_at(p, "<w:b"@, start)
    &&& start + 4 < p.len()
    &&& match p[start + 4] {
        '/' => true,
        '>' => true,
        ' ' => match find_from(p, seq!['>'], start + 4) {
            Some(gt) => !turned_off(p.subrange(start + 4, gt)),
            None => false,
        },
        _ => false,
    }
}

/// The bold property at `start` has attributes and no `>` behind them.
pub open spec fn bold_cut_off(p: Seq<char>, start: int) -> bool {
    &&& start + 4 < p.len()
    &&& p[start + 4] == ' '
    &&& find_from(p, seq!['>'], start + 4) is None
}

/// Where the search goes on behind a `<w:b` at `start` that is not on: behind
/// its attributes where it has some (`<w:bCs>` and the like have none).
pub open spec fn behind_bold(p: Seq<char>, start: int) -> int {
    if start + 4 < p.len() && p[start + 4] == ' ' {
        find_from(p, seq!['>'], start + 4)->0
    } else {
        start + 4
    }
}

/// A bold property that is on stands in `p` from `at` on, before any that is
/// cut off.
pub open spec fn bold_from(p: Seq<char>, at: int) -> bool
    decreases p.len() - at,
{
    match find_from(p, "<w:b"@, at) {
        None => false,
        Some(start) => {
            ||| bold_on(p, start)
            ||| !bold_cut_off(p, start) && at < behind_bold(p, start) <= p.len() && bold_from(
                p,
                behind_bold(p, start),
            )
        },
    }
}

/// A paragraph counts as bold only if a bold property in it is on.
pub proof fn bold_is_explicit(p: Seq<char>, at: int)
    requires
        0 <= at,
        bold_from(p, at),
    ensures
        exists|start: int| at <= start && bold_on(p, start),
    decreases p.len() - at,
{
    find_is_first(p, "<w:b"@, at);
    let start = find_from(p, "<w:b"@, at)->0;
    if !bold_on(p, start) {
        bold_is_explicit(p, behind_bold(p, start));
    }
}

/// Each `<` in `p` has a `>` behind it.
pub open spec fn tags_close(p: Seq<char>) -> bool {
    forall|i: int|
        0 <= i < p.len() && #[trigger] p[i] == '<' ==> exists|j: int|
            i < j < p.len() && #[trigger] p[j] == '>'
}

/// A text behind another one moves where things are first found in it.
pub(crate) proof fn lemma_find_behind(p: Seq<char>, q: Seq<char>, pat: Seq<char>, at: int)
    requires
        0 <= at,
    ensures
        find_from(p + q, pat, p.len() + at) == match find_from(q, pat, at) {
            Some(i) => Some(p.len() + i),
            None => None,
        },
    decreases q.len() + 1 - at,
{
    if at + pat.len() <= q.len() {
        assert((p + q).subrange(p.len() + at, p.len() + at + pat.len()) =~= q.subrange(
            at,
            at + pat.len(),
        ));
        if !occurs_at(q, pat, at) {
            lemma_find_behind(p, q, pat, at + 1);
        }
    }
}

/// What is found in a text is found at the same place with another one behind
/// it.
proof fn lemma_find_before(p: Seq<char>, q: Seq<char>, pat: Seq<char>, at: int)
    requires
        0 <= at,
        find_from(p, pat, at) is Some,
    ensures
        find_from(p + q, pat, at) == find_from(p, pat, at),
    decreases p.len() + 1 - at,
{
    assert((p + q).subrange(at, at + pat.len()) =~= p.subrange(at, at + pat.len()));
    if !occurs_at(p, pat, at) {
        lemma_find_before(p, q, pat, at + 1);
    }
}

/// Where each `<` of a text has its `>`, no `<w:b` reaches out of it.
proof fn lemma_bold_stays_inside(p: Seq<char>, q: Seq<char>, at: int)
    requires
        0 <= at <= p.len(),
        tags_close(p),
        find_from(p, "<w:b"@, at) is None,
    ensures
        find_from(p + q, "<w:b"@, at) == find_from(p + q, "<w:b"@, p.len() as int),
    decreases p.len() - at,
{
    reveal_strlit("<w:b");
    let pat = "<w:b"@;
    if at < p.len() {
        let s = p + q;
        if occurs_at(s, pat, at) {
            lemma_occurrence(s, pat, at);
            assert(s[at + 0] == pat[0]);
            assert(s[at + 1] == pat[1]);
            assert(s[at + 2] == pat[2]);
            assert(s[at + 3] == pat[3]);
            assert(p[at] == '<');
            let j = choose|j: int| at < j < p.len() && #[trigger] p[j] == '>';
            assert(s[j] == '>');
            assert(at + 4 <= j);
            assert(p.subrange(at, at + 4) =~= s.subrange(at, at + 4));
            assert(occurs_at(p, pat, at));
            assert(false);
        }
        find_is_first(p, pat, at);
        find_is_first(p, pat, at + 1);
        assert(find_from(p, pat, at + 1) is None);
        lemma_bold_stays_inside(p, q, at + 1);
        if at + pat.len() > s.len() {
            assert(find_from(s, pat, at) is None);
        }
    }
}

/// Bold in a text is bold behind another one.
proof fn lemma_bold_behind(p: Seq<char>, q: Seq<char>, at: int)
    requires
        0 <= at <= q.len(),
    ensures
        bold_from(p + q, p.len() + at) == bold_from(q, at),
    decreases q.len() - at,
{
    reveal_strlit("<w:b");
    let s = p + q;
    let n = p.len() as int;
    lemma_find_behind(p, q, "<w:b"@, at);
    find_is_first(q, "<w:b"@, at);
    if let Some(start) = find_from(q, "<w:b"@, at) {
        assert(s.subrange(n + start, n + start + 4) =~= q.subrange(start, start + 4));
        lemma_find_behind(p, q, seq!['>'], start + 4);
        find_is_first(q, seq!['>'], start + 4);
        if start + 4 < q.len() {
            assert(s[n + start + 4] == q[start + 4]);
        }
        if let Some(gt) = find_from(q, seq!['>'], start + 4) {
            assert(s.subrange(n + start + 4, n + gt) =~= q.subrange(start + 4, gt));
        }
        assert(bold_on(s, n + start) == bold_on(q, start));
        assert(bold_cut_off(s, n + start) == bold_cut_off(q, start));
        if !bold_on(q, start) && !bold_cut_off(q, start) {
            assert(behind_bold(s, n + start) == n + behind_bold(q, start));
            lemma_bold_behind(p, q, behind_bold(q, start));
        }
    }
}

proof fn lemma_bold_of_parts(p: Seq<char>, q: Seq<char>, at: int)
    requires
        0 <= at <= p.len(),
        tags_close(p),
    ensures
        bold_from(p + q, at) == (bold_from(p, at) || bold_from(q, 0)),
    decreases p.len() - at,
{
    reveal_strlit("<w:b");
    let s = p + q;
    find_is_first(p, "<w:b"@, at);
    match find_from(p, "<w:b"@, at) {
        None => {
            lemma_bold_stays_inside(p, q, at);
            lemma_bold_behind(p, q, 0);
            lemma_bold_from_found(s, at, p.len() as int);
        },
        Some(start) => {
            lemma_find_before(p, q, "<w:b"@, at);
            lemma_occurrence(p, "<w:b"@, start);
            assert(p[start + 0] == "<w:b"@[0]);
            assert(p[start + 1] == "<w:b"@[1]);
            assert(p[start + 2] == "<w:b"@[2]);
            assert(p[start + 3] == "<w:b"@[3]);
            let j = choose|j: int| start < j < p.len() && #[trigger] p[j] == '>';
            assert(start + 4 <= j);
            assert(p.subrange(j, j + 1) =~= seq!['>']);
            assert(occurs_at(p, seq!['>'], j));
            find_is_first(p, seq!['>'], start + 4);
            lemma_find_before(p, q, seq!['>'], start + 4);
            let gt = find_from(p, seq!['>'], start + 4)->0;
            assert(s.subrange(start, start + 4) =~= p.subrange(start, start + 4));
            assert(s.subrange(start + 4, gt) =~= p.subrange(start + 4, gt));
            assert(s[start + 4] == p[start + 4]);
            assert(bold_on(s, start) == bold_on(p, start));
            assert(!bold_cut_off(s, start) && !bold_cut_off(p, start));
            assert(behind_bold(s, start) == behind_bold(p, start));
            if !bold_on(p, start) {
                lemma_bold_of_parts(p, q, behind_bold(p, start));
            }
        },
    }
}

/// Whether a text is bold from a place on depends on what is found from there.
proof fn lemma_bold_from_found(s: Seq<char>, a: int, b: int)
    requires
        0 <= a <= b,
        find_from(s, "<w:b"@, a) == find_from(s, "<w:b"@, b),
    ensures
        bold_from(s, a) == bold_from(s, b),
{
    reveal_strlit("<w:b");
    find_is_first(s, "<w:b"@, b);
    if let Some(start) = find_from(s, "<w:b"@, b) {
        find_is_first(s, seq!['>'], start + 4);
    }
}

/// A text is bold exactly when one of its two parts is: a run that turns bold off
/// never hides an explicitly bold run before or behind it. The first part has a
/// `>` behind each of its `<`.
pub proof fn bold_of_parts(p: Seq<char>, q: Seq<char>)
    requires
        tags_close(p),
    ensures
        bold_from(p + q, 0) == (bold_from(p, 0) || bold_from(q, 0)),
{
    lemma_bold_of_parts(p, q, 0);
}

/// Is any run in this paragraph explicitly bold? `<w:b/>`, `<w:b>` or
/// `<w:b w:…>` with a value other than 0/false/none (Word writes those to turn
/// an inherited bold off). `<w:bCs>` and `<w:bdr>` share the prefix and are
/// skipped.
pub fn has_bold(p: &str) -> (r: bool)
    ensures
        r == bold_from(p@, 0),
{
    let cs: Vec<char> = chars_of(p);
    let len: usize = cs.len();
    let mut at: usize = 0;
    proof {
        reveal_strlit("<w:b");
        reveal_strlit(">");
        assert(">"@ =~= seq!['>']);
    }
    loop
        invariant
            cs@ == p@,
            len == cs@.len(),
            at <= len,
            "<w:b"@.len() == 4,
            ">"@ == seq!['>'],
            bold_from(p@, 0) == bold_from(p@, at as int),
        decreases len - at,
    {
        let start: usize = match position_from(&cs, "<w:b", at) {
            Some(i) => i,
            None => return false,
        };
        proof {
            find_is_first(p@, "<w:b"@, at as int);
        }
        let next: usize = start + 4;
        if next < len && (cs[next] == '/' || cs[next] == '>') {
            return true;
        }
        if next < len && cs[next] == ' ' {
            match position_from(&cs, ">", next) {
                None => return false,
                Some(gt) => {
                    let tag = &cs[next..gt];
                    if !(holds(tag, "w:val=\"0\"") || holds(tag, "w:val=\"false\"") || holds(
                        tag,
                        "w:val=\"none\"",
                    )) {
                        return true;
                    }
                    at = gt;
                },
            }
        } else {
            at = next;
        }
    }
}

// ---------------------------------------------------------------------------
// Laws
// ---------------------------------------------------------------------------

/// The element that opens at `start` ends before `end`: at its first `>`, where a
/// slash stands before that, and else behind the first closing tag.
pub open spec fn is_first_end(xml: Seq<char>, tag: Seq<char>, start: int, end: int) -> bool {
    exists|gt: int| #[trigger]
        is_first_mark(xml, start, gt) && if xml[gt - 1] == '/' {
            end == gt + 1
        } else {
            &&& occurs_at(xml, closing(tag), end - closing(tag).len())
            &&& start <= end - closing(tag).len()
            &&& forall|j: int|
                start <= j < end - closing(tag).len() ==> !#[trigger] occurs_at(
                    xml,
                    closing(tag),
                    j,
                )
        }
}

/// `gt` is where the first `>` behind `start` stands.
pub open spec fn is_first_mark(xml: Seq<char>, start: int, gt: int) -> bool {
    &&& start < gt < xml.len()
    &&& xml[gt] == '>'
    &&& forall|j: int| start <= j < gt ==> #[trigger] xml[j] != '>'
}

proof fn lemma_first_mark(xml: Seq<char>, start: int, gt: int)
    requires
        0 <= start,
        is_first_mark(xml, start, gt),
    ensures
        find_from(xml, seq!['>'], start) == Some(gt),
{
    find_is_first(xml, seq!['>'], start);
    assert(xml.subrange(gt, gt + 1) =~= seq!['>']);
    assert(occurs_at(xml, seq!['>'], gt));
    let found = find_from(xml, seq!['>'], start)->0;
    lemma_occurrence(xml, seq!['>'], found);
    assert(xml[found + 0] == seq!['>'][0]);
}

/// The blocks are the elements one after the other: from `at` on, the first
/// element that opens there, whole, and then the blocks from its end on.
pub proof fn blocks_go_on_behind_each(
    xml: Seq<char>,
    tag: Seq<char>,
    at: int,
    start: int,
    end: int,
)
    requires
        0 <= at <= start,
        opens_at(xml, tag, start),
        forall|j: int| at <= j < start ==> !#[trigger] opens_at(xml, tag, j),
        is_first_end(xml, tag, start, end),
    ensures
        blocks_from(xml, tag, at) == seq![xml.subrange(start, end)] + blocks_from(xml, tag, end),
{
    find_is_first(xml, bare_open(tag), at);
    find_is_first(xml, attributed_open(tag), at);
    if let Some(i) = find_from(xml, bare_open(tag), at) {
        assert(opens_at(xml, tag, i));
    }
    if let Some(i) = find_from(xml, attributed_open(tag), at) {
        assert(opens_at(xml, tag, i));
    }
    assert(next_open(xml, tag, at) == Some(start));
    let gt = choose|gt: int| #[trigger]
        is_first_mark(xml, start, gt) && if xml[gt - 1] == '/' {
            end == gt + 1
        } else {
            &&& occurs_at(xml, closing(tag), end - closing(tag).len())
            &&& start <= end - closing(tag).len()
            &&& forall|j: int|
                start <= j < end - closing(tag).len() ==> !#[trigger] occurs_at(
                    xml,
                    closing(tag),
                    j,
                )
        };
    lemma_first_mark(xml, start, gt);
    find_is_first(xml, closing(tag), start);
    assert(block_end(xml, tag, start) == Some(end));
}

/// There are no blocks where no element opens, nor where the first that opens
/// has no end.
pub proof fn no_blocks_without_elements(xml: Seq<char>, tag: Seq<char>, at: int)
    requires
        0 <= at,
    ensures
        (forall|j: int| at <= j ==> !#[trigger] opens_at(xml, tag, j)) ==> blocks_from(
            xml,
            tag,
            at,
        ).len() == 0,
        forall|start: int|
            {
                &&& at <= start
                &&& #[trigger] opens_at(xml, tag, start)
                &&& forall|j: int| at <= j < start ==> !#[trigger] opens_at(xml, tag, j)
                &&& !closes_itself(xml, start)
                &&& forall|j: int| start <= j ==> !#[trigger] occurs_at(xml, closing(tag), j)
            } ==> blocks_from(xml, tag, at).len() == 0,
{
    find_is_first(xml, bare_open(tag), at);
    find_is_first(xml, attributed_open(tag), at);
    if let Some(i) = find_from(xml, bare_open(tag), at) {
        assert(opens_at(xml, tag, i));
    }
    if let Some(i) = find_from(xml, attributed_open(tag), at) {
        assert(opens_at(xml, tag, i));
    }
    if let Some(i) = next_open(xml, tag, at) {
        assert(opens_at(xml, tag, i));
        find_is_first(xml, closing(tag), i);
    }
}

/// A value stands between the first place where its key does and the next
/// quotation mark, as it is.
pub proof fn value_stands_in_quotes(
    front: Seq<char>,
    key: Seq<char>,
    value: Seq<char>,
    rest: Seq<char>,
)
    requires
        forall|j: int|
            0 <= j < front.len() ==> !#[trigger] occurs_at(
                front + key + value + seq!['"'] + rest,
                key,
                j,
            ),
        forall|j: int| 0 <= j < value.len() ==> #[trigger] value[j] != '"',
    ensures
        quoted(front + key + value + seq!['"'] + rest, key) == Some(value),
{
    let s = front + key + value + seq!['"'] + rest;
    let i = front.len() as int;
    let from = i + key.len();
    let j = from + value.len();
    find_is_first(s, key, 0);
    assert(s.subrange(i, from) =~= key);
    assert(occurs_at(s, key, i));
    assert(find(s, key) == Some(i));
    find_is_first(s, seq!['"'], from);
    assert(s.subrange(j, j + 1) =~= seq!['"']);
    assert(occurs_at(s, seq!['"'], j));
    let found = find_from(s, seq!['"'], from)->0;
    lemma_occurrence(s, seq!['"'], found);
    assert(s[found + 0] == seq!['"'][0]);
    if found < j {
        assert(s[found] == value[found - from]);
    }
    assert(s.subrange(from, j) =~= value);
}

/// Without its key there is no value, nor without a quotation mark behind it.
pub proof fn no_value_without_quotes(s: Seq<char>, key: Seq<char>)
    ensures
        (forall|i: int| !#[trigger] occurs_at(s, key, i)) ==> quoted(s, key) is None,
        forall|i: int|
            {
                &&& #[trigger] occurs_at(s, key, i)
                &&& forall|j: int| 0 <= j < i ==> !#[trigger] occurs_at(s, key, j)
                &&& forall|j: int| i + key.len() <= j < s.len() ==> #[trigger] s[j] != '"'
            } ==> quoted(s, key) is None,
{
    find_is_first(s, key, 0);
    if let Some(i) = find(s, key) {
        find_is_first(s, seq!['"'], i + key.len());
        if let Some(j) = find_from(s, seq!['"'], i + key.len()) {
            lemma_occurrence(s, seq!['"'], j);
            assert(s[j + 0] == seq!['"'][0]);
        }
    }
}

/// A bold tag makes its text bold unless its attributes turn it off: with the
/// value `0`, `false` or `none`.
pub proof fn bold_tag_decides(attributes: Seq<char>)
    requires
        forall|i: int|
            0 <= i < attributes.len() ==> #[trigger] attributes[i] != '<' && attributes[i] != '>',
    ensures
        bold_from("<w:b "@ + attributes + seq!['>'], 0) == !(contains(
            seq![' '] + attributes,
            "w:val=\"0\""@,
        ) || contains(seq![' '] + attributes, "w:val=\"false\""@) || contains(
            seq![' '] + attributes,
            "w:val=\"none\""@,
        )),
{
    reveal_strlit("<w:b ");
    reveal_strlit("<w:b");
    let p = "<w:b "@ + attributes + seq!['>'];
    let n = p.len() - 1;
    assert(p.subrange(0, 4) =~= "<w:b"@);
    assert(occurs_at(p, "<w:b"@, 0));
    assert(is_first_mark(p, 4, n)) by {
        assert forall|j: int| 4 <= j < n implies #[trigger] p[j] != '>' by {
            if j > 4 {
                assert(p[j] == attributes[j - 5]);
            }
        }
    }
    lemma_first_mark(p, 4, n);
    assert(p.subrange(4, n) =~= seq![' '] + attributes);
    find_is_first(p, "<w:b"@, n);
    assert(find_from(p, "<w:b"@, n) is None);
    assert(!bold_from(p, n));
    assert(bold_on(p, 0) == !turned_off(p.subrange(4, n)));
    assert(find_from(p, "<w:b"@, 0) == Some(0int));
}

/// The plain bold tags make their text bold, and a tag whose name goes on behind
/// `w:b` is another one.
pub proof fn other_tags_are_not_bold(c: char, rest: Seq<char>)
    ensures
        c == '/' || c == '>' ==> bold_from("<w:b"@ + seq![c] + rest, 0),
        c != '/' && c != '>' && c != ' ' && c != '<' && (forall|i: int|
            0 <= i < rest.len() ==> #[trigger] rest[i] != '<') ==> !bold_from(
            "<w:b"@ + seq![c] + rest,
            0,
        ),
{
    reveal_strlit("<w:b");
    let p = "<w:b"@ + seq![c] + rest;
    assert(p.subrange(0, 4) =~= "<w:b"@);
    assert(occurs_at(p, "<w:b"@, 0));
    assert(p[4] == c);
    find_is_first(p, "<w:b"@, 4);
    if let Some(i) = find_from(p, "<w:b"@, 4) {
        lemma_occurrence(p, "<w:b"@, i);
        assert(p[i + 0] == "<w:b"@[0]);
        if i > 4 {
            assert(p[i] == rest[i - 5]);
        }
    }
    assert(find_from(p, "<w:b"@, 0) == Some(0int));
    if c != '/' && c != '>' && c != ' ' && c != '<' && (forall|i: int|
        0 <= i < rest.len() ==> #[trigger] rest[i] != '<') {
        assert(find_from(p, "<w:b"@, 4) is None);
        assert(!bold_from(p, 4));
        assert(behind_bold(p, 0) == 4);
    }
}

/// The opening tags and the closing tag of an element.
pub proof fn tags_are_spelled_out(xml: Seq<char>, tag: Seq<char>, i: int)
    ensures
        opens_at(xml, tag, i) <==> occurs_at(xml, "<"@ + tag + ">"@, i) || occurs_at(
            xml,
            "<"@ + tag + " "@,
            i,
        ),
        closing(tag) == "</"@ + tag + ">"@,
{
    reveal_strlit("<");
    reveal_strlit(">");
    reveal_strlit(" ");
    reveal_strlit("</");
    assert(bare_open(tag) =~= "<"@ + tag + ">"@);
    assert(attributed_open(tag) =~= "<"@ + tag + " "@);
    assert(closing(tag) =~= "</"@ + tag + ">"@);
}

} // verus!
