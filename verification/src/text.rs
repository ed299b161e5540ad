//! Text as sequences of characters: searching, trimming, case folding,
//! splitting into words and writing numbers.
//!
//! A `str` is read once into a `Vec<char>`; every function below works on
//! character positions, so an index never falls inside a character.

use vstd::prelude::*;
use vstd::utf8::*;

verus! {

/// `String::push` of std: "Appends the given char to the end of this String."
pub assume_specification[ String::push ](s: &mut String, c: char)
    ensures
        final(s)@ == old(s)@.push(c),
;

// ---------------------------------------------------------------------------
// Characters
// ---------------------------------------------------------------------------

/// The characters with the Unicode property `White_Space`.
pub open spec fn is_space(c: char) -> bool {
    ||| 0x9 <= c as u32 <= 0xd
    ||| c as u32 == 0x20
    ||| c as u32 == 0x85
    ||| c as u32 == 0xa0
    ||| c as u32 == 0x1680
    ||| 0x2000 <= c as u32 <= 0x200a
    ||| c as u32 == 0x2028
    ||| c as u32 == 0x2029
    ||| c as u32 == 0x202f
    ||| c as u32 == 0x205f
    ||| c as u32 == 0x3000
}

/// An ASCII decimal digit.
pub open spec fn is_digit(c: char) -> bool {
    '0' <= c <= '9'
}

/// An ASCII lower-case letter.
pub open spec fn is_lower(c: char) -> bool {
    'a' <= c <= 'z'
}

/// An ASCII upper-case letter.
pub open spec fn is_upper(c: char) -> bool {
    'A' <= c <= 'Z'
}

/// An ASCII letter or digit.
pub open spec fn is_alphanumeric(c: char) -> bool {
    is_digit(c) || is_lower(c) || is_upper(c)
}

/// `c` with an ASCII upper-case letter replaced by its lower-case form.
pub open spec fn lower_char(c: char) -> char {
    if is_upper(c) {
        ((c as u32) + 32) as char
    } else {
        c
    }
}

/// Whether `c` is white space.
pub fn char_is_space(c: char) -> (r: bool)
    ensures
        r == is_space(c),
{
    let u: u32 = c as u32;
    (0x9 <= u && u <= 0xd) || u == 0x20 || u == 0x85 || u == 0xa0 || u == 0x1680 || (0x2000 <= u
        && u <= 0x200a) || u == 0x2028 || u == 0x2029 || u == 0x202f || u == 0x205f || u == 0x3000
}

/// Whether `c` is an ASCII digit.
pub fn char_is_digit(c: char) -> (r: bool)
    ensures
        r == is_digit(c),
{
    '0' <= c && c <= '9'
}

/// Whether `c` is an ASCII letter or digit.
pub fn char_is_alphanumeric(c: char) -> (r: bool)
    ensures
        r == is_alphanumeric(c),
{
    ('0' <= c && c <= '9') || ('a' <= c && c <= 'z') || ('A' <= c && c <= 'Z')
}

/// `c` in ASCII lower case.
pub fn char_to_lower(c: char) -> (r: char)
    ensures
        r == lower_char(c),
{
    if 'A' <= c && c <= 'Z' {
        let u: u8 = c as u8;
        (u + 32) as char
    } else {
        c
    }
}

// ---------------------------------------------------------------------------
// Between strings and characters
// ---------------------------------------------------------------------------

/// The characters of `s`.
pub fn chars_of(s: &str) -> (r: Vec<char>)
    ensures
        r@ == s@,
{
    let mut out: Vec<char> = Vec::new();
    for c in it: s.chars()
        invariant
            out@ == it.seq().take(it.index() as int),
            it.seq() == s@,
    {
        out.push(c);
    }
    out
}

/// The string made of the characters `cs`.
pub fn string_of(cs: &[char]) -> (r: String)
    ensures
        r@ == cs@,
{
    let mut out = String::new();
    for i in 0..cs.len()
        invariant
            out@ == cs@.take(i as int),
    {
        out.push(cs[i]);
    }
    assert(cs@.take(cs@.len() as int) == cs@);
    out
}

/// The string made of `cs` from `from` up to `to`.
pub fn substring(cs: &[char], from: usize, to: usize) -> (r: String)
    requires
        from <= to <= cs@.len(),
    ensures
        r@ == cs@.subrange(from as int, to as int),
{
    string_of(&cs[from..to])
}

/// Whether two strings hold the same text.
pub fn same(a: &str, b: &str) -> (r: bool)
    ensures
        r == (a@ == b@),
{
    let x = a.as_bytes();
    let y = b.as_bytes();
    if x.len() != y.len() {
        return false;
    }
    for i in 0..x.len()
        invariant
            x@ == encode_utf8(a@),
            y@ == encode_utf8(b@),
            x@.len() == y@.len(),
            x@.take(i as int) == y@.take(i as int),
    {
        if x[i] != y[i] {
            return false;
        }
        assert(x@.take(i + 1) == x@.take(i as int).push(x@[i as int]));
        assert(y@.take(i + 1) == y@.take(i as int).push(y@[i as int]));
    }
    proof {
        assert(x@.take(x@.len() as int) == x@);
        assert(y@.take(y@.len() as int) == y@);
        encode_utf8_decode_utf8(a@);
        encode_utf8_decode_utf8(b@);
    }
    true
}

/// Appends the characters of `tail` to `s`.
pub fn push_all(s: &mut Vec<char>, tail: &str)
    ensures
        final(s)@ == old(s)@ + tail@,
{
    let mut t: Vec<char> = chars_of(tail);
    s.append(&mut t);
}

// ---------------------------------------------------------------------------
// Searching
// ---------------------------------------------------------------------------

/// `pat` stands in `s` at position `i`.
pub open spec fn occurs_at(s: Seq<char>, pat: Seq<char>, i: int) -> bool {
    &&& 0 <= i
    &&& i + pat.len() <= s.len()
    &&& s.subrange(i, i + pat.len()) == pat
}

/// The first position at or after `at` where `pat` stands in `s`.
pub open spec fn find_from(s: Seq<char>, pat: Seq<char>, at: int) -> Option<int>
    decreases s.len() + 1 - at,
{
    if at < 0 || at + pat.len() > s.len() {
        None
    } else if occurs_at(s, pat, at) {
        Some(at)
    } else {
        find_from(s, pat, at + 1)
    }
}

/// The first position where `pat` stands in `s`.
pub open spec fn find(s: Seq<char>, pat: Seq<char>) -> Option<int> {
    find_from(s, pat, 0)
}

/// The last position not after `to` where `pat` stands in `s`.
pub open spec fn rfind_to(s: Seq<char>, pat: Seq<char>, to: int) -> Option<int>
    decreases to + 1,
{
    if to < 0 {
        None
    } else if occurs_at(s, pat, to) {
        Some(to)
    } else {
        rfind_to(s, pat, to - 1)
    }
}

/// The last position where `pat` stands in `s`.
pub open spec fn rfind(s: Seq<char>, pat: Seq<char>) -> Option<int> {
    rfind_to(s, pat, s.len() as int)
}

/// `pat` stands somewhere in `s`.
pub open spec fn contains(s: Seq<char>, pat: Seq<char>) -> bool {
    find(s, pat) is Some
}

/// `s` begins with `pat`.
pub open spec fn starts_with(s: Seq<char>, pat: Seq<char>) -> bool {
    occurs_at(s, pat, 0)
}

/// `s` ends with `pat`.
pub open spec fn ends_with(s: Seq<char>, pat: Seq<char>) -> bool {
    occurs_at(s, pat, s.len() - pat.len())
}

/// `find_from` gives the first position: `pat` stands there, at no earlier
/// position from `at` on, and nowhere from `at` on when the answer is `None`.
pub proof fn find_is_first(s: Seq<char>, pat: Seq<char>, at: int)
    requires
        0 <= at,
    ensures
        match find_from(s, pat, at) {
            Some(i) => at <= i && occurs_at(s, pat, i) && forall|j: int|
                at <= j < i ==> !occurs_at(s, pat, j),
            None => forall|j: int| at <= j ==> !occurs_at(s, pat, j),
        },
    decreases s.len() + 1 - at,
{
    if at + pat.len() > s.len() {
    } else if occurs_at(s, pat, at) {
    } else {
        find_is_first(s, pat, at + 1);
    }
}

/// `rfind_to` gives the last position: `pat` stands there and at no later
/// position up to `to`, and nowhere up to `to` when the answer is `None`.
pub proof fn rfind_is_last(s: Seq<char>, pat: Seq<char>, to: int)
    ensures
        match rfind_to(s, pat, to) {
            Some(i) => i <= to && occurs_at(s, pat, i) && forall|j: int|
                i < j <= to ==> !occurs_at(s, pat, j),
            None => forall|j: int| j <= to ==> !occurs_at(s, pat, j),
        },
    decreases to + 1,
{
    if to < 0 {
    } else if occurs_at(s, pat, to) {
    } else {
        rfind_is_last(s, pat, to - 1);
    }
}

/// Whether `pat` stands in `s` at `i`.
pub fn matches_at(s: &[char], pat: &[char], i: usize) -> (r: bool)
    ensures
        r == occurs_at(s@, pat@, i as int),
{
    if i > s.len() || pat.len() > s.len() - i {
        return false;
    }
    for k in 0..pat.len()
        invariant
            i + pat@.len() <= s@.len(),
            i <= s.len(),
            pat.len() <= s.len() - i,
            forall|j: int| 0 <= j < k ==> s@[i + j] == pat@[j],
    {
        if s[i + k] != pat[k] {
            proof {
                assert(s@.subrange(i as int, i + pat@.len())[k as int] == s@[i + k]);
            }
            return false;
        }
    }
    assert(s@.subrange(i as int, i + pat@.len()) == pat@);
    true
}

/// The first position at or after `at` where `pat` stands in `s`.
pub fn position_from(s: &[char], pat: &str, at: usize) -> (r: Option<usize>)
    ensures
        match r {
            Some(i) => find_from(s@, pat@, at as int) == Some(i as int) && at <= i && i + pat@.len()
                <= s@.len(),
            None => find_from(s@, pat@, at as int) is None,
        },
{
    let p: Vec<char> = chars_of(pat);
    let mut i: usize = at;
    if i > s.len() {
        return None;
    }
    while p.len() <= s.len() - i
        invariant
            p@ == pat@,
            at <= i <= s@.len(),
            find_from(s@, pat@, at as int) == find_from(s@, pat@, i as int),
        decreases s@.len() - i,
    {
        if matches_at(s, &p, i) {
            return Some(i);
        }
        if i == s.len() {
            proof {
                assert(s@.subrange(i as int, i as int) =~= p@);
            }
            return None;
        }
        i = i + 1;
    }
    None
}

/// The first position where `pat` stands in `s`.
pub fn position(s: &[char], pat: &str) -> (r: Option<usize>)
    ensures
        match r {
            Some(i) => find(s@, pat@) == Some(i as int) && i + pat@.len() <= s@.len(),
            None => find(s@, pat@) is None,
        },
{
    position_from(s, pat, 0)
}

/// The last position where `pat` stands in `s`.
pub fn last_position(s: &[char], pat: &str) -> (r: Option<usize>)
    ensures
        match r {
            Some(i) => rfind(s@, pat@) == Some(i as int) && i + pat@.len() <= s@.len(),
            None => rfind(s@, pat@) is None,
        },
{
    let p: Vec<char> = chars_of(pat);
    let mut i: usize = s.len();
    loop
        invariant
            p@ == pat@,
            i <= s@.len(),
            rfind(s@, pat@) == rfind_to(s@, pat@, i as int),
        decreases i,
    {
        if matches_at(s, &p, i) {
            return Some(i);
        }
        if i == 0 {
            assert(rfind_to(s@, pat@, -1) is None);
            return None;
        }
        i = i - 1;
    }
}

/// Whether `pat` stands somewhere in `s`.
pub fn holds(s: &[char], pat: &str) -> (r: bool)
    ensures
        r == contains(s@, pat@),
{
    position(s, pat).is_some()
}

/// Whether `s` begins with `pat`.
pub fn begins(s: &[char], pat: &str) -> (r: bool)
    ensures
        r == starts_with(s@, pat@),
{
    let p: Vec<char> = chars_of(pat);
    matches_at(s, &p, 0)
}

/// Whether `s` ends with `pat`.
pub fn finishes(s: &[char], pat: &str) -> (r: bool)
    ensures
        r == ends_with(s@, pat@),
{
    let p: Vec<char> = chars_of(pat);
    if p.len() > s.len() {
        return false;
    }
    matches_at(s, &p, s.len() - p.len())
}

// ---------------------------------------------------------------------------
// Trimming, words, lower case
// ---------------------------------------------------------------------------

/// `s` without the white space it begins with.
pub open spec fn trim_start(s: Seq<char>) -> Seq<char>
    decreases s.len(),
{
    if s.len() > 0 && is_space(s[0]) {
        trim_start(s.skip(1))
    } else {
        s
    }
}

/// `s` without the white space it ends with.
pub open spec fn trim_end(s: Seq<char>) -> Seq<char>
    decreases s.len(),
{
    if s.len() > 0 && is_space(s.last()) {
        trim_end(s.drop_last())
    } else {
        s
    }
}

/// `s` without the white space at its two ends.
pub open spec fn trim(s: Seq<char>) -> Seq<char> {
    trim_end(trim_start(s))
}

/// Nothing is left of `s` once it is trimmed.
pub open spec fn is_blank(s: Seq<char>) -> bool {
    trim(s).len() == 0
}

/// A text is blank if and only if each of its characters is white space.
pub proof fn blank_is_all_space(s: Seq<char>)
    ensures
        is_blank(s) <==> forall|i: int| 0 <= i < s.len() ==> is_space(#[trigger] s[i]),
{
    trim_start_is_suffix(s);
    let t = trim_start(s);
    let n = s.len() - t.len();
    trim_end_is_prefix(t);
    if is_blank(s) {
        assert forall|i: int| 0 <= i < s.len() implies is_space(#[trigger] s[i]) by {
            if i >= n {
                assert(t[i - n] == s[i]);
            }
        }
    } else {
        assert(t.len() > 0);
        assert(s[n] == t[0]);
    }
}

/// What `trim_start` leaves is the rest of `s` behind white space, and begins
/// with none.
pub proof fn trim_start_is_suffix(s: Seq<char>)
    ensures
        trim_start(s).len() <= s.len(),
        trim_start(s) == s.skip(s.len() - trim_start(s).len()),
        forall|i: int| 0 <= i < s.len() - trim_start(s).len() ==> is_space(#[trigger] s[i]),
        trim_start(s).len() > 0 ==> !is_space(trim_start(s)[0]),
    decreases s.len(),
{
    if s.len() > 0 && is_space(s[0]) {
        let t = s.skip(1);
        trim_start_is_suffix(t);
        let k = t.len() - trim_start(t).len();
        assert(t.skip(k) == s.skip(k + 1));
        assert forall|i: int| 0 <= i < s.len() - trim_start(s).len() implies is_space(
            #[trigger] s[i],
        ) by {
            if i > 0 {
                assert(s[i] == t[i - 1]);
            }
        }
    } else {
        assert(s.skip(0) == s);
    }
}

/// What `trim_end` leaves is the part of `s` before white space, and ends with
/// none.
pub proof fn trim_end_is_prefix(s: Seq<char>)
    ensures
        trim_end(s).len() <= s.len(),
        trim_end(s) == s.take(trim_end(s).len() as int),
        forall|i: int| trim_end(s).len() <= i < s.len() ==> is_space(#[trigger] s[i]),
        trim_end(s).len() > 0 ==> !is_space(trim_end(s).last()),
    decreases s.len(),
{
    if s.len() > 0 && is_space(s.last()) {
        let t = s.drop_last();
        trim_end_is_prefix(t);
        assert(t.take(trim_end(t).len() as int) == s.take(trim_end(t).len() as int));
        assert forall|i: int| trim_end(s).len() <= i < s.len() implies is_space(#[trigger] s[i]) by {
            if i < s.len() - 1 {
                assert(s[i] == t[i]);
            }
        }
    } else {
        assert(s.take(s.len() as int) == s);
    }
}

/// Trimming a second time changes nothing.
pub proof fn trim_twice(s: Seq<char>)
    ensures
        trim(trim(s)) == trim(s),
{
    let t = trim_start(s);
    let u = trim_end(t);
    trim_start_is_suffix(s);
    trim_end_is_prefix(t);
    if u.len() > 0 {
        assert(u[0] == t[0]);
    }
}

/// The number of white-space characters that `s` begins with.
fn leading_spaces(s: &[char]) -> (n: usize)
    ensures
        n <= s@.len(),
        trim_start(s@) == s@.skip(n as int),
{
    let mut i: usize = 0;
    proof {
        assert(s@.skip(0) == s@);
    }
    while i < s.len() && char_is_space(s[i])
        invariant
            i <= s@.len(),
            trim_start(s@) == trim_start(s@.skip(i as int)),
        decreases s@.len() - i,
    {
        proof {
            assert(s@.skip(i as int).skip(1) == s@.skip(i + 1));
        }
        i = i + 1;
    }
    proof {
        if i < s@.len() {
            assert(s@.skip(i as int)[0] == s@[i as int]);
        }
    }
    i
}

/// The length of `s` up to the white space it ends with.
fn length_to_last_non_space(s: &[char]) -> (n: usize)
    ensures
        n <= s@.len(),
        trim_end(s@) == s@.take(n as int),
{
    let mut i: usize = s.len();
    proof {
        assert(s@.take(s@.len() as int) == s@);
    }
    while i > 0 && char_is_space(s[i - 1])
        invariant
            i <= s@.len(),
            trim_end(s@) == trim_end(s@.take(i as int)),
        decreases i,
    {
        proof {
            assert(s@.take(i as int).drop_last() == s@.take(i - 1));
        }
        i = i - 1;
    }
    proof {
        if i > 0 {
            assert(s@.take(i as int).last() == s@[i - 1]);
        }
    }
    i
}

/// `s` without the white space it begins with.
pub fn trimmed_start(s: &[char]) -> (r: Vec<char>)
    ensures
        r@ == trim_start(s@),
{
    let n: usize = leading_spaces(s);
    let mut out: Vec<char> = Vec::new();
    out.extend_from_slice(&s[n..s.len()]);
    proof {
        assert(out@ =~= s@.skip(n as int));
    }
    out
}

/// `s` without the white space at its two ends.
pub fn trimmed(s: &[char]) -> (r: Vec<char>)
    ensures
        r@ == trim(s@),
{
    let front: Vec<char> = trimmed_start(s);
    let n: usize = length_to_last_non_space(&front);
    let mut out: Vec<char> = front;
    out.truncate(n);
    proof {
        assert(out@ =~= trim_start(s@).take(n as int));
    }
    out
}

/// `s` without the white space at its two ends.
pub fn trimmed_str(s: &str) -> (r: String)
    ensures
        r@ == trim(s@),
{
    string_of(&trimmed(&chars_of(s)))
}

/// Whether `s` is blank.
pub fn blank(s: &str) -> (r: bool)
    ensures
        r == is_blank(s@),
{
    trimmed(&chars_of(s)).len() == 0
}

/// `s` in ASCII lower case.
pub open spec fn lower(s: Seq<char>) -> Seq<char> {
    s.map_values(|c: char| lower_char(c))
}

/// `s` in ASCII lower case.
pub fn lowered(s: &[char]) -> (r: Vec<char>)
    ensures
        r@ == lower(s@),
{
    let mut out: Vec<char> = Vec::new();
    for i in 0..s.len()
        invariant
            out@.len() == i,
            forall|j: int| 0 <= j < i ==> out@[j] == lower_char(s@[j]),
    {
        out.push(char_to_lower(s[i]));
    }
    assert(out@ =~= lower(s@));
    out
}

/// Lower case has no upper-case letters left to fold.
pub proof fn lower_twice(s: Seq<char>)
    ensures
        lower(lower(s)) == lower(s),
{
    assert(lower(lower(s)) =~= lower(s));
}

/// The words of `s`: its longest runs of characters that are not white space,
/// in order.
pub open spec fn words(s: Seq<char>) -> Seq<Seq<char>>
    decreases s.len(),
{
    let t = trim_start(s);
    let n = word_length(t);
    if t.len() == 0 || n == 0 || n > t.len() || t.len() > s.len() {
        seq![]
    } else {
        seq![t.take(n as int)] + words(t.skip(n as int))
    }
}

/// The length of the run of characters other than white space that `s` begins
/// with.
pub open spec fn word_length(s: Seq<char>) -> nat
    decreases s.len(),
{
    if s.len() > 0 && !is_space(s[0]) {
        1 + word_length(s.skip(1))
    } else {
        0
    }
}

/// `parts` one after the other with `sep` between two of them.
pub open spec fn join(parts: Seq<Seq<char>>, sep: Seq<char>) -> Seq<char>
    decreases parts.len(),
{
    if parts.len() == 0 {
        seq![]
    } else if parts.len() == 1 {
        parts[0]
    } else {
        parts[0] + sep + join(parts.skip(1), sep)
    }
}

/// The words of `s` with one space between two of them.
pub open spec fn collapse(s: Seq<char>) -> Seq<char> {
    join(words(s), seq![' '])
}

proof fn lemma_word_length(s: Seq<char>)
    ensures
        word_length(s) <= s.len(),
        forall|i: int| 0 <= i < word_length(s) ==> !is_space(#[trigger] s[i]),
        word_length(s) < s.len() ==> is_space(s[word_length(s) as int]),
    decreases s.len(),
{
    if s.len() > 0 && !is_space(s[0]) {
        let t = s.skip(1);
        lemma_word_length(t);
        assert forall|i: int| 0 <= i < word_length(s) implies !is_space(#[trigger] s[i]) by {
            if i > 0 {
                assert(s[i] == t[i - 1]);
            }
        }
    }
}

/// The words of `s`, in order.
#[verifier::rlimit(40)]
pub fn word_list(s: &[char]) -> (r: Vec<String>)
    ensures
        r.deep_view() == words(s@),
{
    let len: usize = s.len();
    let mut out: Vec<String> = Vec::new();
    let mut at: usize = 0;
    proof {
        assert(s@.skip(0) == s@);
        assert(out.deep_view() + words(s@) =~= words(s@));
    }
    while at < len
        invariant
            len == s@.len(),
            at <= len,
            words(s@) == out.deep_view() + words(s@.skip(at as int)),
        decreases len - at,
    {
        let rest = &s[at..len];
        proof {
            assert(rest@ =~= s@.skip(at as int));
        }
        let n: usize = leading_spaces(rest);
        let from: usize = at + n;
        let ghost t = s@.skip(from as int);
        proof {
            assert(rest@.skip(n as int) =~= t);
            lemma_word_length(t);
            assert(t.skip(0) == t);
        }
        let mut to: usize = from;
        while to < len && !char_is_space(s[to])
            invariant
                len == s@.len(),
                from <= to <= len,
                t == s@.skip(from as int),
                word_length(t) == (to - from) + word_length(t.skip(to - from)),
            decreases len - to,
        {
            proof {
                assert(t.skip(to - from)[0] == s@[to as int]);
                assert(t.skip(to - from).skip(1) =~= t.skip(to + 1 - from));
            }
            to = to + 1;
        }
        proof {
            if to < len {
                assert(t.skip(to - from)[0] == s@[to as int]);
            }
            assert(word_length(t) == to - from);
        }
        if to == from {
            proof {
                if from < len {
                    assert(t[0] == s@[from as int]);
                    trim_start_is_suffix(rest@);
                }
                assert(words(s@.skip(at as int)) =~= seq![]);
                assert(words(s@) =~= out.deep_view());
            }
            return out;
        }
        let word = substring(s, from, to);
        let ghost was = out.deep_view();
        out.push(word);
        proof {
            assert(word@ =~= t.take(to - from));
            assert(t.skip(to - from) =~= s@.skip(to as int));
            assert(words(s@.skip(at as int)) =~= seq![word@] + words(s@.skip(to as int)));
            assert(out.deep_view() =~= was.push(word@));
            assert(was + (seq![word@] + words(s@.skip(to as int))) =~= was.push(word@) + words(
                s@.skip(to as int),
            ));
        }
        at = to;
    }
    proof {
        assert(s@.skip(at as int) =~= seq![]);
        assert(words(s@) =~= out.deep_view());
    }
    out
}

proof fn lemma_join_push(parts: Seq<Seq<char>>, last: Seq<char>, sep: Seq<char>)
    ensures
        parts.len() == 0 ==> join(parts.push(last), sep) == last,
        parts.len() > 0 ==> join(parts.push(last), sep) == join(parts, sep) + sep + last,
    decreases parts.len(),
{
    let all = parts.push(last);
    if parts.len() > 0 {
        assert(all.skip(1) =~= parts.skip(1).push(last));
        lemma_join_push(parts.skip(1), last, sep);
        if parts.len() == 1 {
            assert(parts.skip(1).len() == 0);
            assert(join(all, sep) == parts[0] + sep + last);
        } else {
            assert(join(all, sep) =~= join(parts, sep) + sep + last);
        }
    }
}

/// The words of `s` with one space between two of them.
pub fn collapsed(s: &str) -> (r: String)
    ensures
        r@ == collapse(s@),
{
    let list: Vec<String> = word_list(&chars_of(s));
    let ghost all = list.deep_view();
    let mut out = String::new();
    proof {
        assert(all.take(0) =~= seq![]);
        assert(out@ =~= join(all.take(0), seq![' ']));
    }
    for k in 0..list.len()
        invariant
            all == list.deep_view(),
            all.len() == list@.len(),
            out@ == join(all.take(k as int), seq![' ']),
    {
        let ghost was = out@;
        if k > 0 {
            out.push(' ');
        }
        out.append(list[k].as_str());
        proof {
            assert(all.take(k + 1) =~= all.take(k as int).push(all[k as int]));
            lemma_join_push(all.take(k as int), all[k as int], seq![' ']);
            if k > 0 {
                assert(out@ =~= was + seq![' '] + all[k as int]);
            } else {
                assert(out@ =~= all[0]);
            }
        }
    }
    proof {
        assert(all.take(all.len() as int) =~= all);
    }
    out
}

// ---------------------------------------------------------------------------
// Order
// ---------------------------------------------------------------------------

/// `a` comes before `b` in the order of their code points, which is the order
/// of their UTF-8 bytes.
pub open spec fn text_lt(a: Seq<char>, b: Seq<char>) -> bool
    decreases a.len(),
{
    if b.len() == 0 {
        false
    } else if a.len() == 0 {
        true
    } else if a[0] == b[0] {
        text_lt(a.skip(1), b.skip(1))
    } else {
        a[0] < b[0]
    }
}

/// Of two different texts exactly one comes before the other.
pub proof fn text_order_is_total(a: Seq<char>, b: Seq<char>)
    ensures
        text_lt(a, b) ==> !text_lt(b, a),
        a == b ==> !text_lt(a, b),
        a != b ==> text_lt(a, b) || text_lt(b, a),
    decreases a.len(),
{
    if a.len() == 0 || b.len() == 0 {
        if a.len() == 0 && b.len() == 0 {
            assert(a =~= b);
        }
    } else if a[0] == b[0] {
        text_order_is_total(a.skip(1), b.skip(1));
        if a.skip(1) == b.skip(1) {
            assert(a =~= seq![a[0]] + a.skip(1));
            assert(b =~= seq![b[0]] + b.skip(1));
        }
    }
}

/// The order of texts is transitive.
pub proof fn text_order_is_transitive(a: Seq<char>, b: Seq<char>, c: Seq<char>)
    requires
        text_lt(a, b),
        text_lt(b, c),
    ensures
        text_lt(a, c),
    decreases a.len(),
{
    if a.len() == 0 {
    } else if a[0] == b[0] && b[0] == c[0] {
        text_order_is_transitive(a.skip(1), b.skip(1), c.skip(1));
    }
}

/// Whether `a` comes before `b`.
pub fn before(a: &str, b: &str) -> (r: bool)
    ensures
        r == text_lt(a@, b@),
{
    let x: Vec<char> = chars_of(a);
    let y: Vec<char> = chars_of(b);
    let mut i: usize = 0;
    proof {
        assert(x@.skip(0) == x@);
        assert(y@.skip(0) == y@);
    }
    while i < x.len() && i < y.len()
        invariant
            i <= x@.len(),
            i <= y@.len(),
            x@ == a@,
            y@ == b@,
            text_lt(a@, b@) == text_lt(x@.skip(i as int), y@.skip(i as int)),
        decreases x@.len() - i,
    {
        proof {
            assert(x@.skip(i as int)[0] == x@[i as int]);
            assert(y@.skip(i as int)[0] == y@[i as int]);
            assert(x@.skip(i as int).skip(1) =~= x@.skip(i + 1));
            assert(y@.skip(i as int).skip(1) =~= y@.skip(i + 1));
        }
        if x[i] != y[i] {
            return x[i] < y[i];
        }
        i = i + 1;
    }
    i < y.len()
}

// ---------------------------------------------------------------------------
// Numbers
// ---------------------------------------------------------------------------

/// The digit character of `d`.
pub open spec fn digit_char(d: nat) -> char {
    (d + 48) as char
}

/// `n` in decimal.
pub open spec fn decimal(n: nat) -> Seq<char>
    decreases n,
{
    if n < 10 {
        seq![digit_char(n)]
    } else {
        decimal(n / 10).push(digit_char(n % 10))
    }
}

/// `n` in decimal, with a minus sign when it is negative.
pub open spec fn signed_decimal(n: int) -> Seq<char> {
    if n < 0 {
        seq!['-'] + decimal((-n) as nat)
    } else {
        decimal(n as nat)
    }
}

/// The number that a row of digits stands for.
pub open spec fn number(s: Seq<char>) -> nat
    decreases s.len(),
{
    if s.len() == 0 {
        0
    } else {
        (number(s.drop_last()) * 10 + (s.last() as u32 - 48)) as nat
    }
}

/// `s` is a row of one or more digits.
pub open spec fn is_number(s: Seq<char>) -> bool {
    s.len() > 0 && forall|i: int| 0 <= i < s.len() ==> is_digit(#[trigger] s[i])
}

/// A number written in decimal reads back as itself.
pub proof fn decimal_reads_back(n: nat)
    ensures
        is_number(decimal(n)),
        number(decimal(n)) == n,
    decreases n,
{
    if n < 10 {
        assert(number(decimal(n).drop_last()) == 0);
    } else {
        decimal_reads_back(n / 10);
        assert(decimal(n).drop_last() =~= decimal(n / 10));
    }
}

/// `n` in decimal.
pub fn decimal_of(n: u128) -> (r: String)
    ensures
        r@ == decimal(n as nat),
{
    let mut rev: Vec<char> = Vec::new();
    let mut left: u128 = n;
    let ghost mut tail: Seq<char> = seq![];
    while left >= 10
        invariant
            tail == rev@.reverse(),
            decimal(n as nat) == decimal(left as nat) + tail,
        decreases left,
    {
        let d: u8 = (left % 10) as u8;
        let c: char = (d + 48) as char;
        proof {
            assert(decimal(left as nat) == decimal((left / 10) as nat).push(c));
            assert(decimal((left / 10) as nat).push(c) + tail =~= decimal((left / 10) as nat) + (
            seq![c] + tail));
            assert(rev@.push(c).reverse() =~= seq![c] + tail);
            tail = seq![c] + tail;
        }
        rev.push(c);
        left = left / 10;
    }
    let d: u8 = left as u8;
    let c: char = (d + 48) as char;
    rev.push(c);
    let mut out = String::new();
    let mut i: usize = rev.len();
    while i > 0
        invariant
            i <= rev@.len(),
            out@ == rev@.reverse().take(rev@.len() - i),
        decreases i,
    {
        i = i - 1;
        out.push(rev[i]);
        proof {
            assert(rev@.reverse().take(rev@.len() - i) =~= rev@.reverse().take(
                rev@.len() - i - 1,
            ).push(rev@[i as int]));
        }
    }
    proof {
        assert(rev@.reverse().take(rev@.len() as int) =~= rev@.reverse());
        assert(rev@.reverse() =~= seq![c] + tail);
    }
    out
}

/// `n` in decimal, with a minus sign when it is negative.
pub fn signed_decimal_of(n: i64) -> (r: String)
    ensures
        r@ == signed_decimal(n as int),
{
    if n < 0 {
        let mut out = String::new();
        out.push('-');
        let wide: i128 = n as i128;
        out.append(decimal_of((-wide) as u128).as_str());
        out
    } else {
        decimal_of(n as u128)
    }
}

proof fn lemma_number_grows(s: Seq<char>, k: int)
    requires
        0 <= k <= s.len(),
        forall|i: int| 0 <= i < s.len() ==> is_digit(#[trigger] s[i]),
    ensures
        number(s.take(k)) <= number(s),
    decreases s.len(),
{
    if k == s.len() {
        assert(s.take(k) =~= s);
    } else {
        assert(s.drop_last().take(k) =~= s.take(k));
        lemma_number_grows(s.drop_last(), k);
    }
}

/// The number that the digits `s` stand for, if `s` is a row of digits and the
/// number is not above `limit`.
pub fn number_of(s: &[char], limit: u32) -> (r: Option<u32>)
    ensures
        match r {
            Some(n) => is_number(s@) && n == number(s@) && n <= limit,
            None => !is_number(s@) || number(s@) > limit,
        },
{
    if s.len() == 0 {
        return None;
    }
    let mut n: u32 = 0;
    for i in 0..s.len()
        invariant
            n == number(s@.take(i as int)),
            n <= limit,
            forall|j: int| 0 <= j < i ==> is_digit(#[trigger] s@[j]),
    {
        let c = s[i];
        if !char_is_digit(c) {
            return None;
        }
        let d: u32 = c as u32 - 48;
        let wide: u64 = n as u64 * 10 + d as u64;
        proof {
            assert(s@.take(i + 1).drop_last() =~= s@.take(i as int));
            assert(number(s@.take(i + 1)) == wide);
        }
        if wide > limit as u64 {
            proof {
                if is_number(s@) {
                    lemma_number_grows(s@, i + 1);
                }
            }
            return None;
        }
        n = wide as u32;
    }
    proof {
        assert(s@.take(s@.len() as int) =~= s@);
    }
    Some(n)
}

/// The decimal digit `d` in Roman numerals, where `one`, `five` and `ten` stand
/// for one, five and ten of its place.
pub open spec fn roman_digit(d: nat, one: char, five: char, ten: char) -> Seq<char> {
    if d == 0 {
        seq![]
    } else if d == 1 {
        seq![one]
    } else if d == 2 {
        seq![one, one]
    } else if d == 3 {
        seq![one, one, one]
    } else if d == 4 {
        seq![one, five]
    } else if d == 5 {
        seq![five]
    } else if d == 6 {
        seq![five, one]
    } else if d == 7 {
        seq![five, one, one]
    } else if d == 8 {
        seq![five, one, one, one]
    } else {
        seq![one, ten]
    }
}

/// `n` in Roman numerals of lower case, for a number below 4000.
pub open spec fn roman(n: nat) -> Seq<char> {
    roman_digit(n / 1000, 'm', 'm', 'm') + roman_digit(n / 100 % 10, 'c', 'd', 'm') + roman_digit(
        n / 10 % 10,
        'x',
        'l',
        'c',
    ) + roman_digit(n % 10, 'i', 'v', 'x')
}

/// `s` is a number in Roman numerals of lower case.
pub open spec fn is_roman(s: Seq<char>) -> bool {
    exists|n: nat| 0 < n < 4000 && s == #[trigger] roman(n)
}

/// Appends the decimal digit `d` in Roman numerals to `out`.
fn push_roman_digit(out: &mut Vec<char>, d: u32, one: char, five: char, ten: char)
    requires
        d < 10,
    ensures
        final(out)@ == old(out)@ + roman_digit(d as nat, one, five, ten),
{
    let ghost start = out@;
    if d == 9 {
        out.push(one);
        out.push(ten);
    } else if d == 4 {
        out.push(one);
        out.push(five);
    } else {
        if d >= 5 {
            out.push(five);
        }
        let ones: u32 = d % 5;
        if ones > 0 {
            out.push(one);
        }
        if ones > 1 {
            out.push(one);
        }
        if ones > 2 {
            out.push(one);
        }
    }
    proof {
        assert(out@ =~= start + roman_digit(d as nat, one, five, ten));
    }
}

/// Whether `s` is a number in Roman numerals of lower case.
pub fn roman_number(s: &str) -> (r: bool)
    ensures
        r == is_roman(s@),
{
    let cs: Vec<char> = chars_of(s);
    for n in 1u32..4000u32
        invariant
            cs@ == s@,
            forall|k: nat| 0 < k < n ==> s@ != #[trigger] roman(k),
    {
        let mut numeral: Vec<char> = Vec::new();
        push_roman_digit(&mut numeral, n / 1000, 'm', 'm', 'm');
        push_roman_digit(&mut numeral, n / 100 % 10, 'c', 'd', 'm');
        push_roman_digit(&mut numeral, n / 10 % 10, 'x', 'l', 'c');
        push_roman_digit(&mut numeral, n % 10, 'i', 'v', 'x');
        proof {
            assert(numeral@ =~= roman(n as nat));
        }
        if numeral.len() == cs.len() && matches_at(&cs, &numeral, 0) {
            proof {
                assert(cs@.subrange(0, cs@.len() as int) =~= cs@);
            }
            return true;
        }
        proof {
            if s@ == roman(n as nat) {
                assert(cs@.subrange(0, cs@.len() as int) =~= cs@);
            }
        }
    }
    false
}

// ---------------------------------------------------------------------------
// Laws
// ---------------------------------------------------------------------------

/// Folding to lower case goes character by character: upper-case ASCII letters
/// become the letters 32 code points further, and every other character, at
/// whatever place, stays as it is.
pub proof fn lower_goes_by_character(s: Seq<char>)
    ensures
        lower(s).len() == s.len(),
        forall|i: int|
            0 <= i < s.len() ==> if 'A' <= s[i] <= 'Z' {
                #[trigger] lower(s)[i] as u32 == s[i] as u32 + 32
            } else {
                lower(s)[i] == s[i]
            },
{
}

/// Folding two texts and putting them together is folding them together.
pub proof fn lower_of_parts(a: Seq<char>, b: Seq<char>)
    ensures
        lower(a + b) == lower(a) + lower(b),
{
    assert(lower(a + b) =~= lower(a) + lower(b));
}

/// `pat` stands at `i` exactly where each of its characters does.
pub proof fn occurrence_goes_by_character(s: Seq<char>, pat: Seq<char>, i: int)
    ensures
        occurs_at(s, pat, i) <==> 0 <= i && i + pat.len() <= s.len() && forall|k: int|
            0 <= k < pat.len() ==> s[i + k] == #[trigger] pat[k],
{
    if 0 <= i && i + pat.len() <= s.len() {
        if occurs_at(s, pat, i) {
            assert forall|k: int| 0 <= k < pat.len() implies s[i + k] == #[trigger] pat[k] by {
                assert(s.subrange(i, i + pat.len())[k] == pat[k]);
            }
        }
        if forall|k: int| 0 <= k < pat.len() ==> s[i + k] == #[trigger] pat[k] {
            assert(s.subrange(i, i + pat.len()) =~= pat);
        }
    }
}

/// What a text holds, begins with and ends with: `pat` with whatever stands
/// around it, and nothing else.
pub proof fn searching_finds_parts(s: Seq<char>, pat: Seq<char>)
    ensures
        contains(s, pat) <==> exists|a: Seq<char>, b: Seq<char>| s == #[trigger] (a + pat + b),
        starts_with(s, pat) <==> exists|b: Seq<char>| s == #[trigger] (pat + b),
        ends_with(s, pat) <==> exists|a: Seq<char>| s == #[trigger] (a + pat),
{
    lemma_contains_part(s, pat);
    lemma_starts_with_part(s, pat);
    lemma_ends_with_part(s, pat);
}

proof fn lemma_contains_part(s: Seq<char>, pat: Seq<char>)
    ensures
        contains(s, pat) <==> exists|a: Seq<char>, b: Seq<char>| s == #[trigger] (a + pat + b),
{
    find_is_first(s, pat, 0);
    if contains(s, pat) {
        let i = find(s, pat)->0;
        let a = s.take(i);
        let b = s.skip(i + pat.len());
        occurrence_goes_by_character(s, pat, i);
        assert(s =~= a + pat + b);
    }
    if exists|a: Seq<char>, b: Seq<char>| s == #[trigger] (a + pat + b) {
        let (a, b) = choose|a: Seq<char>, b: Seq<char>| s == #[trigger] (a + pat + b);
        assert(s.subrange(a.len() as int, a.len() as int + pat.len()) =~= pat);
        assert(occurs_at(s, pat, a.len() as int));
    }
}

proof fn lemma_starts_with_part(s: Seq<char>, pat: Seq<char>)
    ensures
        starts_with(s, pat) <==> exists|b: Seq<char>| s == #[trigger] (pat + b),
{
    if starts_with(s, pat) {
        occurrence_goes_by_character(s, pat, 0);
        assert(s =~= pat + s.skip(pat.len() as int));
    }
    if exists|b: Seq<char>| s == #[trigger] (pat + b) {
        let b = choose|b: Seq<char>| s == #[trigger] (pat + b);
        assert(s.subrange(0, pat.len() as int) =~= pat);
    }
}

proof fn lemma_ends_with_part(s: Seq<char>, pat: Seq<char>)
    ensures
        ends_with(s, pat) <==> exists|a: Seq<char>| s == #[trigger] (a + pat),
{
    if ends_with(s, pat) {
        let n = s.len() - pat.len();
        occurrence_goes_by_character(s, pat, n);
        assert(s =~= s.take(n) + pat);
    }
    if exists|a: Seq<char>| s == #[trigger] (a + pat) {
        let a = choose|a: Seq<char>| s == #[trigger] (a + pat);
        assert(s.subrange(a.len() as int, s.len() as int) =~= pat);
    }
}

/// White space at the two ends is all that trimming takes: text between white
/// space that neither begins nor ends with any comes out as it is.
pub proof fn trimming_takes_the_ends(a: Seq<char>, s: Seq<char>, b: Seq<char>)
    requires
        forall|i: int| 0 <= i < a.len() ==> is_space(#[trigger] a[i]),
        forall|i: int| 0 <= i < b.len() ==> is_space(#[trigger] b[i]),
        s.len() > 0 ==> !is_space(s[0]) && !is_space(s.last()),
    ensures
        trim(a + s + b) == s,
        s.len() > 0 ==> trim_start(a + s + b) == s + b,
{
    let t = a + s + b;
    trim_start_is_suffix(t);
    let u = trim_start(t);
    let n = t.len() - u.len();
    if s.len() == 0 {
        blank_is_all_space(t);
        assert forall|i: int| 0 <= i < t.len() implies is_space(#[trigger] t[i]) by {
            if i < a.len() {
                assert(t[i] == a[i]);
            } else {
                assert(t[i] == b[i - a.len()]);
            }
        }
        assert(trim(t) =~= s);
    } else {
        assert(t[a.len() as int] == s[0]);
        if n > a.len() {
            assert(is_space(t[a.len() as int]));
        }
        if n < a.len() {
            assert(t[n] == a[n]);
            assert(u[0] == t[n]);
        }
        assert(u =~= s + b);
        trim_end_is_prefix(u);
        let m = trim_end(u).len() as int;
        if m < s.len() {
            assert(u[s.len() - 1] == s.last());
            assert(is_space(u[s.len() - 1]));
        }
        if m > s.len() {
            assert(trim_end(u).last() == u[m - 1]);
            assert(u[m - 1] == b[m - 1 - s.len()]);
        }
        assert(trim_end(u) =~= s);
    }
}

/// No character of `s` is white space.
pub open spec fn is_word(s: Seq<char>) -> bool {
    s.len() > 0 && forall|i: int| 0 <= i < s.len() ==> !is_space(#[trigger] s[i])
}

proof fn lemma_words_trim(s: Seq<char>)
    ensures
        words(trim_start(s)) == words(s),
{
    trim_start_is_suffix(s);
    let t = trim_start(s);
    assert(trim_start(t) == t);
    lemma_word_length(t);
    trim_start_is_suffix(t);
}

proof fn lemma_words_unfold(w: Seq<char>, rest: Seq<char>)
    requires
        is_word(w),
        rest.len() > 0 ==> is_space(rest[0]),
    ensures
        words(w + rest) == seq![w] + words(rest),
{
    let s = w + rest;
    assert(s[0] == w[0]);
    assert(trim_start(s) == s);
    lemma_word_length(s);
    let n = word_length(s) as int;
    if n < w.len() {
        assert(s[n] == w[n]);
    }
    if n > w.len() {
        assert(s[w.len() as int] == rest[0]);
    }
    assert(n == w.len());
    assert(s.take(n) =~= w);
    assert(s.skip(n) =~= rest);
}

/// White space separates words, and nothing else does: the words of two texts
/// with white space between them are those of the first and then those of the
/// second, a text without white space is one word, and no text has none.
pub proof fn white_space_separates_words(a: Seq<char>, c: char, b: Seq<char>)
    requires
        is_space(c),
    ensures
        words(a + seq![c] + b) == words(a) + words(b),
        is_word(a) ==> words(a) == seq![a],
        words(Seq::<char>::empty()) == Seq::<Seq<char>>::empty(),
    decreases a.len(),
{
    let e = Seq::<char>::empty();
    assert(trim_start(e) == e);
    assert(words(e) =~= Seq::<Seq<char>>::empty());
    if is_word(a) {
        lemma_words_unfold(a, e);
        assert(a + e =~= a);
        assert(words(a) =~= seq![a]);
    }
    let s = a + seq![c] + b;
    if a.len() == 0 {
        assert(s[0] == c);
        assert(s.skip(1) =~= b);
        lemma_words_trim(s);
        lemma_words_trim(b);
        assert(trim_start(s) == trim_start(b));
        assert(a =~= e);
        assert(words(s) =~= words(a) + words(b));
    } else if is_space(a[0]) {
        let a1 = a.skip(1);
        let s1 = a1 + seq![c] + b;
        assert(s[0] == a[0]);
        assert(s.skip(1) =~= s1);
        lemma_words_trim(s);
        lemma_words_trim(s1);
        assert(trim_start(s) == trim_start(s1));
        lemma_words_trim(a);
        lemma_words_trim(a1);
        assert(trim_start(a) == trim_start(a1));
        white_space_separates_words(a1, c, b);
    } else {
        lemma_word_length(a);
        let n = word_length(a) as int;
        let w = a.take(n);
        let rest = a.skip(n);
        assert(n > 0);
        assert forall|i: int| 0 <= i < w.len() implies !is_space(#[trigger] w[i]) by {
            assert(w[i] == a[i]);
        }
        if rest.len() > 0 {
            assert(rest[0] == a[n]);
        }
        lemma_words_unfold(w, rest);
        assert(w + rest =~= a);
        let tail = rest + seq![c] + b;
        if rest.len() > 0 {
            assert(tail[0] == rest[0]);
        } else {
            assert(tail[0] == c);
        }
        lemma_words_unfold(w, tail);
        assert(w + tail =~= s);
        white_space_separates_words(rest, c, b);
        assert(words(s) =~= words(a) + words(b));
    }
}

/// Joining two lists puts the separator between them, and a list of one text is
/// that text.
pub proof fn joining_goes_by_parts(a: Seq<Seq<char>>, b: Seq<Seq<char>>, sep: Seq<char>)
    ensures
        a.len() > 0 && b.len() > 0 ==> join(a + b, sep) == join(a, sep) + sep + join(b, sep),
        a.len() == 1 ==> join(a, sep) == a[0],
        join(Seq::<Seq<char>>::empty(), sep) == Seq::<char>::empty(),
    decreases b.len(),
{
    assert(join(Seq::<Seq<char>>::empty(), sep) =~= Seq::<char>::empty());
    if a.len() > 0 && b.len() > 0 {
        let front = b.drop_last();
        let last = b.last();
        assert(a + b =~= (a + front).push(last));
        assert(b =~= front.push(last));
        lemma_join_push(a + front, last, sep);
        lemma_join_push(front, last, sep);
        joining_goes_by_parts(a, front, sep);
        if front.len() == 0 {
            assert(a + front =~= a);
        }
        assert(join(a + b, sep) =~= join(a, sep) + sep + join(b, sep));
    }
}

/// Collapsing keeps all words, one space apart: two texts with white space between
/// them collapse to what each collapses to, and a single word stays as it is.
pub proof fn collapsing_keeps_all_words(a: Seq<char>, c: char, b: Seq<char>)
    requires
        is_space(c),
    ensures
        collapse(a + seq![c] + b) == if collapse(a).len() == 0 {
            collapse(b)
        } else if collapse(b).len() == 0 {
            collapse(a)
        } else {
            collapse(a) + seq![' '] + collapse(b)
        },
        is_word(a) ==> collapse(a) == a,
        collapse(Seq::<char>::empty()).len() == 0,
{
    white_space_separates_words(a, c, b);
    joining_goes_by_parts(words(a), words(b), seq![' ']);
    joining_goes_by_parts(words(b), words(a), seq![' ']);
    lemma_collapse_is_empty(a);
    lemma_collapse_is_empty(b);
    if words(a).len() == 0 {
        assert(words(a) + words(b) =~= words(b));
    }
    if words(b).len() == 0 {
        assert(words(a) + words(b) =~= words(a));
    }
}

proof fn lemma_collapse_is_empty(s: Seq<char>)
    ensures
        collapse(s).len() == 0 <==> words(s).len() == 0,
{
    let t = trim_start(s);
    lemma_word_length(t);
    if words(s).len() > 0 {
        assert(words(s)[0] == t.take(word_length(t) as int));
        joining_goes_by_parts(seq![words(s)[0]], words(s).skip(1), seq![' ']);
        assert(seq![words(s)[0]] + words(s).skip(1) =~= words(s));
        if words(s).len() == 1 {
            joining_goes_by_parts(words(s), words(s), seq![' ']);
        }
    }
}

/// The first character in which two texts differ decides which comes first, and
/// a text comes before one that goes on behind it.
pub proof fn first_difference_decides(
    front: Seq<char>,
    x: char,
    a: Seq<char>,
    y: char,
    b: Seq<char>,
)
    ensures
        x != y ==> (text_lt(front + seq![x] + a, front + seq![y] + b) <==> x < y),
        text_lt(front, front + seq![x] + a),
        !text_lt(front + seq![x] + a, front),
    decreases front.len(),
{
    let s = front + seq![x] + a;
    let t = front + seq![y] + b;
    if front.len() == 0 {
        assert(s[0] == x && t[0] == y);
    } else {
        let rest = front.skip(1);
        assert(s[0] == front[0] && t[0] == front[0]);
        assert(s.skip(1) =~= rest + seq![x] + a);
        assert(t.skip(1) =~= rest + seq![y] + b);
        first_difference_decides(rest, x, a, y, b);
    }
}

/// Each further digit makes a number ten times as large and adds its own value;
/// no digits are nothing.
pub proof fn digits_make_a_number(s: Seq<char>, d: char)
    requires
        is_digit(d),
    ensures
        number(s.push(d)) == 10 * number(s) + (d as u32 - '0' as u32),
        number(Seq::<char>::empty()) == 0,
        is_number(s.push(d)) <==> s.len() == 0 || is_number(s),
        !is_number(Seq::<char>::empty()),
        '0' <= d <= '9',
{
    let t = s.push(d);
    if is_number(t) {
        assert forall|i: int| 0 <= i < s.len() implies is_digit(#[trigger] s[i]) by {
            assert(t[i] == s[i]);
        }
    }
    assert(s.push(d).drop_last() =~= s);
}

/// A number is written without leading zeros and, where it is negative, behind a
/// minus sign.
pub proof fn numbers_are_written_plainly(n: nat)
    ensures
        n >= 10 ==> decimal(n)[0] != '0',
        n < 10 ==> decimal(n).len() == 1,
        signed_decimal(n as int) == decimal(n),
        n > 0 ==> signed_decimal(-n) == seq!['-'] + decimal(n),
    decreases n,
{
    if n >= 10 {
        numbers_are_written_plainly(n / 10);
        decimal_reads_back(n / 10);
        if n / 10 < 10 {
            assert(decimal(n)[0] == digit_char(n / 10));
        } else {
            assert(decimal(n)[0] == decimal(n / 10)[0]);
        }
    }
}

/// What a Roman symbol stands for.
pub open spec fn symbol_value(c: char) -> int {
    if c == 'i' {
        1
    } else if c == 'v' {
        5
    } else if c == 'x' {
        10
    } else if c == 'l' {
        50
    } else if c == 'c' {
        100
    } else if c == 'd' {
        500
    } else {
        1000
    }
}

/// What Roman numerals add up to: a symbol before a greater one is taken off.
pub open spec fn symbols_value(s: Seq<char>) -> int
    decreases s.len(),
{
    if s.len() == 0 {
        0
    } else if s.len() > 1 && symbol_value(s[0]) < symbol_value(s[1]) {
        symbols_value(s.skip(1)) - symbol_value(s[0])
    } else {
        symbols_value(s.skip(1)) + symbol_value(s[0])
    }
}

proof fn lemma_symbols_add(a: Seq<char>, b: Seq<char>)
    requires
        a.len() > 0 && b.len() > 0 ==> symbol_value(a.last()) >= symbol_value(b[0]),
    ensures
        symbols_value(a + b) == symbols_value(a) + symbols_value(b),
    decreases a.len(),
{
    if a.len() == 0 {
        assert(a + b =~= b);
    } else {
        assert((a + b).skip(1) =~= a.skip(1) + b);
        assert((a + b)[0] == a[0]);
        if a.len() > 1 {
            assert((a + b)[1] == a[1]);
            assert(a.skip(1).last() == a.last());
            lemma_symbols_add(a.skip(1), b);
        } else {
            assert(a.skip(1) =~= seq![]);
            assert(a.skip(1) + b =~= b);
            assert(symbols_value(a.skip(1)) == 0);
            if b.len() > 0 {
                assert((a + b)[1] == b[0]);
            }
        }
    }
}

proof fn lemma_roman_digit(d: nat, one: char, five: char, ten: char)
    requires
        d < 10,
        symbol_value(five) == 5 * symbol_value(one) || d < 4,
        symbol_value(ten) == 10 * symbol_value(one) || d < 4,
        symbol_value(one) > 0,
    ensures
        symbols_value(roman_digit(d, one, five, ten)) == d * symbol_value(one),
        d == 0 ==> symbols_value(roman_digit(d, one, five, ten)) == 0,
        roman_digit(d, one, five, ten).len() > 0 <==> d > 0,
        d > 0 ==> {
            &&& roman_digit(d, one, five, ten)[0] == one || roman_digit(d, one, five, ten)[0]
                == five
            &&& {
                ||| roman_digit(d, one, five, ten).last() == one
                ||| roman_digit(d, one, five, ten).last() == five
                ||| roman_digit(d, one, five, ten).last() == ten
            }
        },
{
    let s = roman_digit(d, one, five, ten);
    reveal_with_fuel(symbols_value, 5);
    if s.len() > 0 {
        assert(s.skip(1).skip(0) =~= s.skip(1));
        if s.len() > 1 {
            assert(s.skip(1)[0] == s[1]);
            if s.len() > 2 {
                assert(s.skip(1).skip(1)[0] == s[2]);
                assert(s.skip(1)[1] == s[2]);
                if s.len() > 3 {
                    assert(s.skip(1).skip(1).skip(1)[0] == s[3]);
                    assert(s.skip(1).skip(1)[1] == s[3]);
                    assert(s.skip(1).skip(1).skip(1).skip(1) =~= seq![]);
                } else {
                    assert(s.skip(1).skip(1).skip(1) =~= seq![]);
                }
            } else {
                assert(s.skip(1).skip(1) =~= seq![]);
            }
        } else {
            assert(s.skip(1) =~= seq![]);
        }
    }
}

proof fn lemma_roman_last(d: nat, one: char, five: char, ten: char, v: int)
    requires
        d < 10,
        symbol_value(one) >= v,
        symbol_value(five) >= v,
        symbol_value(ten) >= v,
    ensures
        d > 0 ==> symbol_value(roman_digit(d, one, five, ten).last()) >= v,
{
}

proof fn lemma_roman_groups(a: nat, b: nat, c: nat, d: nat)
    requires
        a < 4,
        b < 10,
        c < 10,
        d < 10,
    ensures
        symbols_value(
            roman_digit(a, 'm', 'm', 'm') + roman_digit(b, 'c', 'd', 'm') + roman_digit(
                c,
                'x',
                'l',
                'c',
            ) + roman_digit(d, 'i', 'v', 'x'),
        ) == 1000 * a + 100 * b + 10 * c + d,
{
    let m = roman_digit(a, 'm', 'm', 'm');
    let h = roman_digit(b, 'c', 'd', 'm');
    let x = roman_digit(c, 'x', 'l', 'c');
    let i = roman_digit(d, 'i', 'v', 'x');
    lemma_roman_digit(a, 'm', 'm', 'm');
    lemma_roman_digit(b, 'c', 'd', 'm');
    lemma_roman_digit(c, 'x', 'l', 'c');
    lemma_roman_digit(d, 'i', 'v', 'x');
    lemma_roman_last(a, 'm', 'm', 'm', 1000);
    lemma_roman_last(b, 'c', 'd', 'm', 100);
    lemma_roman_last(c, 'x', 'l', 'c', 10);
    lemma_symbols_add(m, h);
    let mh = m + h;
    if h.len() > 0 {
        assert(mh.last() == h.last());
    } else if m.len() > 0 {
        assert(mh.last() == m.last());
    }
    lemma_symbols_add(mh, x);
    let mhx = mh + x;
    if x.len() > 0 {
        assert(mhx.last() == x.last());
    } else if mh.len() > 0 {
        assert(mhx.last() == mh.last());
    }
    lemma_symbols_add(mhx, i);
}

proof fn lemma_four_digits(n: nat)
    requires
        n < 4000,
    ensures
        n / 1000 < 4,
        n == 1000 * (n / 1000) + 100 * (n / 100 % 10) + 10 * (n / 10 % 10) + n % 10,
{
    let tens = n / 10;
    let hundreds = tens / 10;
    assert(n / 100 == hundreds);
    assert(n / 1000 == hundreds / 10);
}

/// A number in Roman numerals adds up to that number.
#[verifier::spinoff_prover]
#[verifier::rlimit(40)]
pub proof fn roman_adds_up(n: nat)
    requires
        n < 4000,
    ensures
        symbols_value(roman(n)) == n,
        n > 0 ==> is_roman(roman(n)),
{
    lemma_four_digits(n);
    let (a, b, c, d) = (n / 1000, n / 100 % 10, n / 10 % 10, n % 10);
    lemma_roman_groups(a, b, c, d);
}

/// A text in Roman numerals is the one way to write what it adds up to.
pub proof fn roman_is_unique(s: Seq<char>)
    requires
        is_roman(s),
    ensures
        0 < symbols_value(s) < 4000,
        s == roman(symbols_value(s) as nat),
{
    let n = choose|n: nat| 0 < n < 4000 && s == #[trigger] roman(n);
    roman_adds_up(n);
}

} // verus!
