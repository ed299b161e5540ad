//! Page geometry of an OOXML document, from its section properties.

use vstd::prelude::*;

use crate::convert::xml::{quoted, quoted_after};
use crate::text::{chars_of, find, find_from, is_number, number, number_of, position, position_from};

verus! {

/// A length on the page.
#[derive(Debug, Clone, Copy, PartialEq, Eq, Structural)]
pub struct Length {
    /// In pixels at 96 dpi.
    pub px: i64,
    /// In millimetres, a tenth of the centimetres that callers are told.
    pub mm: i64,
}

/// Page size and margins.
#[derive(Debug, Clone, Copy, PartialEq, Eq, Structural)]
pub struct PageSetup {
    pub width: Length,
    pub height: Length,
    pub top: Length,
    pub right: Length,
    pub bottom: Length,
    pub left: Length,
}

/// The attributes that the geometry is read from, as the document gives them:
/// lengths in twips, a twentieth of a point.
#[derive(Debug)]
pub struct PageAttributes {
    pub width: String,
    pub height: String,
    pub top: String,
    pub right: String,
    pub bottom: String,
    pub left: String,
}

/// The attribute `name` of the first element of `doc` that opens with `tag`.
pub open spec fn attribute(doc: Seq<char>, tag: Seq<char>, name: Seq<char>) -> Option<Seq<char>> {
    match find(doc, tag) {
        None => None,
        Some(i) => match find_from(doc, ">"@, i) {
            None => None,
            Some(end) => quoted(doc.subrange(i, end), name + "=\""@),
        },
    }
}

/// The attribute `name` of the first element of `doc` that opens with `tag`.
fn read_attribute(doc: &[char], tag: &str, name: &str) -> (r: Option<String>)
    ensures
        match r {
            Some(v) => attribute(doc@, tag@, name@) == Some(v@),
            None => attribute(doc@, tag@, name@) is None,
        },
{
    let i: usize = match position(doc, tag) {
        Some(i) => i,
        None => return None,
    };
    let end: usize = match position_from(doc, ">", i) {
        Some(e) => e,
        None => return None,
    };
    let mut key = name.to_string();
    key.append("=\"");
    quoted_after(&doc[i..end], key.as_str())
}

/// The page attributes of `doc`; `None` when one of them is missing.
pub fn page_attributes(doc: &str) -> (r: Option<PageAttributes>)
    ensures
        match r {
            Some(a) => {
                &&& attribute(doc@, "<w:pgSz"@, "w:w"@) == Some(a.width@)
                &&& attribute(doc@, "<w:pgSz"@, "w:h"@) == Some(a.height@)
                &&& attribute(doc@, "<w:pgMar"@, "w:top"@) == Some(a.top@)
                &&& attribute(doc@, "<w:pgMar"@, "w:right"@) == Some(a.right@)
                &&& attribute(doc@, "<w:pgMar"@, "w:bottom"@) == Some(a.bottom@)
                &&& attribute(doc@, "<w:pgMar"@, "w:left"@) == Some(a.left@)
            },
            None => {
                ||| attribute(doc@, "<w:pgSz"@, "w:w"@) is None
                ||| attribute(doc@, "<w:pgSz"@, "w:h"@) is None
                ||| attribute(doc@, "<w:pgMar"@, "w:top"@) is None
                ||| attribute(doc@, "<w:pgMar"@, "w:right"@) is None
                ||| attribute(doc@, "<w:pgMar"@, "w:bottom"@) is None
                ||| attribute(doc@, "<w:pgMar"@, "w:left"@) is None
            },
        },
{
    let cs: Vec<char> = chars_of(doc);
    match (
        read_attribute(&cs, "<w:pgSz", "w:w"),
        read_attribute(&cs, "<w:pgSz", "w:h"),
        read_attribute(&cs, "<w:pgMar", "w:top"),
        read_attribute(&cs, "<w:pgMar", "w:right"),
        read_attribute(&cs, "<w:pgMar", "w:bottom"),
        read_attribute(&cs, "<w:pgMar", "w:left"),
    ) {
        (Some(width), Some(height), Some(top), Some(right), Some(bottom), Some(left)) => Some(
            PageAttributes { width, height, top, right, bottom, left },
        ),
        _ => None,
    }
}

/// The whole number of pixels nearest to `twips`: 15 twips make a pixel.
pub open spec fn pixels(twips: nat) -> int {
    (2 * twips + 15) as int / 30
}

/// The whole number of millimetres nearest to `twips`, a half upwards: 1440
/// twips make an inch of 25.4 millimetres.
pub open spec fn millimetres(twips: nat) -> int {
    (508 * twips + 14400) as int / 28800
}

/// `twips` as a length.
pub open spec fn length_of(twips: nat) -> Length {
    Length { px: pixels(twips) as i64, mm: millimetres(twips) as i64 }
}

/// The length that an attribute of plain digits stands for; `None` for any
/// other attribute, which may hold a decimal fraction or no number at all.
pub fn whole_twips(attribute: &str) -> (r: Option<Length>)
    ensures
        match r {
            Some(l) => is_number(attribute@) && number(attribute@) <= u32::MAX && l == length_of(
                number(attribute@),
            ),
            None => !is_number(attribute@) || number(attribute@) > u32::MAX,
        },
{
    match number_of(&chars_of(attribute), u32::MAX) {
        Some(n) => {
            let t: i64 = n as i64;
            Some(Length { px: (2 * t + 15) / 30, mm: (508 * t + 14400) / 28800 })
        },
        None => None,
    }
}

/// A whole number of twips is never half a pixel from a pixel: the nearest
/// pixel is less than half a pixel away.
pub proof fn pixels_are_nearest(twips: nat)
    ensures
        -15 < 2 * (15 * pixels(twips) - twips) < 15,
{
}

/// The nearest millimetre is no more than half a millimetre away: a millimetre
/// is 14400 of the parts that a twip has 254 of.
pub proof fn millimetres_are_nearest(twips: nat)
    ensures
        -14400 < 2 * (14400 * millimetres(twips) - 254 * twips) <= 14400,
{
}

/// The page geometry, where each of the six lengths could be read.
pub fn page_setup(
    width: Option<Length>,
    height: Option<Length>,
    top: Option<Length>,
    right: Option<Length>,
    bottom: Option<Length>,
    left: Option<Length>,
) -> (r: Option<PageSetup>)
    ensures
        match r {
            Some(p) => {
                &&& width == Some(p.width)
                &&& height == Some(p.height)
                &&& top == Some(p.top)
                &&& right == Some(p.right)
                &&& bottom == Some(p.bottom)
                &&& left == Some(p.left)
            },
            None => {
                ||| width is None
                ||| height is None
                ||| top is None
                ||| right is None
                ||| bottom is None
                ||| left is None
            },
        },
{
    match (width, height, top, right, bottom, left) {
        (Some(width), Some(height), Some(top), Some(right), Some(bottom), Some(left)) => Some(
            PageSetup { width, height, top, right, bottom, left },
        ),
        _ => None,
    }
}

// ---------------------------------------------------------------------------
// Laws
// ---------------------------------------------------------------------------

/// An attribute is read from the first element that opens with its tag, up to
/// where that element's opening ends, and from no other one.
pub proof fn attribute_is_of_the_first_element(
    front: Seq<char>,
    tag: Seq<char>,
    inner: Seq<char>,
    rest: Seq<char>,
    name: Seq<char>,
)
    requires
        forall|i: int| 0 <= i < tag.len() ==> #[trigger] tag[i] != '>',
        forall|i: int| 0 <= i < inner.len() ==> #[trigger] inner[i] != '>',
        forall|j: int|
            0 <= j < front.len() ==> !#[trigger] crate::text::occurs_at(
                front + tag + inner + seq!['>'] + rest,
                tag,
                j,
            ),
    ensures
        attribute(front + tag + inner + seq!['>'] + rest, tag, name) == quoted(
            tag + inner,
            name + "=\""@,
        ),
{
    reveal_strlit(">");
    let doc = front + tag + inner + seq!['>'] + rest;
    let i = front.len() as int;
    let end = i + tag.len() + inner.len();
    crate::text::find_is_first(doc, tag, 0);
    assert(doc.subrange(i, i + tag.len()) =~= tag);
    assert(crate::text::occurs_at(doc, tag, i));
    crate::text::find_is_first(doc, ">"@, i);
    assert(doc.subrange(end, end + 1) =~= ">"@);
    assert(crate::text::occurs_at(doc, ">"@, end));
    let gt = find_from(doc, ">"@, i)->0;
    assert(doc.subrange(gt, gt + 1)[0] == doc[gt]);
    if gt < end {
        if gt < i + tag.len() {
            assert(doc[gt] == tag[gt - i]);
        } else {
            assert(doc[gt] == inner[gt - i - tag.len()]);
        }
    }
    assert(doc.subrange(i, end) =~= tag + inner);
}

/// Without its element there is no attribute.
pub proof fn no_attribute_without_element(doc: Seq<char>, tag: Seq<char>, name: Seq<char>)
    requires
        forall|j: int| !#[trigger] crate::text::occurs_at(doc, tag, j),
    ensures
        attribute(doc, tag, name) is None,
{
    crate::text::find_is_first(doc, tag, 0);
}

/// A length is given in whole pixels and whole millimetres, each the nearest to
/// its twips, for every length that is read.
pub proof fn lengths_are_nearest(twips: nat)
    requires
        twips <= u32::MAX,
    ensures
        -15 < 2 * (15 * length_of(twips).px - twips) < 15,
        -14400 < 2 * (14400 * length_of(twips).mm - 254 * twips) <= 14400,
{
    pixels_are_nearest(twips);
    millimetres_are_nearest(twips);
}

} // verus!
