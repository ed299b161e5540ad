//! Images of an OOXML document, for an export that has none of its own.

use vstd::prelude::*;

use base64::Engine;

use crate::order::{is_order, key_views, stable_order, KeyView, SortKey};
use crate::text::{chars_of, is_alphanumeric, last_position, lower, lowered, rfind, same, string_of,
    substring};

verus! {

/// The type of an image that stands in the HTML.
#[derive(Debug, Clone, Copy, PartialEq, Eq, Structural)]
pub enum ImageType {
    Png,
    Jpeg,
    Gif,
}

/// The MIME type of an image.
pub open spec fn mime_of(image: ImageType) -> Seq<char> {
    match image {
        ImageType::Png => "image/png"@,
        ImageType::Jpeg => "image/jpeg"@,
        ImageType::Gif => "image/gif"@,
    }
}

/// What is done next with a media file.
#[derive(Debug, Clone, Copy, PartialEq, Eq, Structural)]
pub enum MediaStep {
    /// It stays out.
    Skip,
    /// The file itself is read.
    Read(ImageType),
    /// The file is rendered to PNG.
    Render,
    /// The white space that LibreOffice adds around metafiles is trimmed from
    /// the rendering.
    Trim,
    /// The trimmed rendering is read.
    ReadTrimmed,
    /// The rendering is read as it is: untrimmed is still better than lost.
    ReadRendered,
}

/// The extension of a file name: what follows its last dot, where one stands
/// behind its first character.
pub open spec fn extension(name: Seq<char>) -> Seq<char> {
    match rfind(name, "."@) {
        Some(i) => if i > 0 {
            name.skip(i + 1)
        } else {
            seq![]
        },
        None => seq![],
    }
}

/// What is done with a media file of the extension `ext`, in lower case.
pub open spec fn media_step(ext: Seq<char>) -> MediaStep {
    if ext == "png"@ {
        MediaStep::Read(ImageType::Png)
    } else if ext == "gif"@ {
        MediaStep::Read(ImageType::Gif)
    } else if ext == "jpg"@ || ext == "jpeg"@ {
        MediaStep::Read(ImageType::Jpeg)
    } else if ext == "wmf"@ || ext == "emf"@ || ext == "svm"@ || ext == "bmp"@ || ext == "tif"@
        || ext == "tiff"@ {
        MediaStep::Render
    } else {
        MediaStep::Skip
    }
}

/// What is done first with the media file `name`: raster images that browsers
/// show are read, vector and exotic formats are rendered, anything else stays
/// out.
pub fn plan_media(name: &str) -> (r: MediaStep)
    ensures
        r == media_step(lower(extension(name@))),
{
    proof {
        reveal_strlit(".");
        reveal_strlit("png");
        reveal_strlit("gif");
        reveal_strlit("jpg");
        reveal_strlit("jpeg");
        assert("png"@[0] != "gif"@[0]);
    }
    let cs: Vec<char> = chars_of(name);
    let len: usize = cs.len();
    let ext: Vec<char> = match last_position(&cs, ".") {
        Some(i) if i > 0 => {
            let e = chars_of(substring(&cs, i + 1, len).as_str());
            proof {
                assert(e@ =~= cs@.skip(i + 1));
            }
            e
        },
        _ => Vec::new(),
    };
    proof {
        assert(ext@ =~= extension(name@));
    }
    let low = string_of(&lowered(&ext));
    let e = low.as_str();
    if same(e, "png") {
        MediaStep::Read(ImageType::Png)
    } else if same(e, "gif") {
        MediaStep::Read(ImageType::Gif)
    } else if same(e, "jpg") || same(e, "jpeg") {
        MediaStep::Read(ImageType::Jpeg)
    } else if same(e, "wmf") || same(e, "emf") || same(e, "svm") || same(e, "bmp") || same(
        e,
        "tif",
    ) || same(e, "tiff") {
        MediaStep::Render
    } else {
        MediaStep::Skip
    }
}

/// What is done next once the tool of `step` was run: a media file that cannot
/// be rendered stays out.
pub open spec fn step_behind(step: MediaStep, ok: bool) -> MediaStep {
    match step {
        MediaStep::Render => if ok {
            MediaStep::Trim
        } else {
            MediaStep::Skip
        },
        MediaStep::Trim => if ok {
            MediaStep::ReadTrimmed
        } else {
            MediaStep::ReadRendered
        },
        _ => MediaStep::Skip,
    }
}

/// A rendering is never lost for want of the trimming tool: once a media file
/// was rendered, an image of it is read, trimmed or not.
pub proof fn rendering_is_read(trimmed: bool)
    ensures
        image_read(step_behind(step_behind(MediaStep::Render, true), trimmed)) == Some(
            ImageType::Png,
        ),
{
}

/// What is done next once the tool of `step` was run: a media file that cannot
/// be rendered stays out, and must not lose the others.
pub fn next_media_step(step: MediaStep, ok: bool) -> (r: MediaStep)
    ensures
        r == step_behind(step, ok),
{
    match step {
        MediaStep::Render => if ok {
            MediaStep::Trim
        } else {
            MediaStep::Skip
        },
        MediaStep::Trim => if ok {
            MediaStep::ReadTrimmed
        } else {
            MediaStep::ReadRendered
        },
        _ => MediaStep::Skip,
    }
}

/// The type of the image that `step` reads.
pub open spec fn image_read(step: MediaStep) -> Option<ImageType> {
    match step {
        MediaStep::Read(t) => Some(t),
        MediaStep::ReadTrimmed => Some(ImageType::Png),
        MediaStep::ReadRendered => Some(ImageType::Png),
        _ => None,
    }
}

/// What media files are ordered by: their names.
pub open spec fn name_keys(names: Seq<Seq<char>>) -> Seq<KeyView> {
    names.map_values(|n: Seq<char>| KeyView { number: 0, text: n })
}

/// The positions of the media files `names` in the order in which their images
/// stand in the HTML: by name.
pub fn media_order(names: &Vec<String>) -> (r: Vec<usize>)
    ensures
        is_order(name_keys(names.deep_view()), r@),
{
    let mut keys: Vec<SortKey> = Vec::new();
    for k in 0..names.len()
        invariant
            keys@.len() == k,
            forall|i: int|
                0 <= i < k ==> (#[trigger] keys@[i])@ == (KeyView {
                    number: 0,
                    text: names@[i]@,
                }),
    {
        keys.push(SortKey { number: 0, text: names[k].clone() });
    }
    proof {
        assert(key_views(keys@) =~= name_keys(names.deep_view()));
    }
    stable_order(&keys)
}

/// The character that stands for the six bits `n` in standard base64.
pub open spec fn sextet_char(n: int) -> char {
    if n < 26 {
        (n + 'A' as int) as char
    } else if n < 52 {
        (n - 26 + 'a' as int) as char
    } else if n < 62 {
        (n - 52 + '0' as int) as char
    } else if n == 62 {
        '+'
    } else {
        '/'
    }
}

/// The four characters for the bytes `a`, `b` and `c`: their 24 bits in groups of
/// six.
pub open spec fn quartet(a: u8, b: u8, c: u8) -> Seq<char> {
    let n = a * 65536 + b * 256 + c;
    seq![
        sextet_char(n / 262144),
        sextet_char(n / 4096 % 64),
        sextet_char(n / 64 % 64),
        sextet_char(n % 64),
    ]
}

/// `bytes` in standard base64: four characters for each three bytes; where one or
/// two bytes are left over, zero bits fill them up and `=` stands for what they
/// do not reach.
pub open spec fn base64_text(bytes: Seq<u8>) -> Seq<char>
    decreases bytes.len(),
{
    if bytes.len() == 0 {
        seq![]
    } else if bytes.len() == 1 {
        quartet(bytes[0], 0, 0).take(2) + seq!['=', '=']
    } else if bytes.len() == 2 {
        quartet(bytes[0], bytes[1], 0).take(3) + seq!['=']
    } else {
        quartet(bytes[0], bytes[1], bytes[2]) + base64_text(bytes.skip(3))
    }
}

/// A character of standard base64.
pub open spec fn is_base64_char(c: char) -> bool {
    is_alphanumeric(c) || c == '+' || c == '/' || c == '='
}

/// An encoding has four characters for each three bytes begun, and none that
/// would end an attribute value or a tag: it is made of letters, digits, `+`, `/`
/// and `=`.
pub proof fn base64_stays_quoted(bytes: Seq<u8>)
    ensures
        base64_text(bytes).len() == 4 * ((bytes.len() + 2) / 3),
        forall|i: int| 0 <= i < base64_text(bytes).len() ==> is_base64_char(#[trigger] base64_text(bytes)[i]),
    decreases bytes.len(),
{
    if bytes.len() == 1 {
        lemma_quartet(bytes[0], 0, 0);
    } else if bytes.len() == 2 {
        lemma_quartet(bytes[0], bytes[1], 0);
    } else if bytes.len() > 2 {
        let first = quartet(bytes[0], bytes[1], bytes[2]);
        let rest = base64_text(bytes.skip(3));
        lemma_quartet(bytes[0], bytes[1], bytes[2]);
        base64_stays_quoted(bytes.skip(3));
        assert forall|i: int| 0 <= i < base64_text(bytes).len() implies is_base64_char(
            #[trigger] base64_text(bytes)[i],
        ) by {
            if i < 4 {
                assert(base64_text(bytes)[i] == first[i]);
            } else {
                assert(base64_text(bytes)[i] == rest[i - 4]);
            }
        }
    }
}

proof fn lemma_quartet(a: u8, b: u8, c: u8)
    ensures
        quartet(a, b, c).len() == 4,
        forall|i: int| 0 <= i < 4 ==> is_base64_char(#[trigger] quartet(a, b, c)[i]),
{
    let n = a * 65536 + b * 256 + c;
    assert(0 <= n < 16777216);
    assert(0 <= n / 262144 < 64);
    assert forall|k: int| 0 <= k < 64 implies is_base64_char(#[trigger] sextet_char(k)) by {}
}

/// `base64::Engine::encode` of `base64::engine::general_purpose::STANDARD`.
/// Claims that the result is the encoding of the bytes in the standard alphabet,
/// with padding. An encoding that would not fit in memory makes the call panic,
/// and is left out.
#[verifier::external_body]
fn encode_base64(bytes: &[u8]) -> (r: String)
    requires
        bytes@.len() <= usize::MAX / 4,
    ensures
        r@ == base64_text(bytes@),
{
    base64::engine::general_purpose::STANDARD.encode(bytes)
}

/// The HTML of an image whose bytes are encoded as `encoded`.
pub open spec fn image_html(image: ImageType, encoded: Seq<char>) -> Seq<char> {
    "<p><img src=\"data:"@ + mime_of(image) + ";base64,"@ + encoded + "\"/></p>"@
}

/// Appends the image whose bytes are encoded as `encoded` to `tags`.
pub fn push_image(tags: &mut String, image: ImageType, encoded: &str)
    ensures
        final(tags)@ == old(tags)@ + image_html(image, encoded@),
{
    let ghost start = tags@;
    tags.append("<p><img src=\"data:");
    tags.append(
        match image {
            ImageType::Png => "image/png",
            ImageType::Jpeg => "image/jpeg",
            ImageType::Gif => "image/gif",
        },
    );
    tags.append(";base64,");
    tags.append(encoded);
    tags.append("\"/></p>");
    proof {
        assert(tags@ =~= start + image_html(image, encoded@));
    }
}

/// `tags` with the image that `step` read behind them.
pub open spec fn with_image(
    tags: Seq<char>,
    step: MediaStep,
    read: Option<Seq<u8>>,
) -> Seq<char> {
    match (image_read(step), read) {
        (Some(image), Some(bytes)) => tags + image_html(image, base64_text(bytes)),
        _ => tags,
    }
}

/// Appends the image that `step` read to `tags`, embedded as a data URI; a step
/// that reads none, or could not read it, adds nothing.
pub fn salvage_image(tags: &mut String, step: MediaStep, read: Option<Vec<u8>>)
    requires
        read matches Some(bytes) ==> bytes@.len() <= usize::MAX / 4,
    ensures
        final(tags)@ == with_image(
            old(tags)@,
            step,
            (match read {
                Some(bytes) => Some(bytes@),
                None => None,
            }),
        ),
{
    let image = match step {
        MediaStep::Read(t) => Some(t),
        MediaStep::ReadTrimmed => Some(ImageType::Png),
        MediaStep::ReadRendered => Some(ImageType::Png),
        _ => None,
    };
    if let Some(image) = image {
        if let Some(bytes) = read {
            let encoded = encode_base64(bytes.as_slice());
            push_image(tags, image, encoded.as_str());
        }
    }
}

// ---------------------------------------------------------------------------
// Laws
// ---------------------------------------------------------------------------

/// The extension of a media file is what follows its last dot, if anything stands
/// before that; a name without a dot, or with one only at its beginning, has none.
pub proof fn extension_follows_a_name(base: Seq<char>, ext: Seq<char>)
    requires
        forall|i: int| 0 <= i < ext.len() ==> #[trigger] ext[i] != '.',
    ensures
        base.len() > 0 ==> extension(base + seq!['.'] + ext) == ext,
        extension(seq!['.'] + ext).len() == 0,
        extension(ext).len() == 0,
{
    reveal_strlit(".");
    crate::text::rfind_is_last(ext, "."@, ext.len() as int);
    if let Some(i) = rfind(ext, "."@) {
        assert(ext.subrange(i, i + 1)[0] == ext[i]);
    }
    lemma_last_dot(base, ext);
    lemma_last_dot(Seq::empty(), ext);
    assert(Seq::<char>::empty() + seq!['.'] + ext =~= seq!['.'] + ext);
    assert((base + seq!['.'] + ext).skip(base.len() as int + 1) =~= ext);
}

proof fn lemma_last_dot(base: Seq<char>, ext: Seq<char>)
    requires
        forall|i: int| 0 <= i < ext.len() ==> #[trigger] ext[i] != '.',
    ensures
        rfind(base + seq!['.'] + ext, "."@) == Some(base.len() as int),
{
    reveal_strlit(".");
    let name = base + seq!['.'] + ext;
    let at = base.len() as int;
    crate::text::rfind_is_last(name, "."@, name.len() as int);
    assert(name.subrange(at, at + 1) =~= "."@);
    assert(crate::text::occurs_at(name, "."@, at));
    let last = rfind(name, "."@)->0;
    assert(name.subrange(last, last + 1)[0] == name[last]);
    if last > at {
        assert(name[last] == ext[last - at - 1]);
    }
}

/// The images that browsers show are read as what they are, six formats are
/// rendered, and every other file stays out.
pub proof fn media_goes_by_extension(ext: Seq<char>)
    ensures
        media_step(ext) == MediaStep::Read(ImageType::Png) <==> ext == "png"@,
        media_step(ext) == MediaStep::Read(ImageType::Gif) <==> ext == "gif"@,
        media_step(ext) == MediaStep::Read(ImageType::Jpeg) <==> ext == "jpg"@ || ext == "jpeg"@,
        media_step(ext) == MediaStep::Render <==> ext == "wmf"@ || ext == "emf"@ || ext == "svm"@
            || ext == "bmp"@ || ext == "tif"@ || ext == "tiff"@,
        media_step(ext) == MediaStep::Skip || media_step(ext) == MediaStep::Render || media_step(
            ext,
        ) is Read,
{
    reveal_strlit("png");
    reveal_strlit("gif");
    reveal_strlit("jpg");
    reveal_strlit("jpeg");
    reveal_strlit("wmf");
    reveal_strlit("emf");
    reveal_strlit("svm");
    reveal_strlit("bmp");
    reveal_strlit("tif");
    reveal_strlit("tiff");
    assert("png"@[0] == 'p' && "gif"@[0] == 'g' && "jpg"@[0] == 'j' && "jpeg"@[0] == 'j');
    assert("wmf"@[0] == 'w' && "emf"@[0] == 'e' && "svm"@[0] == 's' && "bmp"@[0] == 'b');
    assert("tif"@[0] == 't' && "tiff"@[0] == 't');
}

/// Images stand in the order of their names, those of the same name in the order
/// that they came in.
pub proof fn images_go_by_name(names: Seq<Seq<char>>, order: Seq<usize>, a: int, b: int)
    requires
        is_order(name_keys(names), order),
        0 <= a < b < order.len(),
    ensures
        !crate::text::text_lt(names[order[b] as int], names[order[a] as int]),
        names[order[a] as int] == names[order[b] as int] ==> order[a] <= order[b],
        order.len() == names.len(),
{
    crate::order::order_is_sorted(name_keys(names), order, a, b);
}

/// What an image is embedded as: its type and its whole encoding.
pub proof fn image_is_embedded_whole(encoded: Seq<char>)
    ensures
        image_html(ImageType::Png, encoded) == "<p><img src=\"data:"@ + "image/png"@ + ";base64,"@
            + encoded + "\"/></p>"@,
        image_html(ImageType::Jpeg, encoded) == "<p><img src=\"data:"@ + "image/jpeg"@ + ";base64,"@
            + encoded + "\"/></p>"@,
        image_html(ImageType::Gif, encoded) == "<p><img src=\"data:"@ + "image/gif"@ + ";base64,"@
            + encoded + "\"/></p>"@,
{
}

/// The steps behind the tools, and the images that are read.
pub proof fn tools_go_one_behind_the_other(step: MediaStep, ok: bool, image: ImageType)
    ensures
        step_behind(MediaStep::Render, true) == MediaStep::Trim,
        step_behind(MediaStep::Render, false) == MediaStep::Skip,
        step_behind(MediaStep::Trim, true) == MediaStep::ReadTrimmed,
        step_behind(MediaStep::Trim, false) == MediaStep::ReadRendered,
        step != MediaStep::Render && step != MediaStep::Trim ==> step_behind(step, ok)
            == MediaStep::Skip,
        image_read(MediaStep::Read(image)) == Some(image),
        image_read(MediaStep::ReadTrimmed) == Some(ImageType::Png),
        image_read(MediaStep::ReadRendered) == Some(ImageType::Png),
        step is Skip || step is Render || step is Trim ==> image_read(step) is None,
{
}

/// The six bits that a character of base64 stands for.
pub open spec fn sextet_value(c: char) -> int {
    if 'A' <= c <= 'Z' {
        c as int - 'A' as int
    } else if 'a' <= c <= 'z' {
        c as int - 'a' as int + 26
    } else if '0' <= c <= '9' {
        c as int - '0' as int + 52
    } else if c == '+' {
        62
    } else {
        63
    }
}

proof fn lemma_sextet(n: int)
    requires
        0 <= n < 64,
    ensures
        sextet_value(sextet_char(n)) == n,
{
}

proof fn lemma_sextets(n: int)
    requires
        0 <= n < 16777216,
    ensures
        0 <= n / 262144 < 64,
        n == 262144 * (n / 262144) + 4096 * (n / 4096 % 64) + 64 * (n / 64 % 64) + n % 64,
{
    let x = n / 64;
    let y = x / 64;
    assert(n / 4096 == y);
    assert(n / 262144 == y / 64);
}

#[verifier::spinoff_prover]
proof fn lemma_quartet_reads_back(a: u8, b: u8, c: u8)
    ensures
        ({
            let q = quartet(a, b, c);
            &&& q.len() == 4
            &&& 262144 * sextet_value(q[0]) + 4096 * sextet_value(q[1]) + 64 * sextet_value(q[2])
                + sextet_value(q[3]) == 65536 * a + 256 * b + c
            &&& 0 <= sextet_value(q[2]) < 64
            &&& 0 <= sextet_value(q[3]) < 64
        }),
{
    let n = a * 65536 + b * 256 + c;
    lemma_sextets(n);
    lemma_sextet(n / 262144);
    lemma_sextet(n / 4096 % 64);
    lemma_sextet(n / 64 % 64);
    lemma_sextet(n % 64);
}

/// An encoding reads back: each three bytes are the four characters that hold
/// their bits, the rest of the bytes follow, and one or two bytes left over are
/// filled up.
pub proof fn base64_reads_back(a: u8, b: u8, c: u8, rest: Seq<u8>)
    ensures
        base64_text(Seq::<u8>::empty()).len() == 0,
        ({
            let s = base64_text(seq![a, b, c] + rest);
            &&& s.len() >= 4
            &&& 262144 * sextet_value(s[0]) + 4096 * sextet_value(s[1]) + 64 * sextet_value(s[2])
                + sextet_value(s[3]) == 65536 * a + 256 * b + c
            &&& s.skip(4) == base64_text(rest)
        }),
        ({
            let s = base64_text(seq![a, b]);
            &&& s.len() == 4
            &&& 4096 * sextet_value(s[0]) + 64 * sextet_value(s[1]) + sextet_value(s[2]) == 4 * (256
                * a + b)
            &&& s[3] == '='
        }),
        ({
            let s = base64_text(seq![a]);
            &&& s.len() == 4
            &&& 64 * sextet_value(s[0]) + sextet_value(s[1]) == 16 * a
            &&& s[2] == '='
            &&& s[3] == '='
        }),
{
    lemma_quartet_reads_back(a, b, c);
    lemma_quartet_reads_back(a, b, 0);
    lemma_quartet_reads_back(a, 0, 0);
    let all = seq![a, b, c] + rest;
    assert(all.skip(3) =~= rest);
    assert(base64_text(all) == quartet(a, b, c) + base64_text(rest));
    assert(base64_text(all).skip(4) =~= base64_text(rest));
}

/// Each image that could be read is added behind those before it, whole, and
/// nothing is added where none was read.
pub proof fn each_image_is_added(tags: Seq<char>, step: MediaStep, bytes: Seq<u8>, image: ImageType)
    ensures
        with_image(tags, step, None) == tags,
        step is Skip || step is Render || step is Trim ==> with_image(tags, step, Some(bytes))
            == tags,
        with_image(tags, MediaStep::Read(image), Some(bytes)) == tags + image_html(
            image,
            base64_text(bytes),
        ),
        step is ReadTrimmed || step is ReadRendered ==> with_image(tags, step, Some(bytes)) == tags
            + image_html(ImageType::Png, base64_text(bytes)),
{
}

} // verus!
