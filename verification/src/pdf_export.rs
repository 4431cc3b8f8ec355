//! A printable document of receipts: one image to a page, with a line of
//! text under it.
//!
//! The document is written out byte by byte, object after object. While it
//! is written, the place of each object is noted; the index at the end
//! lists those places.

use crate::datetime::{render, LAYOUT_MINUTES};
use crate::decimal::{
    all_digits, decimal, digits_of, group_thousands, grouped, lemma_digits_round_trip,
    lemma_zero_padded, push_decimal, push_padded, zero_padded,
};
use crate::text::is_digit;
use crate::model::CardTransaction;
use crate::text::{append_str, is_printable_ascii, string_of, to_chars};
use vstd::prelude::*;
use vstd::utf8::{encode_utf8, is_ascii_chars, is_ascii_chars_encode_utf8};

verus! {

/// Why no document was written.
#[derive(Clone, Copy, Debug, PartialEq, Eq, Structural)]
pub enum EncodeError {
    /// There was no record to write.
    EmptyBatch,
    /// The image of the record at `index`, counted from 0, could not be
    /// read or written.
    ImageDecodeFailure { index: usize },
}

impl EncodeError {
    /// The error in words; a record is named by its number counted from 1.
    pub open spec fn spec_message(&self) -> Seq<char> {
        match self {
            EncodeError::EmptyBatch => "No transactions to include in PDF"@,
            EncodeError::ImageDecodeFailure { index } => "Receipt #"@ + digits_of(
                (index + 1) as nat,
            ) + ": failed to load image"@,
        }
    }

    /// The error in words.
    pub fn message(&self) -> (r: String)
        requires
            self matches EncodeError::ImageDecodeFailure { index } ==> index < usize::MAX,
        ensures
            r@ == self.spec_message(),
    {
        match self {
            EncodeError::EmptyBatch => "No transactions to include in PDF".to_owned(),
            EncodeError::ImageDecodeFailure { index } => {
                let mut out: Vec<char> = Vec::new();
                append_str(&mut out, "Receipt #");
                push_decimal(&mut out, (*index + 1) as u64);
                append_str(&mut out, ": failed to load image");
                assert(out@ =~= self.spec_message());
                string_of(&out)
            },
        }
    }
}

/// An image as a page embeds it: JPEG data and its size in pixels.
pub struct PageImage {
    pub jpeg: Vec<u8>,
    pub width: u32,
    pub height: u32,
}

/// What `bytes`, read as an image, gives when written as an RGB JPEG: the
/// data, the width and the height; none where the image cannot be read or
/// written.
pub uninterp spec fn transcoded(bytes: Seq<u8>) -> Option<(Seq<u8>, u32, u32)>;

/// `image::load_from_memory`, `DynamicImage::into_rgb8` and
/// `DynamicImage::write_to`: reads an image of any known format and writes
/// it again as an RGB JPEG. The contract names the result; it claims only
/// that the result depends on the bytes alone.
#[verifier::external_body]
pub(crate) fn transcode(bytes: &[u8]) -> (r: Option<PageImage>)
    ensures
        match r {
            Some(p) => transcoded(bytes@) == Some((p.jpeg@, p.width, p.height)),
            None => transcoded(bytes@).is_none(),
        },
{
    let rgb = match image::load_from_memory(bytes) {
        Ok(img) => img.into_rgb8(),
        Err(_) => return None,
    };
    let (width, height) = (rgb.width(), rgb.height());
    let mut jpeg: Vec<u8> = Vec::new();
    let mut cursor = std::io::Cursor::new(&mut jpeg);
    match image::DynamicImage::from(rgb).write_to(&mut cursor, image::ImageFormat::Jpeg) {
        Ok(()) => Some(PageImage { jpeg, width, height }),
        Err(_) => None,
    }
}

// ---------------------------------------------------------------------
// The line under the image
// ---------------------------------------------------------------------

/// `amount` in decimal with thousands separators: 45000 gives `45,000`.
pub fn fmt_amount(amount: u64) -> (r: String)
    ensures
        r@ == grouped(digits_of(amount as nat)),
{
    let digits = decimal(amount);
    let with_commas = group_thousands(&digits);
    string_of(&with_commas)
}

/// `s` as it stands between the brackets of a string of the document:
/// a backslash before each bracket and backslash, and no character beyond
/// ASCII.
pub open spec fn pdf_escaped(s: Seq<char>) -> Seq<char>
    decreases s.len(),
{
    if s.len() == 0 {
        s
    } else {
        let c = s.last();
        let rest = pdf_escaped(s.drop_last());
        if c == '(' || c == ')' || c == '\\' {
            rest.push('\\').push(c)
        } else if c as u32 <= 0x7f {
            rest.push(c)
        } else {
            rest
        }
    }
}

/// `s` with brackets and backslashes escaped and what is beyond ASCII left
/// out.
pub fn pdf_str(s: &str) -> (r: String)
    ensures
        r@ == pdf_escaped(s@),
{
    let chars = to_chars(s);
    let mut out: Vec<char> = Vec::new();
    let mut i: usize = 0;
    while i < chars.len()
        invariant
            i <= chars.len(),
            out@ == pdf_escaped(chars@.subrange(0, i as int)),
        decreases chars.len() - i,
    {
        let c = chars[i];
        proof {
            let next = chars@.subrange(0, i + 1);
            assert(next.drop_last() == chars@.subrange(0, i as int));
            assert(next.last() == c);
        }
        if c == '(' || c == ')' || c == '\\' {
            out.push('\\');
            out.push(c);
        } else if c as u32 <= 0x7f {
            out.push(c);
        }
        i += 1;
    }
    assert(chars@.subrange(0, chars.len() as int) == chars@);
    string_of(&out)
}

/// `s` with a question mark in place of each character that is not
/// printable ASCII.
pub open spec fn printable(s: Seq<char>) -> Seq<char> {
    s.map_values(
        |c: char|
            if is_printable_ascii(c) {
                c
            } else {
                '?'
            },
    )
}

/// The expense type of a record as the line shows it; a dash where the
/// record has none.
pub open spec fn category_text(record: CardTransaction) -> Seq<char> {
    match record.expense_type {
        Some(t) => printable(t@),
        None => seq!['-'],
    }
}

/// The line under the image of the record at `index`: its number counted
/// from 1, date and time to the minute, the amount, and the expense type.
pub open spec fn footer_of(index: nat, record: CardTransaction) -> Seq<char> {
    digits_of(index + 1) + seq!['.', ' '] + record.datetime.text(LAYOUT_MINUTES@) + seq![' ', ' ']
        + grouped(digits_of(record.amount as nat)) + seq![' ', ' '] + category_text(record)
}

/// The line under the image of the record at `index`.
pub fn footer_text(index: usize, record: &CardTransaction) -> (r: String)
    requires
        record.wf(),
        index < usize::MAX,
    ensures
        r@ == footer_of(index as nat, *record),
{
    let mut out: Vec<char> = Vec::new();
    push_decimal(&mut out, (index + 1) as u64);
    out.push('.');
    out.push(' ');
    let date = render(&record.datetime, LAYOUT_MINUTES);
    append_str(&mut out, date.as_str());
    out.push(' ');
    out.push(' ');
    let amount = fmt_amount(record.amount);
    append_str(&mut out, amount.as_str());
    out.push(' ');
    out.push(' ');
    let ghost before = out@;
    match &record.expense_type {
        Some(t) => {
            let chars = to_chars(t.as_str());
            let mut i: usize = 0;
            while i < chars.len()
                invariant
                    i <= chars.len(),
                    chars@ == t@,
                    out@ == before + printable(t@).subrange(0, i as int),
                decreases chars.len() - i,
            {
                let c = chars[i];
                let u: u32 = c as u32;
                if 0x20 <= u && u <= 0x7E {
                    out.push(c);
                } else {
                    out.push('?');
                }
                assert(printable(t@).subrange(0, i + 1) == printable(t@).subrange(0, i as int).push(
                    printable(t@)[i as int],
                ));
                i += 1;
            }
            assert(printable(t@).subrange(0, chars.len() as int) == printable(t@));
        },
        None => {
            out.push('-');
        },
    }
    assert(out@ =~= footer_of(index as nat, *record)) by {
        assert(before =~= digits_of((index + 1) as nat) + seq!['.', ' '] + record.datetime.text(
            LAYOUT_MINUTES@,
        ) + seq![' ', ' '] + grouped(digits_of(record.amount as nat)) + seq![' ', ' ']);
        assert(before + seq!['-'] =~= before.push('-'));
    }
    string_of(&out)
}

// ---------------------------------------------------------------------
// Where the image stands on the page
// ---------------------------------------------------------------------

/// Width of the area for the image, in thousandths of a point: the page
/// without its margins.
pub const AREA_W: u64 = 538576;

/// Height of the area for the image, in thousandths of a point: the page
/// without its margins and the band of the text line.
pub const AREA_H: u64 = 742670;

/// Size and lower left corner of the image on the page, in hundredths of a
/// point.
#[derive(Clone, Copy, Debug, PartialEq, Eq, Structural)]
pub struct Placement {
    pub draw_w: u64,
    pub draw_h: u64,
    pub x: u64,
    pub y: u64,
}

/// `num / den` to the nearest whole number, a half going up; 0 where `den`
/// is 0.
pub open spec fn rounded_div(num: int, den: int) -> int {
    if den <= 0 {
        0
    } else {
        (2 * num + den) / (2 * den)
    }
}

/// Whether an image of this size, scaled to fit the area, fills its width;
/// otherwise it fills its height.
pub open spec fn fills_width(width: u32, height: u32) -> bool {
    width * AREA_H > height * AREA_W
}

/// The placement of an image of `width` by `height` pixels: as large as the
/// area takes it with its proportions kept, and in the middle of the area.
pub open spec fn placement_of(width: u32, height: u32) -> Placement {
    if fills_width(width, height) {
        Placement {
            draw_w: rounded_div(AREA_W as int, 10) as u64,
            draw_h: rounded_div(AREA_W * height, 10 * width) as u64,
            x: 2835,
            y: rounded_div(884410 * width - AREA_W * height, 20 * width) as u64,
        }
    } else {
        Placement {
            draw_w: rounded_div(AREA_H * width, 10 * height) as u64,
            draw_h: rounded_div(AREA_H as int, 10) as u64,
            x: rounded_div(595276 * height - AREA_H * width, 20 * height) as u64,
            y: 7087,
        }
    }
}

/// `num / den` to the nearest whole number.
fn div_rounded(num: u64, den: u64) -> (r: u64)
    requires
        2 * num + den <= u64::MAX,
        2 * den <= u64::MAX,
    ensures
        r == rounded_div(num as int, den as int),
{
    if den == 0 {
        0
    } else {
        (2 * num + den) / (2 * den)
    }
}

/// The placement of an image of `width` by `height` pixels. The image never
/// reaches beyond the area that the page keeps for it.
pub fn place_image(width: u32, height: u32) -> (r: Placement)
    ensures
        r == placement_of(width, height),
        r.draw_w <= 53858,
        r.draw_h <= 74267,
        height > 0 ==> 2835 <= r.x,
        7087 <= r.y,
{
    proof {
        lemma_placement_fits(width, height);
    }
    let w: u64 = width as u64;
    let h: u64 = height as u64;
    if w * AREA_H > h * AREA_W {
        Placement {
            draw_w: div_rounded(AREA_W, 10),
            draw_h: div_rounded(AREA_W * h, 10 * w),
            x: 2835,
            y: div_rounded(884410 * w - AREA_W * h, 20 * w),
        }
    } else {
        Placement {
            draw_w: div_rounded(AREA_H * w, 10 * h),
            draw_h: div_rounded(AREA_H, 10),
            x: div_rounded(595276 * h - AREA_H * w, 20 * h),
            y: 7087,
        }
    }
}

proof fn lemma_div_at_most(n: int, d: int, q: int)
    by (nonlinear_arith)
    requires
        d > 0,
        n < (q + 1) * d,
    ensures
        n / d <= q,
{
}

proof fn lemma_div_at_least(n: int, d: int, q: int)
    by (nonlinear_arith)
    requires
        d > 0,
        n >= q * d,
    ensures
        n / d >= q,
{
}

/// The image never reaches beyond the area that the page keeps for it, and
/// an image that has a height stands within the margins.
pub proof fn lemma_placement_fits(width: u32, height: u32)
    ensures
        placement_of(width, height).draw_w <= 53858,
        placement_of(width, height).draw_h <= 74267,
        height > 0 ==> 2835 <= placement_of(width, height).x,
        7087 <= placement_of(width, height).y,
{
    let w = width as int;
    let h = height as int;
    if fills_width(width, height) {
        assert(538576 * h < 742670 * w);
        lemma_div_at_most(2 * (538576 * h) + 10 * w, 2 * (10 * w), 74267);
        lemma_div_at_least(2 * (884410 * w - 538576 * h) + 20 * w, 2 * (20 * w), 7087);
    } else if h > 0 {
        assert(742670 * w <= 538576 * h);
        lemma_div_at_most(2 * (742670 * w) + 10 * h, 2 * (10 * h), 53858);
        lemma_div_at_least(2 * (595276 * h - 742670 * w) + 20 * h, 2 * (20 * h), 2835);
    } else {
        assert(w == 0);
    }
}

// ---------------------------------------------------------------------
// The document, as bytes
// ---------------------------------------------------------------------

/// What one page shows.
pub struct Page {
    pub image: PageImage,
    /// The line under the image, escaped.
    pub footer: String,
}

/// What one page shows, as plain values.
pub struct PageView {
    pub jpeg: Seq<u8>,
    pub width: u32,
    pub height: u32,
    pub footer: Seq<char>,
}

impl Page {
    pub open spec fn view(&self) -> PageView {
        PageView {
            jpeg: self.image.jpeg@,
            width: self.image.width,
            height: self.image.height,
            footer: self.footer@,
        }
    }
}

/// What each page of `pages` shows.
pub open spec fn page_views(pages: Seq<Page>) -> Seq<PageView> {
    pages.map_values(|p: Page| p@)
}

/// The bytes of a text.
#[verifier::opaque]
pub open spec fn text(t: Seq<char>) -> Seq<u8> {
    encode_utf8(t)
}

/// The bytes of a number written in decimal.
pub open spec fn number(n: nat) -> Seq<u8> {
    text(digits_of(n))
}

/// A length in hundredths of a point, written in points with two decimals.
pub open spec fn points(v: nat) -> Seq<u8> {
    text(digits_of(v / 100) + seq!['.'] + zero_padded(v % 100, 2))
}

/// The first bytes of the document: the version line, and a comment of four
/// bytes above 127 that marks the file as binary.
pub open spec fn header() -> Seq<u8> {
    text("%PDF-1.4\n"@) + seq![0x25u8, 0xe2u8, 0xe3u8, 0xcfu8, 0xd3u8, 0x0au8]
}

/// The line that opens object `id`.
pub open spec fn declaration(id: nat) -> Seq<u8> {
    number(id) + text(" 0 obj\n"@)
}

/// The number of objects of a document of `n` pages: catalog, page tree and
/// font, and for each page its dictionary, its content and its image.
pub open spec fn object_count(n: nat) -> nat {
    3 + 3 * n
}

/// The reference to the dictionary of page `i`, counted from 0, which is
/// object `4 + 3 * i`.
pub open spec fn page_reference(i: nat) -> Seq<char> {
    digits_of(4 + 3 * i) + " 0 R"@
}

/// The references to the dictionaries of the first `n` pages, in their
/// order, a space between one and the next.
pub open spec fn kids(n: nat) -> Seq<char>
    decreases n,
{
    if n == 0 {
        Seq::empty()
    } else if n == 1 {
        page_reference(0)
    } else {
        kids((n - 1) as nat) + seq![' '] + page_reference((n - 1) as nat)
    }
}

/// The catalog, object 1, after its declaration.
pub open spec fn catalog_body() -> Seq<u8> {
    text("<< /Type /Catalog /Pages 2 0 R >>\nendobj\n"@)
}

/// The page tree of `n` pages, object 2, after its declaration.
pub open spec fn tree_body(n: nat) -> Seq<u8> {
    text("<< /Type /Pages /Kids ["@) + text(kids(n)) + text("] /Count "@) + number(n) + text(
        " >>\nendobj\n"@,
    )
}

/// The font of the text line, object 3, after its declaration.
pub open spec fn font_body() -> Seq<u8> {
    text(
        "<< /Type /Font /Subtype /Type1 /BaseFont /Helvetica /Encoding /WinAnsiEncoding >>\nendobj\n"@,
    )
}

/// The dictionary of a page, object `id`, after its declaration: its
/// content is the next object, its image the one after.
pub open spec fn page_body(id: nat) -> Seq<u8> {
    text("<< /Type /Page /Parent 2 0 R /MediaBox [0 0 595.28 841.89] /Contents "@) + number(id + 1) + text(" 0 R /Resources << /Font << /F1 3 0 R >> /XObject << /Im"@)
        + number(id + 2) + text(" "@) + number(id + 2) + text(" 0 R >> >> >>\nendobj\n"@)
}

/// The drawing instructions of a page whose image is object `image_id`: the
/// image at its place, then the text line.
pub open spec fn content_stream(p: PageView, image_id: nat) -> Seq<u8> {
    let at = placement_of(p.width, p.height);
    text("q\n"@) + points(at.draw_w as nat) + text(" 0 0 "@) + points(at.draw_h as nat) + text(
        " "@,
    ) + points(at.x as nat) + text(" "@) + points(at.y as nat) + text(" cm\n/Im"@) + number(
        image_id,
    ) + text(" Do\nQ\nBT\n/F1 10 Tf\n28.35 16.26 Td\n("@) + text(p.footer) + text(") Tj\nET\n"@)
}

/// The content of a page, object `id`, after its declaration.
pub open spec fn content_body(p: PageView, id: nat) -> Seq<u8> {
    let stream = content_stream(p, id + 1);
    text("<< /Length "@) + number(stream.len()) + text(" >>\nstream\n"@) + stream
        + text("\nendstream\nendobj\n"@)
}

/// The image of a page, after the declaration of its object.
pub open spec fn image_body(p: PageView) -> Seq<u8> {
    text("<< /Type /XObject /Subtype /Image /Width "@) + number(p.width as nat)
        + text(" /Height "@) + number(p.height as nat) + text(
        " /ColorSpace /DeviceRGB /BitsPerComponent 8 /Filter /DCTDecode /Length "@,
    ) + number(p.jpeg.len()) + text(" >>\nstream\n"@) + p.jpeg + text("\nendstream\nendobj\n"@)
}

/// Object `k` of the document after its declaration, for `k` from 1 to the
/// number of objects: page `i`, counted from 0, has the objects `4 + 3 * i`,
/// `5 + 3 * i` and `6 + 3 * i`.
pub open spec fn object_body(pages: Seq<PageView>, k: int) -> Seq<u8> {
    if k == 1 {
        catalog_body()
    } else if k == 2 {
        tree_body(pages.len())
    } else if k == 3 {
        font_body()
    } else {
        let p = pages[(k - 4) / 3];
        if (k - 4) % 3 == 0 {
            page_body(k as nat)
        } else if (k - 4) % 3 == 1 {
            content_body(p, k as nat)
        } else {
            image_body(p)
        }
    }
}

/// Object `k` of the document: its declaration, then what it holds.
pub open spec fn object(pages: Seq<PageView>, k: int) -> Seq<u8> {
    declaration(k as nat) + object_body(pages, k)
}

/// The document up to and with object `k`.
pub open spec fn body_upto(pages: Seq<PageView>, k: int) -> Seq<u8>
    decreases k,
{
    if k <= 0 {
        header()
    } else {
        body_upto(pages, k - 1) + object(pages, k)
    }
}

/// The place of object `k` in the document: the number of bytes before it.
pub open spec fn offset_of(pages: Seq<PageView>, k: int) -> nat {
    body_upto(pages, k - 1).len()
}

/// The row of the index for an object that begins at `place`: the place in
/// ten digits, with zeros in front, and the mark of an object in use.
pub open spec fn index_row(place: nat) -> Seq<u8> {
    text(zero_padded(place, 10)) + text(" 00000 n \n"@)
}

/// The rows of the index for objects 1 to `k`, in their order.
pub open spec fn index_rows(pages: Seq<PageView>, k: int) -> Seq<u8>
    decreases k,
{
    if k <= 0 {
        Seq::empty()
    } else {
        index_rows(pages, k - 1) + index_row(offset_of(pages, k))
    }
}

/// The start of the index: its size, one more than the number of objects,
/// and the row of the free object 0.
pub open spec fn index_head(pages: Seq<PageView>) -> Seq<u8> {
    text("xref\n0 "@) + number(object_count(pages.len()) + 1) + text("\n"@) + text(
        "0000000000 65535 f \n"@,
    )
}

/// The index: its start, and a row for each object.
pub open spec fn index(pages: Seq<PageView>) -> Seq<u8> {
    index_head(pages) + index_rows(pages, object_count(pages.len()) as int)
}

/// The end of the document: the size of the index, the root object, and the
/// place of the index.
pub open spec fn trailer(pages: Seq<PageView>) -> Seq<u8> {
    let total = object_count(pages.len());
    text("trailer\n<< /Size "@) + number(total + 1) + text(" /Root 1 0 R >>\nstartxref\n"@)
        + number(body_upto(pages, total as int).len()) + text("\n%%EOF\n"@)
}

/// Where every image can be read, the records have a page each, and the
/// document three objects and as many again for each record.
pub proof fn lemma_page_for_each_record(records: Seq<CardTransaction>)
    requires
        encoded(records).is_ok(),
    ensures
        records.len() > 0,
        pages_of(records).len() == records.len(),
        encoded(records) == Ok::<Seq<u8>, EncodeError>(document(pages_of(records))),
        object_count(pages_of(records).len()) == 3 + 3 * records.len(),
{
}

/// The whole document: header, objects, index, trailer.
pub open spec fn document(pages: Seq<PageView>) -> Seq<u8> {
    body_upto(pages, object_count(pages.len()) as int) + index(pages) + trailer(pages)
}

/// A piece that ends a start of a whole stands in the whole right after
/// what comes before it.
proof fn lemma_piece_in_whole(before: Seq<u8>, piece: Seq<u8>, whole: Seq<u8>)
    requires
        (before + piece).is_prefix_of(whole),
    ensures
        before.len() + piece.len() <= whole.len(),
        whole.subrange(before.len() as int, (before.len() + piece.len()) as int) == piece,
{
    let upto = before + piece;
    assert(upto.len() == before.len() + piece.len());
    assert(whole.subrange(0, upto.len() as int) == upto);
    assert forall|i: int| 0 <= i < piece.len() implies whole[before.len() + i] == piece[i] by {
        assert(whole.subrange(0, upto.len() as int)[before.len() + i] == upto[before.len() + i]);
    }
    assert(whole.subrange(before.len() as int, (before.len() + piece.len()) as int) =~= piece);
}

/// The document up to object `k` is the start of the document up to a later
/// object.
pub proof fn lemma_body_extends(pages: Seq<PageView>, k: int, m: int)
    requires
        0 <= k <= m,
    ensures
        body_upto(pages, k).is_prefix_of(body_upto(pages, m)),
    decreases m - k,
{
    if k < m {
        lemma_body_extends(pages, k, m - 1);
        let a = body_upto(pages, k);
        let b = body_upto(pages, m - 1);
        let c = body_upto(pages, m);
        assert(c == b + object(pages, m));
        assert(b.is_prefix_of(c)) by {
            assert(c.subrange(0, b.len() as int) =~= b);
        }
        assert(a.is_prefix_of(c)) by {
            assert(b.subrange(0, a.len() as int) == a);
            assert(c.subrange(0, a.len() as int) =~= b.subrange(0, a.len() as int));
        }
    } else {
        assert(body_upto(pages, k).subrange(0, body_upto(pages, k).len() as int) =~= body_upto(
            pages,
            k,
        ));
    }
}

/// A document of `N` pages has `3 + 3 * N` objects, and each stands where
/// the index says: at the place that its row gives, the document goes on
/// with the declaration of that object and with what it holds.
pub proof fn lemma_offsets_exact(pages: Seq<PageView>, k: int)
    requires
        1 <= k <= object_count(pages.len()),
    ensures
        object_count(pages.len()) == 3 + 3 * pages.len(),
        offset_of(pages, k) + object(pages, k).len() <= document(pages).len(),
        document(pages).subrange(
            offset_of(pages, k) as int,
            (offset_of(pages, k) + object(pages, k).len()) as int,
        ) == object(pages, k),
        declaration(k as nat).is_prefix_of(object(pages, k)),
{
    let total = object_count(pages.len()) as int;
    let body = body_upto(pages, total);
    let doc = document(pages);
    let before = body_upto(pages, k - 1);
    let piece = object(pages, k);
    lemma_body_extends(pages, k, total);
    assert(body_upto(pages, k) == before + piece);
    assert(body.is_prefix_of(doc)) by {
        assert(doc == body + index(pages) + trailer(pages));
        assert(doc.subrange(0, body.len() as int) =~= body);
    }
    assert((before + piece).is_prefix_of(doc)) by {
        let upto = before + piece;
        assert(body.subrange(0, upto.len() as int) == upto);
        assert(doc.subrange(0, upto.len() as int) =~= body.subrange(0, upto.len() as int));
    }
    lemma_piece_in_whole(before, piece, doc);
    assert(declaration(k as nat).is_prefix_of(piece)) by {
        let d = declaration(k as nat);
        assert(piece == d + object_body(pages, k));
        assert(piece.subrange(0, d.len() as int) =~= d);
    }
}

// ---------------------------------------------------------------------
// Writing the document
// ---------------------------------------------------------------------

/// Appends the bytes of `s`.
fn push_text(buf: &mut Vec<u8>, s: &str)
    ensures
        final(buf)@ == old(buf)@ + text(s@),
{
    reveal(text);
    buf.extend_from_slice(s.as_bytes());
}

/// Appends the bytes of the characters `chars`.
fn push_chars(buf: &mut Vec<u8>, chars: &Vec<char>)
    ensures
        final(buf)@ == old(buf)@ + text(chars@),
{
    let s = string_of(chars);
    push_text(buf, s.as_str());
}

/// Appends `n` in decimal.
fn push_number(buf: &mut Vec<u8>, n: u64)
    ensures
        final(buf)@ == old(buf)@ + number(n as nat),
{
    let digits = decimal(n);
    push_chars(buf, &digits);
}

/// Appends a length of `v` hundredths of a point, in points.
fn push_points(buf: &mut Vec<u8>, v: u64)
    ensures
        final(buf)@ == old(buf)@ + points(v as nat),
{
    let mut chars = decimal(v / 100);
    chars.push('.');
    push_padded(&mut chars, v % 100, 2);
    assert(chars@ =~= digits_of((v / 100) as nat) + seq!['.'] + zero_padded((v % 100) as nat, 2));
    push_chars(buf, &chars);
}

/// Appends the line that opens object `id`.
fn push_declaration(buf: &mut Vec<u8>, id: u64)
    ensures
        final(buf)@ == old(buf)@ + declaration(id as nat),
{
    push_number(buf, id);
    push_text(buf, " 0 obj\n");
    assert(buf@ =~= old(buf)@ + declaration(id as nat));
}

/// The references to the dictionaries of `n` pages.
fn kids_of(n: usize) -> (r: Vec<char>)
    requires
        3 + 3 * n <= usize::MAX,
    ensures
        r@ == kids(n as nat),
{
    let mut r: Vec<char> = Vec::new();
    let mut i: usize = 0;
    while i < n
        invariant
            i <= n,
            3 + 3 * n <= usize::MAX,
            r@ == kids(i as nat),
        decreases n - i,
    {
        let ghost before = r@;
        if i > 0 {
            r.push(' ');
        }
        push_decimal(&mut r, (4 + 3 * i) as u64);
        append_str(&mut r, " 0 R");
        proof {
            if i == 0 {
                assert(r@ =~= page_reference(0));
            } else {
                assert(r@ =~= before + seq![' '] + page_reference(i as nat));
            }
        }
        i += 1;
    }
    r
}

/// The drawing instructions of `page`, whose image is object `image_id`.
fn content_stream_of(page: &Page, image_id: u64) -> (r: Vec<u8>)
    ensures
        r@ == content_stream(page@, image_id as nat),
{
    let at = place_image(page.image.width, page.image.height);
    let mut r: Vec<u8> = Vec::new();
    push_text(&mut r, "q\n");
    push_points(&mut r, at.draw_w);
    push_text(&mut r, " 0 0 ");
    push_points(&mut r, at.draw_h);
    push_text(&mut r, " ");
    push_points(&mut r, at.x);
    push_text(&mut r, " ");
    push_points(&mut r, at.y);
    push_text(&mut r, " cm\n/Im");
    push_number(&mut r, image_id);
    push_text(&mut r, " Do\nQ\nBT\n/F1 10 Tf\n28.35 16.26 Td\n(");
    push_text(&mut r, page.footer.as_str());
    push_text(&mut r, ") Tj\nET\n");
    assert(r@ =~= content_stream(page@, image_id as nat));
    r
}

/// The dictionary of a page, object `id`, after its declaration.
fn page_body_of(id: u64) -> (r: Vec<u8>)
    requires
        id + 2 <= u64::MAX,
    ensures
        r@ == page_body(id as nat),
{
    let mut r: Vec<u8> = Vec::new();
    push_text(&mut r, "<< /Type /Page /Parent 2 0 R /MediaBox [0 0 595.28 841.89] /Contents ");
    assert(r@ =~= text(
        "<< /Type /Page /Parent 2 0 R /MediaBox [0 0 595.28 841.89] /Contents "@,
    ));
    push_number(&mut r, id + 1);
    push_text(&mut r, " 0 R /Resources << /Font << /F1 3 0 R >> /XObject << /Im");
    push_number(&mut r, id + 2);
    push_text(&mut r, " ");
    push_number(&mut r, id + 2);
    push_text(&mut r, " 0 R >> >> >>\nendobj\n");
    r
}

/// The content of `page`, object `id`, after its declaration.
fn content_body_of(page: &Page, id: u64) -> (r: Vec<u8>)
    requires
        id + 1 <= u64::MAX,
    ensures
        r@ == content_body(page@, id as nat),
{
    let stream = content_stream_of(page, id + 1);
    let mut r: Vec<u8> = Vec::new();
    push_text(&mut r, "<< /Length ");
    assert(r@ =~= text("<< /Length "@));
    push_number(&mut r, stream.len() as u64);
    push_text(&mut r, " >>\nstream\n");
    r.extend_from_slice(stream.as_slice());
    push_text(&mut r, "\nendstream\nendobj\n");
    r
}

/// The image of `page`, after the declaration of its object.
fn image_body_of(page: &Page) -> (r: Vec<u8>)
    ensures
        r@ == image_body(page@),
{
    let mut r: Vec<u8> = Vec::new();
    push_text(&mut r, "<< /Type /XObject /Subtype /Image /Width ");
    assert(r@ =~= text("<< /Type /XObject /Subtype /Image /Width "@));
    push_number(&mut r, page.image.width as u64);
    push_text(&mut r, " /Height ");
    push_number(&mut r, page.image.height as u64);
    push_text(&mut r, " /ColorSpace /DeviceRGB /BitsPerComponent 8 /Filter /DCTDecode /Length ");
    push_number(&mut r, page.image.jpeg.len() as u64);
    push_text(&mut r, " >>\nstream\n");
    r.extend_from_slice(page.image.jpeg.as_slice());
    push_text(&mut r, "\nendstream\nendobj\n");
    r
}

/// The page tree of `n` pages, object 2, after its declaration.
fn tree_body_of(n: usize) -> (r: Vec<u8>)
    requires
        3 + 3 * n <= usize::MAX,
    ensures
        r@ == tree_body(n as nat),
{
    let kids = kids_of(n);
    let mut r: Vec<u8> = Vec::new();
    push_text(&mut r, "<< /Type /Pages /Kids [");
    assert(r@ =~= text("<< /Type /Pages /Kids ["@));
    push_chars(&mut r, &kids);
    push_text(&mut r, "] /Count ");
    push_number(&mut r, n as u64);
    push_text(&mut r, " >>\nendobj\n");
    r
}

/// Appends an object: its declaration, then `body`. Returns the place where
/// the object begins.
fn push_object(buf: &mut Vec<u8>, id: u64, body: &Vec<u8>) -> (place: usize)
    ensures
        final(buf)@ == old(buf)@ + (declaration(id as nat) + body@),
        place == old(buf)@.len(),
{
    let place = buf.len();
    let mut object: Vec<u8> = Vec::new();
    push_declaration(&mut object, id);
    object.extend_from_slice(body.as_slice());
    assert(object@ =~= declaration(id as nat) + body@);
    buf.extend_from_slice(object.as_slice());
    place
}

/// The rows of the index for the objects whose places are `offsets`.
fn index_rows_of(offsets: &Vec<usize>, Ghost(pages): Ghost<Seq<PageView>>) -> (r: Vec<u8>)
    requires
        forall|j: int| 0 <= j < offsets.len() ==> #[trigger] offsets@[j] == offset_of(pages, j + 1),
    ensures
        r@ == index_rows(pages, offsets.len() as int),
{
    let mut r: Vec<u8> = Vec::new();
    let mut k: usize = 0;
    while k < offsets.len()
        invariant
            k <= offsets.len(),
            forall|j: int|
                0 <= j < offsets.len() ==> #[trigger] offsets@[j] == offset_of(pages, j + 1),
            r@ == index_rows(pages, k as int),
        decreases offsets.len() - k,
    {
        let mut digits: Vec<char> = Vec::new();
        push_padded(&mut digits, offsets[k] as u64, 10);
        assert(digits@ =~= zero_padded(offset_of(pages, k + 1), 10));
        let mut row: Vec<u8> = Vec::new();
        push_chars(&mut row, &digits);
        push_text(&mut row, " 00000 n \n");
        assert(row@ =~= index_row(offset_of(pages, k + 1)));
        r.extend_from_slice(row.as_slice());
        k += 1;
    }
    r
}

/// Appends the next object, whose body is `body`, and notes its place.
fn push_next_object(
    buf: &mut Vec<u8>,
    offsets: &mut Vec<usize>,
    body: &Vec<u8>,
    Ghost(pages): Ghost<Seq<PageView>>,
)
    requires
        old(offsets).len() < usize::MAX,
        old(buf)@ == body_upto(pages, old(offsets).len() as int),
        forall|j: int|
            0 <= j < old(offsets).len() ==> #[trigger] old(offsets)@[j] == offset_of(pages, j + 1),
        body@ == object_body(pages, old(offsets).len() + 1),
    ensures
        final(offsets).len() == old(offsets).len() + 1,
        final(buf)@ == body_upto(pages, final(offsets).len() as int),
        forall|j: int|
            0 <= j < final(offsets).len() ==> #[trigger] final(offsets)@[j] == offset_of(
                pages,
                j + 1,
            ),
{
    let id: usize = offsets.len() + 1;
    let place = push_object(buf, id as u64, body);
    offsets.push(place);
    assert(object(pages, id as int) == declaration(id as nat) + body@);
}

/// Objects 1 to 3 are the catalog, the tree of all pages and the font.
/// Page `i`, counted from 0, has three objects of its own: its dictionary,
/// its content and its image, in that order, from object `4 + 3 * i` on.
pub proof fn lemma_objects_of_page(pages: Seq<PageView>, i: int)
    requires
        0 <= i < pages.len(),
    ensures
        object_body(pages, 1) == catalog_body(),
        object_body(pages, 2) == tree_body(pages.len()),
        object_body(pages, 3) == font_body(),
        4 + 3 * i + 2 <= object_count(pages.len()),
        object_body(pages, 4 + 3 * i) == page_body((4 + 3 * i) as nat),
        object_body(pages, 5 + 3 * i) == content_body(pages[i], (5 + 3 * i) as nat),
        object_body(pages, 6 + 3 * i) == image_body(pages[i]),
{
    assert((4 + 3 * i - 4) / 3 == i && (4 + 3 * i - 4) % 3 == 0);
    assert((5 + 3 * i - 4) / 3 == i && (5 + 3 * i - 4) % 3 == 1);
    assert((6 + 3 * i - 4) / 3 == i && (6 + 3 * i - 4) % 3 == 2);
}

/// Appends the three objects of `page`, which is page `i`, and notes their
/// places.
fn push_page(
    buf: &mut Vec<u8>,
    offsets: &mut Vec<usize>,
    page: &Page,
    i: usize,
    Ghost(pages): Ghost<Seq<PageView>>,
)
    requires
        i < pages.len(),
        3 + 3 * pages.len() < usize::MAX,
        pages[i as int] == page@,
        old(offsets).len() == 3 + 3 * i,
        old(buf)@ == body_upto(pages, old(offsets).len() as int),
        forall|j: int|
            0 <= j < old(offsets).len() ==> #[trigger] old(offsets)@[j] == offset_of(pages, j + 1),
    ensures
        final(offsets).len() == 3 + 3 * (i + 1),
        final(buf)@ == body_upto(pages, final(offsets).len() as int),
        forall|j: int|
            0 <= j < final(offsets).len() ==> #[trigger] final(offsets)@[j] == offset_of(
                pages,
                j + 1,
            ),
{
    proof {
        lemma_objects_of_page(pages, i as int);
    }
    let id: usize = 4 + 3 * i;
    let body = page_body_of(id as u64);
    push_next_object(buf, offsets, &body, Ghost(pages));
    let body = content_body_of(page, (id + 1) as u64);
    push_next_object(buf, offsets, &body, Ghost(pages));
    let body = image_body_of(page);
    push_next_object(buf, offsets, &body, Ghost(pages));
}

/// The document of `pages`: one page for each, in their order.
pub fn write_document(pages: &Vec<Page>) -> (r: Vec<u8>)
    requires
        3 + 3 * pages.len() < usize::MAX,
    ensures
        r@ == document(page_views(pages@)),
{
    let ghost views = page_views(pages@);
    let n = pages.len();
    let total: usize = 3 + 3 * n;
    let mut buf: Vec<u8> = Vec::new();
    push_text(&mut buf, "%PDF-1.4\n");
    let marker: [u8; 6] = [0x25, 0xe2, 0xe3, 0xcf, 0xd3, 0x0a];
    buf.extend_from_slice(marker.as_slice());
    assert(buf@ =~= header()) by {
        assert(marker@ =~= seq![0x25u8, 0xe2u8, 0xe3u8, 0xcfu8, 0xd3u8, 0x0au8]);
    }
    assert(buf@ == body_upto(views, 0));

    let mut offsets: Vec<usize> = Vec::new();
    let mut catalog: Vec<u8> = Vec::new();
    push_text(&mut catalog, "<< /Type /Catalog /Pages 2 0 R >>\nendobj\n");
    assert(catalog@ =~= catalog_body());
    push_next_object(&mut buf, &mut offsets, &catalog, Ghost(views));

    let tree = tree_body_of(n);
    push_next_object(&mut buf, &mut offsets, &tree, Ghost(views));

    let mut font: Vec<u8> = Vec::new();
    push_text(
        &mut font,
        "<< /Type /Font /Subtype /Type1 /BaseFont /Helvetica /Encoding /WinAnsiEncoding >>\nendobj\n",
    );
    assert(font@ =~= font_body());
    push_next_object(&mut buf, &mut offsets, &font, Ghost(views));

    let mut i: usize = 0;
    while i < n
        invariant
            i <= n,
            n == pages.len(),
            3 + 3 * n < usize::MAX,
            views == page_views(pages@),
            buf@ == body_upto(views, offsets.len() as int),
            offsets.len() == 3 + 3 * i,
            forall|j: int| 0 <= j < offsets.len() ==> #[trigger] offsets@[j] == offset_of(views, j + 1),
        decreases n - i,
    {
        assert(views[i as int] == pages@[i as int]@);
        push_page(&mut buf, &mut offsets, &pages[i], i, Ghost(views));
        i += 1;
    }
    assert(total == object_count(views.len()));
    let index_place = buf.len();

    let rows = index_rows_of(&offsets, Ghost(views));
    let mut index_bytes: Vec<u8> = Vec::new();
    push_text(&mut index_bytes, "xref\n0 ");
    assert(index_bytes@ =~= text("xref\n0 "@));
    push_number(&mut index_bytes, (total + 1) as u64);
    push_text(&mut index_bytes, "\n");
    push_text(&mut index_bytes, "0000000000 65535 f \n");
    index_bytes.extend_from_slice(rows.as_slice());
    assert(index_bytes@ == index(views));

    let mut trailer_bytes: Vec<u8> = Vec::new();
    push_text(&mut trailer_bytes, "trailer\n<< /Size ");
    assert(trailer_bytes@ =~= text("trailer\n<< /Size "@));
    push_number(&mut trailer_bytes, (total + 1) as u64);
    push_text(&mut trailer_bytes, " /Root 1 0 R >>\nstartxref\n");
    push_number(&mut trailer_bytes, index_place as u64);
    push_text(&mut trailer_bytes, "\n%%EOF\n");
    assert(trailer_bytes@ == trailer(views));

    buf.extend_from_slice(index_bytes.as_slice());
    buf.extend_from_slice(trailer_bytes.as_slice());
    buf
}

// ---------------------------------------------------------------------
// From records to the document
// ---------------------------------------------------------------------

/// The page of the record at `index`; none where its image cannot be read
/// or written.
pub open spec fn page_of(record: CardTransaction, index: nat) -> Option<PageView> {
    match transcoded(record.image_bytes@) {
        Some((jpeg, width, height)) => Some(
            PageView { jpeg, width, height, footer: pdf_escaped(footer_of(index, record)) },
        ),
        None => None,
    }
}

/// The index of the first record at or after `i` whose image cannot be read
/// or written; the number of records where there is none.
pub open spec fn first_failure(records: Seq<CardTransaction>, i: int) -> int
    decreases records.len() - i,
{
    if i < 0 || i >= records.len() {
        records.len() as int
    } else if transcoded(records[i].image_bytes@).is_none() {
        i
    } else {
        first_failure(records, i + 1)
    }
}

/// The pages of `records`, one for each, in their order.
pub open spec fn pages_of(records: Seq<CardTransaction>) -> Seq<PageView> {
    Seq::new(records.len(), |i: int| page_of(records[i], i as nat).unwrap())
}

/// What encoding `records` gives: no document for no record, nor where an
/// image fails, and then the first that fails is named; else the document
/// of their pages.
pub open spec fn encoded(records: Seq<CardTransaction>) -> Result<Seq<u8>, EncodeError> {
    if records.len() == 0 {
        Err(EncodeError::EmptyBatch)
    } else if first_failure(records, 0) < records.len() {
        Err(EncodeError::ImageDecodeFailure { index: first_failure(records, 0) as usize })
    } else {
        Ok(document(pages_of(records)))
    }
}

/// The page of `record`, which stands at `index`, once its image is written
/// as `image`.
pub fn page_for(index: usize, record: &CardTransaction, image: PageImage) -> (r: Page)
    requires
        record.wf(),
        index < usize::MAX,
    ensures
        r@ == (PageView {
            jpeg: image.jpeg@,
            width: image.width,
            height: image.height,
            footer: pdf_escaped(footer_of(index as nat, *record)),
        }),
{
    let footer = footer_text(index, record);
    Page { image, footer: pdf_str(footer.as_str()) }
}

/// A document with one page for each record, in their order: on each page
/// the image of the record, as large as fits and in the middle, and under it
/// a line with the number of the record, its date, amount and expense type.
pub fn generate_receipts_pdf(transactions: &[CardTransaction]) -> (r: Result<Vec<u8>, EncodeError>)
    requires
        forall|i: int| 0 <= i < transactions@.len() ==> (#[trigger] transactions@[i]).wf(),
        3 + 3 * transactions@.len() < usize::MAX,
    ensures
        match r {
            Ok(bytes) => encoded(transactions@) == Ok::<Seq<u8>, EncodeError>(bytes@),
            Err(e) => encoded(transactions@) == Err::<Seq<u8>, EncodeError>(e),
        },
{
    let n = transactions.len();
    if n == 0 {
        return Err(EncodeError::EmptyBatch);
    }
    let mut pages: Vec<Page> = Vec::new();
    let mut i: usize = 0;
    while i < n
        invariant
            i <= n,
            n == transactions@.len(),
            3 + 3 * n < usize::MAX,
            forall|k: int| 0 <= k < transactions@.len() ==> (#[trigger] transactions@[k]).wf(),
            first_failure(transactions@, 0) == first_failure(transactions@, i as int),
            pages.len() == i,
            forall|k: int|
                0 <= k < i ==> page_of(transactions@[k], k as nat) == Some(
                    (#[trigger] pages@[k])@,
                ),
        decreases n - i,
    {
        let record = &transactions[i];
        match transcode(record.image_bytes.as_slice()) {
            Some(image) => {
                pages.push(page_for(i, record, image));
            },
            None => {
                return Err(EncodeError::ImageDecodeFailure { index: i });
            },
        }
        i += 1;
    }
    assert(page_views(pages@) =~= pages_of(transactions@));
    Ok(write_document(&pages))
}

/// The index stands right after the last object, which is the place that
/// the trailer gives for it, and the trailer ends the document.
pub proof fn lemma_index_place(pages: Seq<PageView>)
    ensures
        ({
            let at = body_upto(pages, object_count(pages.len()) as int).len() as int;
            let end = at + index(pages).len();
            let doc = document(pages);
            &&& end + trailer(pages).len() == doc.len()
            &&& doc.subrange(at, end) == index(pages)
            &&& doc.subrange(end, doc.len() as int) == trailer(pages)
        }),
{
    let body = body_upto(pages, object_count(pages.len()) as int);
    let doc = document(pages);
    let at = body.len() as int;
    let end = at + index(pages).len();
    assert(doc == body + index(pages) + trailer(pages));
    assert(doc.subrange(at, end) =~= index(pages));
    assert(doc.subrange(end, doc.len() as int) =~= trailer(pages));
}

/// The bytes of a text of digits are as many as the digits.
proof fn lemma_text_of_digits(d: Seq<char>)
    requires
        all_digits(d),
    ensures
        text(d).len() == d.len(),
{
    reveal(text);
    assert(is_ascii_chars(d)) by {
        assert forall|i: int| 0 <= i < d.len() implies '\0' <= #[trigger] d[i] <= '\u{7f}' by {
            assert(is_digit(d[i]));
        }
    }
    is_ascii_chars_encode_utf8(d);
}

/// Every object takes room: it opens with its number.
proof fn lemma_object_takes_room(pages: Seq<PageView>, k: int)
    requires
        1 <= k,
    ensures
        object(pages, k).len() >= 1,
{
    lemma_digits_round_trip(k as nat);
    lemma_text_of_digits(digits_of(k as nat));
}

/// The objects stand in rising order, one right after the other, and all of
/// them before the index.
pub proof fn lemma_offsets_rise(pages: Seq<PageView>, k: int)
    requires
        1 <= k <= object_count(pages.len()),
    ensures
        offset_of(pages, k) < offset_of(pages, k + 1),
        offset_of(pages, k + 1) == offset_of(pages, k) + object(pages, k).len(),
        offset_of(pages, k + 1) <= body_upto(pages, object_count(pages.len()) as int).len(),
{
    lemma_object_takes_room(pages, k);
    lemma_body_extends(pages, k, object_count(pages.len()) as int);
    assert(body_upto(pages, k) == body_upto(pages, k - 1) + object(pages, k));
}

/// The rows for the first objects are the start of the rows for more of
/// them.
proof fn lemma_index_rows_extend(pages: Seq<PageView>, k: int, m: int)
    requires
        0 <= k <= m,
    ensures
        index_rows(pages, k).is_prefix_of(index_rows(pages, m)),
    decreases m - k,
{
    let a = index_rows(pages, k);
    if k < m {
        lemma_index_rows_extend(pages, k, m - 1);
        let b = index_rows(pages, m - 1);
        let c = index_rows(pages, m);
        assert(c == b + index_row(offset_of(pages, m)));
        assert(a.is_prefix_of(c)) by {
            assert(b.subrange(0, a.len() as int) == a);
            assert(c.subrange(0, a.len() as int) =~= b.subrange(0, a.len() as int));
        }
    } else {
        assert(a.subrange(0, a.len() as int) =~= a);
    }
}

/// In the index, the row of each object gives the place of that object: the
/// rows follow the start of the index in the order of the objects, and row
/// `k` is the row of the place where object `k` begins.
pub proof fn lemma_index_lists_places(pages: Seq<PageView>, k: int)
    requires
        1 <= k <= object_count(pages.len()),
    ensures
        ({
            let doc = document(pages);
            let total = object_count(pages.len()) as int;
            let row = index_row(offset_of(pages, k));
            let at = (body_upto(pages, total).len() + index_head(pages).len() + index_rows(
                pages,
                k - 1,
            ).len()) as int;
            &&& at + row.len() <= doc.len()
            &&& doc.subrange(at, at + row.len()) == row
        }),
{
    let total = object_count(pages.len()) as int;
    let body = body_upto(pages, total);
    let head = index_head(pages);
    let before = index_rows(pages, k - 1);
    let row = index_row(offset_of(pages, k));
    let rows = index_rows(pages, total);
    let doc = document(pages);
    lemma_index_rows_extend(pages, k, total);
    assert(index_rows(pages, k) == before + row);
    lemma_piece_in_whole(before, row, rows);
    assert(doc == body + (head + rows) + trailer(pages));
    let start = (body.len() + head.len()) as int;
    let from = before.len() as int;
    let to = from + row.len();
    assert(doc.subrange(start, start + rows.len()) =~= rows);
    assert(doc.subrange(start + from, start + to) =~= rows.subrange(from, to));
}

/// Ten to the power `k`.
pub open spec fn pow10(k: nat) -> nat
    decreases k,
{
    if k == 0 {
        1
    } else {
        10 * pow10((k - 1) as nat)
    }
}

/// A number below ten to the power `k` has at most `k` digits.
proof fn lemma_digits_len(n: nat, k: nat)
    requires
        k >= 1,
        n < pow10(k),
    ensures
        1 <= digits_of(n).len() <= k,
    decreases k,
{
    if n >= 10 {
        if k == 1 {
            assert(pow10(1) == 10) by {
                reveal_with_fuel(pow10, 2);
            }
        }
        lemma_digits_len(n / 10, (k - 1) as nat);
    }
}

/// The row of a place below ten to the tenth is twenty bytes long.
pub proof fn lemma_index_row_len(place: nat)
    requires
        place < pow10(10),
    ensures
        index_row(place).len() == 20,
{
    lemma_digits_len(place, 10);
    lemma_zero_padded(place, 10);
    lemma_text_of_digits(zero_padded(place, 10));
    let mark = " 00000 n \n"@;
    reveal_strlit(" 00000 n \n");
    reveal(text);
    assert(mark.len() == 10);
    assert(is_ascii_chars(mark));
    is_ascii_chars_encode_utf8(mark);
}

/// In a document below ten to the tenth bytes, whose places ten digits can
/// hold, the rows of the index are twenty bytes each: the rows of the first
/// `k` objects take `20 * k` bytes.
pub proof fn lemma_index_rows_len(pages: Seq<PageView>, k: int)
    requires
        0 <= k <= object_count(pages.len()),
        body_upto(pages, object_count(pages.len()) as int).len() < pow10(10),
    ensures
        index_rows(pages, k).len() == 20 * k,
    decreases k,
{
    if k > 0 {
        lemma_index_rows_len(pages, k - 1);
        lemma_offsets_rise(pages, k);
        lemma_index_row_len(offset_of(pages, k));
    }
}

/// The tree of `n` pages names each of them, in their order: the list for
/// the first `i + 1` pages is the list for the first `i`, a space where that
/// is not empty, and the reference to page `i`; and it is the start of the
/// list for all `n`.
pub proof fn lemma_tree_names_pages(n: nat, i: nat)
    requires
        i < n,
    ensures
        kids(i + 1) == kids(i) + (if i > 0 {
            seq![' ']
        } else {
            Seq::empty()
        }) + page_reference(i),
        kids(i + 1).is_prefix_of(kids(n)),
    decreases n - i,
{
    if i == 0 {
        assert(kids(1) =~= kids(0) + Seq::<char>::empty() + page_reference(0));
    }
    if i + 1 < n {
        lemma_tree_names_pages(n, i + 1);
        let a = kids(i + 1);
        let b = kids(i + 2);
        let c = kids(n);
        assert(b == a + seq![' '] + page_reference(i + 1));
        assert(b.subrange(0, a.len() as int) =~= a);
        assert(b.subrange(0, b.len() as int) =~= b);
        assert(c.subrange(0, a.len() as int) =~= c.subrange(0, b.len() as int).subrange(
            0,
            a.len() as int,
        ));
    } else {
        assert(kids(n).subrange(0, kids(n).len() as int) =~= kids(n));
    }
}

} // verus!
