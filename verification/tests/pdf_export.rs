use card_receipt::datetime::DateTime;
use card_receipt::model::{CardFormat, CardTransaction};
use card_receipt::pdf_export::{
    fmt_amount, footer_text, generate_receipts_pdf, page_for, pdf_str, place_image,
    write_document, EncodeError, Page, PageImage, Placement,
};

fn png(width: u32, height: u32) -> Vec<u8> {
    let img = image::RgbImage::from_pixel(width, height, image::Rgb([200, 30, 30]));
    let mut out = Vec::new();
    image::DynamicImage::from(img)
        .write_to(&mut std::io::Cursor::new(&mut out), image::ImageFormat::Png)
        .unwrap();
    out
}

fn record(amount: u64, expense: Option<&str>, image_bytes: Vec<u8>) -> CardTransaction {
    CardTransaction {
        filename: "a.png".to_string(),
        datetime: DateTime::new(2026, 1, 22, 16, 35, 39).unwrap(),
        merchant: "가게".to_string(),
        amount,
        raw_ocr_text: String::new(),
        card_format: CardFormat::HanaCard,
        expense_type: expense.map(|s| s.to_string()),
        image_bytes,
    }
}

fn find(hay: &[u8], needle: &[u8], from: usize) -> Option<usize> {
    (from..hay.len().saturating_sub(needle.len()) + 1).find(|&i| hay[i..].starts_with(needle))
}

fn count(hay: &[u8], needle: &[u8]) -> usize {
    let mut n = 0;
    let mut at = 0;
    while let Some(i) = find(hay, needle, at) {
        n += 1;
        at = i + needle.len();
    }
    n
}

/// The offsets that the index of `doc` lists, for objects 1, 2, ...
fn index_offsets(doc: &[u8]) -> Vec<usize> {
    let start = find(doc, b"xref\n", 0).unwrap();
    let text = String::from_utf8(doc[start..].to_vec()).unwrap();
    let mut lines = text.lines();
    assert_eq!(lines.next(), Some("xref"));
    let size: usize = lines.next().unwrap().strip_prefix("0 ").unwrap().parse().unwrap();
    assert_eq!(lines.next(), Some("0000000000 65535 f "));
    let mut offsets = Vec::new();
    for _ in 1..size {
        let row = lines.next().unwrap();
        assert_eq!(row.len(), 19);
        assert_eq!(&row[10..], " 00000 n ");
        offsets.push(row[..10].parse().unwrap());
    }
    assert_eq!(lines.next(), Some("trailer"));
    offsets
}

#[test]
fn amount_with_thousands_separators() {
    assert_eq!(fmt_amount(0), "0");
    assert_eq!(fmt_amount(999), "999");
    assert_eq!(fmt_amount(1000), "1,000");
    assert_eq!(fmt_amount(45000), "45,000");
    assert_eq!(fmt_amount(123456), "123,456");
    assert_eq!(fmt_amount(1234567), "1,234,567");
    assert_eq!(fmt_amount(u64::MAX), "18,446,744,073,709,551,615");
}

#[test]
fn string_escaping() {
    assert_eq!(pdf_str("a(b)c\\d"), "a\\(b\\)c\\\\d");
    assert_eq!(pdf_str("택시 Taxi"), " Taxi");
    assert_eq!(pdf_str(""), "");
}

#[test]
fn footer_line() {
    let r = record(27600, Some("Taxi"), Vec::new());
    assert_eq!(footer_text(0, &r), "1. 2026-01-22 16:35  27,600  Taxi");
    let r = record(5, None, Vec::new());
    assert_eq!(footer_text(11, &r), "12. 2026-01-22 16:35  5  -");
}

#[test]
fn footer_replaces_what_is_not_printable_ascii() {
    let r = record(1000, Some("택시 (T)\t~"), Vec::new());
    assert_eq!(footer_text(2, &r), "3. 2026-01-22 16:35  1,000  ?? (T)?~");
}

#[test]
fn placement_of_a_tall_image() {
    assert_eq!(
        place_image(1080, 2400),
        Placement { draw_w: 33420, draw_h: 74267, x: 13054, y: 7087 }
    );
}

#[test]
fn placement_of_a_wide_image() {
    assert_eq!(
        place_image(4000, 3000),
        Placement { draw_w: 53858, draw_h: 40393, x: 2835, y: 24024 }
    );
    assert_eq!(
        place_image(1, 1),
        Placement { draw_w: 53858, draw_h: 53858, x: 2835, y: 17292 }
    );
}

#[test]
fn placement_of_an_image_without_height() {
    assert_eq!(place_image(10, 0), Placement { draw_w: 53858, draw_h: 0, x: 2835, y: 44221 });
    assert_eq!(place_image(0, 0), Placement { draw_w: 0, draw_h: 74267, x: 0, y: 7087 });
}

#[test]
fn empty_batch_is_refused() {
    assert_eq!(generate_receipts_pdf(&[]), Err(EncodeError::EmptyBatch));
}

#[test]
fn image_that_cannot_be_read_is_named() {
    let records = vec![
        record(1, None, png(2, 3)),
        record(2, None, b"not an image".to_vec()),
        record(3, None, Vec::new()),
    ];
    assert_eq!(
        generate_receipts_pdf(&records),
        Err(EncodeError::ImageDecodeFailure { index: 1 })
    );
    assert_eq!(
        generate_receipts_pdf(&records[2..]),
        Err(EncodeError::ImageDecodeFailure { index: 0 })
    );
}

#[test]
fn document_has_a_page_and_three_objects_for_each_record() {
    for n in 1..4usize {
        let records: Vec<CardTransaction> =
            (0..n).map(|i| record(1000 + i as u64, Some("Gas"), png(4, 6))).collect();
        let doc = generate_receipts_pdf(&records).unwrap();
        assert!(doc.starts_with(b"%PDF-1.4\n%\xe2\xe3\xcf\xd3\n1 0 obj\n"));
        assert!(doc.ends_with(b"\n%%EOF\n"));
        assert_eq!(count(&doc, b"<< /Type /Page /Parent"), n);
        assert_eq!(count(&doc, b"/Subtype /Image"), n);
        assert_eq!(count(&doc, b" 0 obj\n<<"), 3 + 3 * n);
        assert_eq!(count(&doc, format!("/Count {} >>", n).as_bytes()), 1);
        assert_eq!(
            count(&doc, format!("<< /Size {} /Root 1 0 R >>", 4 + 3 * n).as_bytes()),
            1
        );
        assert_eq!(index_offsets(&doc).len(), 3 + 3 * n);
    }
}

#[test]
fn index_lists_where_each_object_begins() {
    let records = vec![
        record(27600, Some("Taxi"), png(30, 10)),
        record(5, None, png(10, 30)),
        record(123456789, Some("Office expense"), png(7, 7)),
    ];
    let doc = generate_receipts_pdf(&records).unwrap();
    let offsets = index_offsets(&doc);
    assert_eq!(offsets.len(), 12);
    for (k, offset) in offsets.iter().enumerate() {
        let declaration = format!("{} 0 obj\n", k + 1);
        assert!(doc[*offset..].starts_with(declaration.as_bytes()));
        assert_eq!(doc[*offset - 1], b'\n');
    }
    let index_at = find(&doc, b"xref\n", 0).unwrap();
    let tail = format!("startxref\n{}\n%%EOF\n", index_at);
    assert!(doc.ends_with(tail.as_bytes()));
}

#[test]
fn pages_keep_the_order_of_the_records() {
    let records = vec![record(111, Some("A"), png(3, 3)), record(222, Some("B"), png(3, 3))];
    let doc = generate_receipts_pdf(&records).unwrap();
    let first = find(&doc, b"(1. 2026-01-22 16:35  111  A) Tj", 0).unwrap();
    let second = find(&doc, b"(2. 2026-01-22 16:35  222  B) Tj", 0).unwrap();
    assert!(first < second);
    assert_eq!(count(&doc, b"/Kids [4 0 R 7 0 R] /Count 2"), 1);
}

#[test]
fn document_of_one_page_byte_for_byte() {
    let page = Page {
        image: PageImage { jpeg: vec![0xff, 0xd8, 0xff, 0xd9], width: 4000, height: 3000 },
        footer: "1. x \\(y\\)".to_string(),
    };
    let doc = write_document(&vec![page]);
    let content = "q\n538.58 0 0 403.93 28.35 240.24 cm\n/Im6 Do\nQ\nBT\n/F1 10 Tf\n28.35 16.26 Td\n(1. x \\(y\\)) Tj\nET\n";
    let mut body: Vec<u8> = Vec::new();
    body.extend_from_slice(b"%PDF-1.4\n%\xe2\xe3\xcf\xd3\n");
    let mut offsets = Vec::new();
    let mut object = |body: &mut Vec<u8>, bytes: &[u8]| {
        offsets.push(body.len());
        body.extend_from_slice(bytes);
    };
    object(&mut body, b"1 0 obj\n<< /Type /Catalog /Pages 2 0 R >>\nendobj\n");
    object(&mut body, b"2 0 obj\n<< /Type /Pages /Kids [4 0 R] /Count 1 >>\nendobj\n");
    object(&mut body, b"3 0 obj\n<< /Type /Font /Subtype /Type1 /BaseFont /Helvetica /Encoding /WinAnsiEncoding >>\nendobj\n");
    object(&mut body, b"4 0 obj\n<< /Type /Page /Parent 2 0 R /MediaBox [0 0 595.28 841.89] /Contents 5 0 R /Resources << /Font << /F1 3 0 R >> /XObject << /Im6 6 0 R >> >> >>\nendobj\n");
    object(
        &mut body,
        format!("5 0 obj\n<< /Length {} >>\nstream\n{}\nendstream\nendobj\n", content.len(), content)
            .as_bytes(),
    );
    object(&mut body, b"6 0 obj\n<< /Type /XObject /Subtype /Image /Width 4000 /Height 3000 /ColorSpace /DeviceRGB /BitsPerComponent 8 /Filter /DCTDecode /Length 4 >>\nstream\n\xff\xd8\xff\xd9\nendstream\nendobj\n");
    let index_at = body.len();
    body.extend_from_slice(b"xref\n0 7\n0000000000 65535 f \n");
    for offset in offsets {
        body.extend_from_slice(format!("{:010} 00000 n \n", offset).as_bytes());
    }
    body.extend_from_slice(
        format!("trailer\n<< /Size 7 /Root 1 0 R >>\nstartxref\n{}\n%%EOF\n", index_at).as_bytes(),
    );
    assert_eq!(doc, body);
}

#[test]
fn page_of_a_record_carries_image_and_escaped_footer() {
    let r = record(1500, Some("a(b)"), Vec::new());
    let page = page_for(4, &r, PageImage { jpeg: vec![1, 2, 3], width: 9, height: 8 });
    assert_eq!(page.footer, "5. 2026-01-22 16:35  1,500  a\\(b\\)");
    assert_eq!(page.image.jpeg, vec![1, 2, 3]);
    assert_eq!((page.image.width, page.image.height), (9, 8));
}

#[test]
fn image_is_embedded_as_jpeg_with_its_size() {
    let doc = generate_receipts_pdf(&[record(1, None, png(31, 17))]).unwrap();
    assert_eq!(count(&doc, b"/Width 31 /Height 17 /ColorSpace /DeviceRGB"), 1);
    let stream = find(&doc, b"/Filter /DCTDecode", 0).unwrap();
    let data = find(&doc, b"stream\n", stream).unwrap() + 7;
    assert_eq!(&doc[data..data + 2], &[0xff, 0xd8]);
    let decoded = image::load_from_memory(&doc[data..]).unwrap();
    assert_eq!((decoded.width(), decoded.height()), (31, 17));
}

#[test]
fn footer_date_in_years_of_any_length() {
    for year in [0, 7, 999, 1000, 9999, 10000, 262142, -1, -999, -262143] {
        let mut r = record(1, None, Vec::new());
        r.datetime = DateTime::new(year, 3, 4, 5, 6, 7).unwrap();
        let theirs = chrono::NaiveDate::from_ymd_opt(year, 3, 4)
            .unwrap()
            .and_hms_opt(5, 6, 7)
            .unwrap()
            .format("%Y-%m-%d %H:%M")
            .to_string();
        assert_eq!(footer_text(0, &r), format!("1. {}  1  -", theirs));
    }
    let mut r = record(1, None, Vec::new());
    r.datetime = DateTime::new(-5, 12, 31, 23, 59, 0).unwrap();
    assert_eq!(footer_text(0, &r), "1. -0005-12-31 23:59  1  -");
    r.datetime = DateTime::new(12345, 1, 1, 0, 0, 0).unwrap();
    assert_eq!(footer_text(0, &r), "1. +12345-01-01 00:00  1  -");
}

#[test]
fn errors_in_words() {
    assert_eq!(EncodeError::EmptyBatch.message(), "No transactions to include in PDF");
    assert_eq!(
        EncodeError::ImageDecodeFailure { index: 2 }.message(),
        "Receipt #3: failed to load image"
    );
}
