use card_receipt::bundle::{
    bundle_entries, entry_name, receipt_bundle, write_archive, BundleEntry, BundleError, Source,
};
use std::io::Read;

fn entries_of_archive(bytes: Vec<u8>) -> Vec<(String, Vec<u8>, bool)> {
    let mut archive = zip::ZipArchive::new(std::io::Cursor::new(bytes)).unwrap();
    let mut out = Vec::new();
    for i in 0..archive.len() {
        let mut file = archive.by_index(i).unwrap();
        let mut data = Vec::new();
        file.read_to_end(&mut data).unwrap();
        let stored = file.compression() == zip::CompressionMethod::Stored;
        let name = String::from_utf8(file.name_raw().to_vec()).unwrap();
        out.push((name, data, !stored));
    }
    out
}

fn image(name: &str, bytes: &[u8]) -> (String, Vec<u8>) {
    (name.to_string(), bytes.to_vec())
}

#[test]
fn names_of_image_entries() {
    assert_eq!(entry_name(0, Some("PNG")), "1.png");
    assert_eq!(entry_name(9, Some("Jpeg")), "10.jpeg");
    assert_eq!(entry_name(2, None), "3.jpg");
    assert_eq!(entry_name(0, Some("")), "1.");
    assert_eq!(entry_name(0, Some("É@[`{Z")), "1.É@[`{z");
}

#[test]
fn entries_listed_for_a_bundle() {
    let images = vec![image("a.PNG", b"one"), image("b", b""), image("c", b"three")];
    let extensions = vec![Some("PNG".to_string()), Some("gif".to_string()), None];
    let entries = bundle_entries(&images, &extensions, b"csv", b"pdf");
    let listed: Vec<(&str, Source, bool)> =
        entries.iter().map(|e| (e.name.as_str(), e.source, e.compressed)).collect();
    assert_eq!(
        listed,
        [
            ("1.png", Source::Image(0), false),
            ("3.jpg", Source::Image(2), false),
            ("카드사용내역.csv", Source::Csv, true),
            ("영수증모음.pdf", Source::Pdf, true),
        ]
    );
    assert!(bundle_entries(&vec![], &vec![], b"", b"").is_empty());
    let only_pdf = bundle_entries(&vec![], &vec![], b"", b"x");
    assert_eq!(only_pdf.len(), 1);
    assert_eq!(only_pdf[0].source, Source::Pdf);
}

#[test]
fn bundle_holds_images_table_and_document() {
    let images = vec![
        image("first.JPG", b"jpeg data"),
        image("empty.png", b""),
        image("noext", b"more"),
        image("dir.d/pic.PnG", b"png data"),
    ];
    let bytes = receipt_bundle(&images, b"a,b\n1,2\n", b"%PDF-1.4").unwrap();
    assert_eq!(
        entries_of_archive(bytes),
        vec![
            ("1.jpg".to_string(), b"jpeg data".to_vec(), false),
            ("3.jpg".to_string(), b"more".to_vec(), false),
            ("4.png".to_string(), b"png data".to_vec(), false),
            ("카드사용내역.csv".to_string(), b"a,b\n1,2\n".to_vec(), true),
            ("영수증모음.pdf".to_string(), b"%PDF-1.4".to_vec(), true),
        ]
    );
}

#[test]
fn bundle_of_nothing_is_an_empty_archive() {
    let bytes = receipt_bundle(&vec![], b"", b"").unwrap();
    assert!(entries_of_archive(bytes).is_empty());
}

#[test]
fn archive_of_given_entries() {
    let images = vec![image("x", b"img")];
    let entries = vec![
        BundleEntry { name: "doc.pdf".to_string(), source: Source::Pdf, compressed: true },
        BundleEntry { name: "pic".to_string(), source: Source::Image(0), compressed: false },
    ];
    let bytes = write_archive(&entries, &images, b"", b"pdf").unwrap();
    assert_eq!(
        entries_of_archive(bytes),
        vec![
            ("doc.pdf".to_string(), b"pdf".to_vec(), true),
            ("pic".to_string(), b"img".to_vec(), false),
        ]
    );
}

#[test]
fn entry_that_cannot_be_opened_is_named() {
    let entries = vec![
        BundleEntry { name: "same".to_string(), source: Source::Csv, compressed: true },
        BundleEntry { name: "other".to_string(), source: Source::Pdf, compressed: true },
        BundleEntry { name: "same".to_string(), source: Source::Pdf, compressed: false },
    ];
    assert_eq!(write_archive(&entries, &vec![], b"csv", b"pdf"), Err(BundleError::Start(2)));
}
