//! One archive of all that is exported: the images under their numbers, the
//! table as comma-separated text, and the printable document.

use crate::decimal::{digits_of, push_decimal};
use crate::text::{string_of, to_chars};
use vstd::prelude::*;

verus! {

/// A ZIP archive that is being written into memory: the writer of the
/// `zip` crate over a buffer.
#[verifier::external_body]
pub struct Archive {
    inner: zip::ZipWriter<std::io::Cursor<Vec<u8>>>,
}

/// The error of the `zip` crate.
#[verifier::external_type_specification]
#[verifier::external_body]
pub struct ExZipError(zip::result::ZipError);

/// What one entry of an archive has been given: the name it was opened
/// under, the data written to it, and whether they are compressed.
pub struct EntryData {
    pub name: Seq<char>,
    pub data: Seq<u8>,
    pub compressed: bool,
}

/// What the archive has been given so far: its entries in the order in
/// which they were opened, the last of them the one that is open.
pub uninterp spec fn archive_entries(archive: Archive) -> Seq<EntryData>;

/// The bytes that closing this archive gives; none where closing it fails.
/// They are those of this one archive: how they are laid out depends on the
/// system too, so another archive with the same entries may give others.
pub uninterp spec fn closed_bytes(archive: Archive) -> Option<Seq<u8>>;

/// `entries` with `bytes` added to the data of the last entry.
pub open spec fn with_data(entries: Seq<EntryData>, bytes: Seq<u8>) -> Seq<EntryData> {
    if entries.len() == 0 {
        entries
    } else {
        entries.drop_last().push(
            EntryData {
                name: entries.last().name,
                data: entries.last().data + bytes,
                compressed: entries.last().compressed,
            },
        )
    }
}

/// `zip::ZipWriter::new` on an empty buffer: an archive that has been given
/// nothing yet.
#[verifier::external_body]
fn archive_new() -> (archive: Archive)
    ensures
        archive_entries(archive) == Seq::<EntryData>::empty(),
{
    Archive { inner: zip::ZipWriter::new(std::io::Cursor::new(Vec::new())) }
}

/// `zip::ZipWriter::start_file` with the method `Stored`: closes the entry
/// that is open and opens the entry `name`, whose data will be kept as they
/// are. Where it succeeds, the archive has that entry more, without data.
#[verifier::external_body]
fn archive_start_stored(archive: &mut Archive, name: &str) -> (r: Result<
    (),
    zip::result::ZipError,
>)
    ensures
        r.is_ok() ==> archive_entries(*final(archive)) == archive_entries(*old(archive)).push(
            EntryData { name: name@, data: Seq::empty(), compressed: false },
        ),
{
    let options = zip::write::SimpleFileOptions::default();
    archive.inner.start_file(name, options.compression_method(zip::CompressionMethod::Stored))
}

/// `zip::ZipWriter::start_file` with the method `Deflated`: closes the entry
/// that is open and opens the entry `name`, whose data will be compressed.
/// Where it succeeds, the archive has that entry more, without data.
#[verifier::external_body]
fn archive_start_deflated(archive: &mut Archive, name: &str) -> (r: Result<
    (),
    zip::result::ZipError,
>)
    ensures
        r.is_ok() ==> archive_entries(*final(archive)) == archive_entries(*old(archive)).push(
            EntryData { name: name@, data: Seq::empty(), compressed: true },
        ),
{
    let options = zip::write::SimpleFileOptions::default();
    archive.inner.start_file(name, options.compression_method(zip::CompressionMethod::Deflated))
}

/// `std::io::Write::write_all` on the archive: adds `bytes` to the entry
/// that is open. Where it succeeds, the last entry has `bytes` more. (With
/// bytes to write it fails where no entry is open; with none it succeeds and
/// nothing changes.)
#[verifier::external_body]
fn archive_write(archive: &mut Archive, bytes: &[u8]) -> (r: Result<(), zip::result::ZipError>)
    ensures
        r.is_ok() ==> archive_entries(*final(archive)) == with_data(
            archive_entries(*old(archive)),
            bytes@,
        ),
{
    std::io::Write::write_all(&mut archive.inner, bytes).map_err(zip::result::ZipError::from)
}

/// `zip::ZipWriter::finish`: closes the archive and gives its bytes. The
/// contract names the result; it claims nothing of the bytes but that they
/// are those of this archive.
#[verifier::external_body]
fn archive_finish(archive: Archive) -> (r: Result<Vec<u8>, zip::result::ZipError>)
    ensures
        match r {
            Ok(bytes) => closed_bytes(archive) == Some(bytes@),
            Err(_) => closed_bytes(archive).is_none(),
        },
{
    archive.inner.finish().map(|cursor| cursor.into_inner())
}

/// `std::path::Path::extension`: the extension of the file that the path
/// `name` names, where it has one that is text. What a path is depends on
/// the system, so the contract says nothing of the result.
#[verifier::external_body]
fn path_extension(name: &str) -> Option<String> {
    std::path::Path::new(name).extension().and_then(|e| e.to_str()).map(|e| e.to_string())
}

// ---------------------------------------------------------------------
// What goes into the archive
// ---------------------------------------------------------------------

/// Where the data of an entry come from.
#[derive(Clone, Copy, Debug, PartialEq, Eq, Structural)]
pub enum Source {
    /// The image at this index.
    Image(usize),
    /// The table as comma-separated text.
    Csv,
    /// The printable document.
    Pdf,
}

/// One entry of the archive.
pub struct BundleEntry {
    pub name: String,
    pub source: Source,
    /// Whether the data are compressed; images, which are compressed
    /// already, are kept as they are.
    pub compressed: bool,
}

/// One entry of the archive, as plain values.
pub struct EntryView {
    pub name: Seq<char>,
    pub source: Source,
    pub compressed: bool,
}

impl BundleEntry {
    pub open spec fn view(&self) -> EntryView {
        EntryView { name: self.name@, source: self.source, compressed: self.compressed }
    }
}

/// What each entry of `entries` holds.
pub open spec fn entry_views(entries: Seq<BundleEntry>) -> Seq<EntryView> {
    entries.map_values(|e: BundleEntry| e@)
}

/// Why no archive was written.
#[derive(Clone, Copy, Debug, PartialEq, Eq, Structural)]
pub enum BundleError {
    /// The entry at this index could not be opened.
    Start(usize),
    /// The data of the entry at this index could not be written.
    Write(usize),
    /// The archive could not be closed.
    Finish,
}

/// An ASCII capital as its small letter, any other character as it is.
pub open spec fn ascii_lower(c: char) -> char {
    if 'A' <= c && c <= 'Z' {
        ((c as u8 + 32) as u8) as char
    } else {
        c
    }
}

/// `s` with its ASCII capitals as small letters.
pub open spec fn lowered(s: Seq<char>) -> Seq<char> {
    s.map_values(|c: char| ascii_lower(c))
}

/// The name of the entry for the image at `index`: its number counted from
/// 1, a dot, and the extension in small letters, `jpg` where it has none.
pub open spec fn entry_name_of(index: nat, extension: Option<Seq<char>>) -> Seq<char> {
    digits_of(index + 1) + seq!['.'] + lowered(
        match extension {
            Some(e) => e,
            None => seq!['j', 'p', 'g'],
        },
    )
}

/// The name of the entry for the image at `index`, whose file has the
/// extension `extension`.
pub fn entry_name(index: usize, extension: Option<&str>) -> (r: String)
    requires
        index < usize::MAX,
    ensures
        r@ == entry_name_of(
            index as nat,
            match extension {
                Some(e) => Some(e@),
                None => None,
            },
        ),
{
    let mut out: Vec<char> = Vec::new();
    push_decimal(&mut out, (index + 1) as u64);
    out.push('.');
    let ghost head = out@;
    let ext: Vec<char> = match extension {
        Some(e) => to_chars(e),
        None => {
            let mut d: Vec<char> = Vec::new();
            d.push('j');
            d.push('p');
            d.push('g');
            assert(d@ =~= seq!['j', 'p', 'g']);
            d
        },
    };
    let mut i: usize = 0;
    while i < ext.len()
        invariant
            i <= ext.len(),
            out@ == head + lowered(ext@).subrange(0, i as int),
        decreases ext.len() - i,
    {
        let c = ext[i];
        let low: char = if 'A' <= c && c <= 'Z' {
            ((c as u8) + 32) as char
        } else {
            c
        };
        out.push(low);
        assert(lowered(ext@).subrange(0, i + 1) =~= lowered(ext@).subrange(0, i as int).push(low));
        i += 1;
    }
    assert(lowered(ext@).subrange(0, ext.len() as int) =~= lowered(ext@));
    assert(head =~= digits_of((index + 1) as nat) + seq!['.']);
    string_of(&out)
}

/// The entries for the images from index `i` on: one for each image that
/// is not empty, kept as it is, under the number of its place.
pub open spec fn image_entries_from(
    images: Seq<(String, Vec<u8>)>,
    extensions: Seq<Option<String>>,
    i: int,
) -> Seq<EntryView>
    decreases images.len() - i,
{
    if i < 0 || i >= images.len() || i >= extensions.len() {
        Seq::empty()
    } else if images[i].1@.len() == 0 {
        image_entries_from(images, extensions, i + 1)
    } else {
        seq![
            EntryView {
                name: entry_name_of(
                    i as nat,
                    match extensions[i] {
                        Some(e) => Some(e@),
                        None => None,
                    },
                ),
                source: Source::Image(i as usize),
                compressed: false,
            },
        ] + image_entries_from(images, extensions, i + 1)
    }
}

/// The entries of the archive: the images that are not empty, then the
/// table and the document, each where it is not empty, compressed.
pub open spec fn entries_of(
    images: Seq<(String, Vec<u8>)>,
    extensions: Seq<Option<String>>,
    csv: Seq<u8>,
    pdf: Seq<u8>,
) -> Seq<EntryView> {
    image_entries_from(images, extensions, 0) + (if csv.len() > 0 {
        seq![EntryView { name: "카드사용내역.csv"@, source: Source::Csv, compressed: true }]
    } else {
        Seq::empty()
    }) + (if pdf.len() > 0 {
        seq![EntryView { name: "영수증모음.pdf"@, source: Source::Pdf, compressed: true }]
    } else {
        Seq::empty()
    })
}

/// The entries of the archive for these images, each a file name and its
/// bytes, the extension of each file, the table and the document.
pub fn bundle_entries(
    images: &Vec<(String, Vec<u8>)>,
    extensions: &Vec<Option<String>>,
    csv: &[u8],
    pdf: &[u8],
) -> (r: Vec<BundleEntry>)
    requires
        extensions.len() == images.len(),
    ensures
        entry_views(r@) == entries_of(images@, extensions@, csv@, pdf@),
{
    let mut r: Vec<BundleEntry> = Vec::new();
    let mut i: usize = 0;
    assert(entry_views(r@) =~= Seq::<EntryView>::empty());
    assert(Seq::<EntryView>::empty() + image_entries_from(images@, extensions@, 0)
        =~= image_entries_from(images@, extensions@, 0));
    while i < images.len()
        invariant
            i <= images.len(),
            extensions.len() == images.len(),
            entry_views(r@) + image_entries_from(images@, extensions@, i as int)
                == image_entries_from(images@, extensions@, 0),
        decreases images.len() - i,
    {
        if images[i].1.len() > 0 {
            let name = match &extensions[i] {
                Some(e) => entry_name(i, Some(e.as_str())),
                None => entry_name(i, None),
            };
            let entry = BundleEntry { name, source: Source::Image(i), compressed: false };
            proof {
                let rest = image_entries_from(images@, extensions@, i + 1);
                assert(entry_views(r@.push(entry)) =~= entry_views(r@).push(entry@));
                assert(entry_views(r@).push(entry@) + rest =~= entry_views(r@) + (seq![entry@]
                    + rest));
            }
            r.push(entry);
        }
        i += 1;
    }
    assert(entry_views(r@) =~= image_entries_from(images@, extensions@, 0));
    if csv.len() > 0 {
        let entry = BundleEntry {
            name: "카드사용내역.csv".to_owned(),
            source: Source::Csv,
            compressed: true,
        };
        assert(entry_views(r@.push(entry)) =~= entry_views(r@).push(entry@));
        r.push(entry);
    }
    if pdf.len() > 0 {
        let entry = BundleEntry {
            name: "영수증모음.pdf".to_owned(),
            source: Source::Pdf,
            compressed: true,
        };
        assert(entry_views(r@.push(entry)) =~= entry_views(r@).push(entry@));
        r.push(entry);
    }
    assert(entry_views(r@) =~= entries_of(images@, extensions@, csv@, pdf@));
    r
}

/// Every entry that takes its data from an image names an image that is
/// there.
pub open spec fn sources_exist(entries: Seq<BundleEntry>, images: nat) -> bool {
    forall|k: int|
        0 <= k < entries.len() ==> ((#[trigger] entries[k]).source matches Source::Image(i) ==> i
            < images)
}

/// The data of an entry: the bytes of the image, the table or the document
/// that it names.
pub open spec fn data_of(
    source: Source,
    images: Seq<(String, Vec<u8>)>,
    csv: Seq<u8>,
    pdf: Seq<u8>,
) -> Seq<u8> {
    match source {
        Source::Image(i) => if i < images.len() {
            images[i as int].1@
        } else {
            Seq::empty()
        },
        Source::Csv => csv,
        Source::Pdf => pdf,
    }
}

/// What an archive of `entries` is given: for each entry, in their order,
/// its name, the data of its source, and whether they are compressed.
pub open spec fn contents_of(
    entries: Seq<EntryView>,
    images: Seq<(String, Vec<u8>)>,
    csv: Seq<u8>,
    pdf: Seq<u8>,
) -> Seq<EntryData> {
    entries.map_values(
        |e: EntryView|
            EntryData {
                name: e.name,
                data: data_of(e.source, images, csv, pdf),
                compressed: e.compressed,
            },
    )
}

/// `r` is what comes of writing an archive of `contents`. Where the bytes
/// came, they are those of an archive that was given exactly `contents`;
/// where closing failed, such an archive was given all of it and then
/// failed to close; and where an entry could not be opened or written, it
/// is one of `contents`.
pub open spec fn is_archive_of(r: Result<Vec<u8>, BundleError>, contents: Seq<EntryData>) -> bool {
    match r {
        Ok(bytes) => exists|archive: Archive|
            archive_entries(archive) == contents && #[trigger] closed_bytes(archive) == Some(
                bytes@,
            ),
        Err(BundleError::Finish) => exists|archive: Archive|
            archive_entries(archive) == contents && (#[trigger] closed_bytes(archive)).is_none(),
        Err(BundleError::Start(k)) => k < contents.len(),
        Err(BundleError::Write(k)) => k < contents.len(),
    }
}

/// Writes the entries into an archive, one after the other, each under its
/// name with the data of its source, and gives the bytes of the archive.
/// Where a step fails, the error says which.
pub fn write_archive(
    entries: &Vec<BundleEntry>,
    images: &Vec<(String, Vec<u8>)>,
    csv: &[u8],
    pdf: &[u8],
) -> (r: Result<Vec<u8>, BundleError>)
    requires
        sources_exist(entries@, images@.len()),
    ensures
        is_archive_of(r, contents_of(entry_views(entries@), images@, csv@, pdf@)),
        r matches Err(BundleError::Start(k)) ==> k < entries.len(),
        r matches Err(BundleError::Write(k)) ==> k < entries.len(),
{
    let ghost contents = contents_of(entry_views(entries@), images@, csv@, pdf@);
    let mut archive = archive_new();
    let mut k: usize = 0;
    assert(contents.subrange(0, 0) =~= Seq::<EntryData>::empty());
    while k < entries.len()
        invariant
            k <= entries.len(),
            sources_exist(entries@, images@.len()),
            contents == contents_of(entry_views(entries@), images@, csv@, pdf@),
            archive_entries(archive) == contents.subrange(0, k as int),
        decreases entries.len() - k,
    {
        let entry = &entries[k];
        let ghost before = archive_entries(archive);
        let started = if entry.compressed {
            archive_start_deflated(&mut archive, entry.name.as_str())
        } else {
            archive_start_stored(&mut archive, entry.name.as_str())
        };
        if started.is_err() {
            return Err(BundleError::Start(k));
        }
        let written = match entry.source {
            Source::Image(i) => archive_write(&mut archive, images[i].1.as_slice()),
            Source::Csv => archive_write(&mut archive, csv),
            Source::Pdf => archive_write(&mut archive, pdf),
        };
        if written.is_err() {
            return Err(BundleError::Write(k));
        }
        proof {
            let view = entry_views(entries@)[k as int];
            assert(view == entry@);
            let data = data_of(entry.source, images@, csv@, pdf@);
            let opened = EntryData {
                name: entry.name@,
                data: Seq::empty(),
                compressed: entry.compressed,
            };
            assert(before.push(opened).drop_last() =~= before);
            assert(Seq::<u8>::empty() + data =~= data);
            assert(archive_entries(archive) == before.push(contents[k as int]));
            assert(contents.subrange(0, k + 1) =~= before.push(contents[k as int]));
        }
        k += 1;
    }
    assert(contents.subrange(0, k as int) =~= contents);
    let ghost filled = archive;
    match archive_finish(archive) {
        Ok(bytes) => {
            assert(archive_entries(filled) == contents && closed_bytes(filled) == Some(bytes@));
            Ok(bytes)
        },
        Err(_) => {
            assert(archive_entries(filled) == contents && closed_bytes(filled).is_none());
            Err(BundleError::Finish)
        },
    }
}

/// `r` is what comes of writing the archive of the images, the table and
/// the document, whatever extension was told of each image's file name: for
/// some extensions, one for each image, it is what comes of writing the
/// entries that `bundle_entries` lists for them.
pub open spec fn is_bundle_of(
    r: Result<Vec<u8>, BundleError>,
    images: Seq<(String, Vec<u8>)>,
    csv: Seq<u8>,
    pdf: Seq<u8>,
) -> bool {
    exists|extensions: Seq<Option<String>>|
        extensions.len() == images.len() && is_archive_of(
            r,
            contents_of(#[trigger] entries_of(images, extensions, csv, pdf), images, csv, pdf),
        )
}

/// The archive of the images, each a file name and its bytes, the table and
/// the document: the entries that `bundle_entries` lists, each image under
/// the extension of its file name, written in their order.
pub fn receipt_bundle(images: &Vec<(String, Vec<u8>)>, csv: &[u8], pdf: &[u8]) -> (r: Result<
    Vec<u8>,
    BundleError,
>)
    ensures
        is_bundle_of(r, images@, csv@, pdf@),
        r matches Err(BundleError::Start(k)) ==> k < images.len() + 2,
        r matches Err(BundleError::Write(k)) ==> k < images.len() + 2,
{
    let mut extensions: Vec<Option<String>> = Vec::new();
    let mut i: usize = 0;
    while i < images.len()
        invariant
            i <= images.len(),
            extensions.len() == i,
        decreases images.len() - i,
    {
        extensions.push(path_extension(images[i].0.as_str()));
        i += 1;
    }
    let entries = bundle_entries(images, &extensions, csv, pdf);
    proof {
        lemma_entries_of(images@, extensions@, csv@, pdf@);
        assert forall|k: int| 0 <= k < entries@.len() implies ((#[trigger] entries@[k]).source
            matches Source::Image(j) ==> j < images@.len()) by {
            assert(entry_views(entries@)[k] == entries@[k]@);
        }
    }
    let r = write_archive(&entries, images, csv, pdf);
    assert(is_archive_of(
        r,
        contents_of(entries_of(images@, extensions@, csv@, pdf@), images@, csv@, pdf@),
    ));
    r
}

/// The entries for the images are no more than the images, and each names
/// an image that is there.
pub proof fn lemma_image_entries(
    images: Seq<(String, Vec<u8>)>,
    extensions: Seq<Option<String>>,
    i: int,
)
    requires
        0 <= i <= images.len(),
        images.len() <= usize::MAX,
    ensures
        image_entries_from(images, extensions, i).len() <= images.len() - i,
        forall|k: int|
            0 <= k < image_entries_from(images, extensions, i).len() ==> ((
            #[trigger] image_entries_from(images, extensions, i)[k]).source matches Source::Image(j)
                && j < images.len()),
    decreases images.len() - i,
{
    if i < images.len() && i < extensions.len() {
        lemma_image_entries(images, extensions, i + 1);
    }
}

/// The archive has at most two entries more than there are images, and
/// each entry of an image names an image that is there.
pub proof fn lemma_entries_of(
    images: Seq<(String, Vec<u8>)>,
    extensions: Seq<Option<String>>,
    csv: Seq<u8>,
    pdf: Seq<u8>,
)
    requires
        images.len() <= usize::MAX,
    ensures
        entries_of(images, extensions, csv, pdf).len() <= images.len() + 2,
        forall|k: int|
            0 <= k < entries_of(images, extensions, csv, pdf).len() ==> ((#[trigger] entries_of(
                images,
                extensions,
                csv,
                pdf,
            )[k]).source matches Source::Image(j) ==> j < images.len()),
{
    lemma_image_entries(images, extensions, 0);
}

} // verus!
