//! Taking in what recognition hands back: for each image a record or a
//! failure, and the state of the table after them.

use crate::decimal::{digits_of, push_decimal};
use crate::model::{AppState, CardTransaction, PendingImage, SortColumn, SortDirection};
use crate::parser::{extracted, format_of, parse_receipt};
use crate::text::{append_str, matches_at, occurs_at, string_of, to_chars};
use vstd::prelude::*;

verus! {

/// `s` in small letters, as Unicode maps each of its characters.
pub uninterp spec fn lowercased(s: Seq<char>) -> Seq<char>;

/// `str::to_lowercase`: the text in small letters. The contract names the
/// result; it claims only that the result depends on the text alone.
#[verifier::external_body]
fn lowercase(s: &str) -> (r: String)
    ensures
        r@ == lowercased(s@),
{
    s.to_lowercase()
}

/// `t` ends with `suffix`.
pub open spec fn ends_with(t: Seq<char>, suffix: Seq<char>) -> bool {
    occurs_at(t, suffix, t.len() - suffix.len())
}

/// A file name in small letters that ends as the name of an image does.
pub open spec fn has_image_extension(t: Seq<char>) -> bool {
    ends_with(t, ".jpg"@) || ends_with(t, ".jpeg"@) || ends_with(t, ".png"@)
}

/// Whether `t` ends with `suffix`.
pub fn has_suffix(t: &Vec<char>, suffix: &str) -> (r: bool)
    ensures
        r == ends_with(t@, suffix@),
{
    let p = to_chars(suffix);
    if p.len() > t.len() {
        false
    } else {
        matches_at(t, &p, t.len() - p.len())
    }
}

/// Whether the file `name` is an image that can be read: its name, in small
/// letters, ends with `.jpg`, `.jpeg` or `.png`.
pub fn is_image_file(name: &str) -> (r: bool)
    ensures
        r == has_image_extension(lowercased(name@)),
{
    let lower = to_chars(lowercase(name).as_str());
    has_suffix(&lower, ".jpg") || has_suffix(&lower, ".jpeg") || has_suffix(&lower, ".png")
}

/// What came of one image: its record, or its file name and why there is
/// none.
pub type Outcome = Result<CardTransaction, (String, String)>;

/// The outcome for the image `bytes` of the file `filename`, given what
/// recognition made of it: the text, or why there is none. A text is read
/// as a receipt, and the record gets the image.
pub fn ocr_outcome(filename: &str, bytes: Vec<u8>, recognized: Result<String, String>) -> (r:
    Outcome)
    ensures
        match r {
            Ok(t) => {
                &&& recognized matches Ok(text)
                &&& extracted(text@, format_of(text@)).is_ok()
                &&& extracted(text@, format_of(text@)).unwrap() == (
                    t.datetime,
                    t.merchant@,
                    t.amount,
                )
                &&& t.filename@ == filename@
                &&& t.raw_ocr_text@ == text@
                &&& t.card_format == format_of(text@)
                &&& t.expense_type.is_none()
                &&& t.image_bytes == bytes
                &&& t.wf()
            },
            Err((name, why)) => {
                &&& name@ == filename@
                &&& match recognized {
                    Ok(text) => extracted(text@, format_of(text@)) matches Err(e) && why@
                        == "파싱 실패: "@ + e.spec_message(),
                    Err(e) => why@ == "OCR 실패: "@ + e@,
                }
            },
        },
{
    let mut why: Vec<char> = Vec::new();
    match recognized {
        Ok(text) => match parse_receipt(filename, text.as_str()) {
            Ok(mut record) => {
                record.image_bytes = bytes;
                return Ok(record);
            },
            Err(e) => {
                append_str(&mut why, "파싱 실패: ");
                append_str(&mut why, e.message().as_str());
                assert(why@ =~= "파싱 실패: "@ + e.spec_message());
            },
        },
        Err(e) => {
            append_str(&mut why, "OCR 실패: ");
            append_str(&mut why, e.as_str());
            assert(why@ =~= "OCR 실패: "@ + e@);
        },
    }
    Err((filename.to_owned(), string_of(&why)))
}

/// The records among `outcomes`, in their order.
pub open spec fn records_of(outcomes: Seq<Outcome>) -> Seq<CardTransaction>
    decreases outcomes.len(),
{
    if outcomes.len() == 0 {
        Seq::empty()
    } else {
        match outcomes.last() {
            Ok(t) => records_of(outcomes.drop_last()).push(t),
            Err(_) => records_of(outcomes.drop_last()),
        }
    }
}

/// The failures among `outcomes` in words, in their order: for each the
/// file name, a colon, and why.
pub open spec fn failures_of(outcomes: Seq<Outcome>) -> Seq<Seq<char>>
    decreases outcomes.len(),
{
    if outcomes.len() == 0 {
        Seq::empty()
    } else {
        match outcomes.last() {
            Ok(_) => failures_of(outcomes.drop_last()),
            Err((name, why)) => failures_of(outcomes.drop_last()).push(
                name@ + seq![':', ' '] + why@,
            ),
        }
    }
}

/// What each text of `v` holds.
pub open spec fn string_views(v: Seq<String>) -> Seq<Seq<char>> {
    v.map_values(|s: String| s@)
}

/// The images that `files`, each a name and its bytes, become.
pub open spec fn images_of(files: Seq<(String, Vec<u8>)>) -> Seq<PendingImage> {
    files.map_values(|f: (String, Vec<u8>)| PendingImage { filename: f.0, bytes: f.1 })
}

/// The status line while `remaining` images are still being read.
pub open spec fn progress_text(remaining: nat) -> Seq<char> {
    "OCR 처리 중... ("@ + digits_of(remaining) + "개 남음)"@
}

/// The status line once all images are read: how many records there are,
/// and how many failures where there are any.
pub open spec fn done_text(records: nat, failures: nat) -> Seq<char> {
    if failures == 0 {
        "완료! "@ + digits_of(records) + "개 거래 인식됨"@
    } else {
        "완료! "@ + digits_of(records) + "개 인식, "@ + digits_of(failures) + "개 실패"@
    }
}

impl AppState {
    /// Takes the outcomes in: each record joins the records, each failure
    /// the error messages.
    pub fn take_outcomes(&mut self, outcomes: Vec<Outcome>)
        ensures
            final(self).transactions@ == old(self).transactions@ + records_of(outcomes@),
            string_views(final(self).error_messages@) == string_views(old(self).error_messages@)
                + failures_of(outcomes@),
            final(self).pending_images == old(self).pending_images,
            final(self).sort_column == old(self).sort_column,
            final(self).sort_direction == old(self).sort_direction,
            final(self).ocr_in_progress == old(self).ocr_in_progress,
            final(self).status_message == old(self).status_message,
            final(self).selected_index == old(self).selected_index,
    {
        let mut rest = outcomes;
        let ghost all = outcomes@;
        let ghost mut done: int = 0;
        assert(all.subrange(0, 0) =~= Seq::<Outcome>::empty());
        assert(all.subrange(0, all.len() as int) =~= all);
        while rest.len() > 0
            invariant
                0 <= done <= all.len(),
                rest@ == all.subrange(done, all.len() as int),
                self.transactions@ == old(self).transactions@ + records_of(all.subrange(0, done)),
                string_views(self.error_messages@) == string_views(old(self).error_messages@)
                    + failures_of(all.subrange(0, done)),
                self.pending_images == old(self).pending_images,
                self.sort_column == old(self).sort_column,
                self.sort_direction == old(self).sort_direction,
                self.ocr_in_progress == old(self).ocr_in_progress,
                self.status_message == old(self).status_message,
                self.selected_index == old(self).selected_index,
            decreases rest.len(),
        {
            let ghost before_messages = self.error_messages@;
            let outcome = rest.remove(0);
            proof {
                assert(outcome == all[done]);
                let next = all.subrange(0, done + 1);
                assert(next.drop_last() =~= all.subrange(0, done));
                assert(next.last() == outcome);
                assert(rest@ =~= all.subrange(done + 1, all.len() as int));
            }
            match outcome {
                Ok(record) => {
                    self.transactions.push(record);
                    assert(self.transactions@ =~= old(self).transactions@ + records_of(
                        all.subrange(0, done + 1),
                    ));
                },
                Err((name, why)) => {
                    let mut line: Vec<char> = Vec::new();
                    append_str(&mut line, name.as_str());
                    line.push(':');
                    line.push(' ');
                    append_str(&mut line, why.as_str());
                    assert(line@ =~= name@ + seq![':', ' '] + why@);
                    self.error_messages.push(string_of(&line));
                    assert(string_views(self.error_messages@) =~= string_views(before_messages).push(
                        line@,
                    ));
                    assert(string_views(self.error_messages@) =~= string_views(
                        old(self).error_messages@,
                    ) + failures_of(all.subrange(0, done + 1)));
                },
            }
            proof {
                done = done + 1;
            }
        }
        assert(all.subrange(0, done) =~= all);
    }

    /// Takes in the files that were picked: each joins the images that
    /// wait.
    pub fn take_files(&mut self, files: Vec<(String, Vec<u8>)>)
        ensures
            final(self).pending_images@ == old(self).pending_images@ + images_of(files@),
            final(self).transactions == old(self).transactions,
            final(self).error_messages == old(self).error_messages,
            final(self).sort_column == old(self).sort_column,
            final(self).sort_direction == old(self).sort_direction,
            final(self).ocr_in_progress == old(self).ocr_in_progress,
            final(self).status_message == old(self).status_message,
            final(self).selected_index == old(self).selected_index,
    {
        let mut rest = files;
        let ghost all = files@;
        let ghost mut done: int = 0;
        assert(all.subrange(0, all.len() as int) =~= all);
        assert(images_of(all.subrange(0, 0)) =~= Seq::<PendingImage>::empty());
        assert(self.pending_images@ + Seq::<PendingImage>::empty() =~= self.pending_images@);
        while rest.len() > 0
            invariant
                0 <= done <= all.len(),
                rest@ == all.subrange(done, all.len() as int),
                self.pending_images@ == old(self).pending_images@ + images_of(
                    all.subrange(0, done),
                ),
                self.transactions == old(self).transactions,
                self.error_messages == old(self).error_messages,
                self.sort_column == old(self).sort_column,
                self.sort_direction == old(self).sort_direction,
                self.ocr_in_progress == old(self).ocr_in_progress,
                self.status_message == old(self).status_message,
                self.selected_index == old(self).selected_index,
            decreases rest.len(),
        {
            let (name, bytes) = rest.remove(0);
            proof {
                assert((name, bytes) == all[done]);
                assert(rest@ =~= all.subrange(done + 1, all.len() as int));
                assert(images_of(all.subrange(0, done + 1)) =~= images_of(
                    all.subrange(0, done),
                ).push(PendingImage { filename: name, bytes }));
            }
            self.pending_images.push(PendingImage { filename: name, bytes });
            assert(self.pending_images@ =~= old(self).pending_images@ + images_of(
                all.subrange(0, done + 1),
            ));
            proof {
                done = done + 1;
            }
        }
        assert(all.subrange(0, done) =~= all);
    }

    /// Brings the status up to date when `remaining` images are still being
    /// read. While there are some, the status says how many. When the last
    /// has just been read, the records are put in order by date, from the
    /// earliest on, and the status says how many records and failures there
    /// are. Else nothing changes.
    pub fn update_progress(&mut self, remaining: usize)
        ensures
            final(self).pending_images == old(self).pending_images,
            final(self).error_messages == old(self).error_messages,
            final(self).selected_index == old(self).selected_index,
            old(self).wf() ==> final(self).wf(),
            remaining > 0 ==> {
                &&& final(self).ocr_in_progress
                &&& final(self).status_message@ == progress_text(remaining as nat)
                &&& final(self).transactions == old(self).transactions
                &&& final(self).sort_column == old(self).sort_column
                &&& final(self).sort_direction == old(self).sort_direction
            },
            remaining == 0 && old(self).ocr_in_progress ==> {
                &&& !final(self).ocr_in_progress
                &&& final(self).sort_column == SortColumn::DateTime
                &&& final(self).sort_direction == SortDirection::Ascending
                &&& final(self).is_sorted_from(old(self).transactions@)
                &&& final(self).status_message@ == done_text(
                    old(self).transactions@.len(),
                    old(self).error_messages@.len(),
                )
            },
            remaining == 0 && !old(self).ocr_in_progress ==> *final(self) == *old(self),
    {
        if remaining > 0 {
            let mut line: Vec<char> = Vec::new();
            append_str(&mut line, "OCR 처리 중... (");
            push_decimal(&mut line, remaining as u64);
            append_str(&mut line, "개 남음)");
            assert(line@ =~= progress_text(remaining as nat));
            self.status_message = string_of(&line);
            self.ocr_in_progress = true;
        } else if self.ocr_in_progress {
            self.ocr_in_progress = false;
            self.sort_column = SortColumn::DateTime;
            self.sort_direction = SortDirection::Ascending;
            self.sort_transactions();
            let ghost sorted = *self;
            assert(sorted.is_sorted_from(old(self).transactions@));
            let records = self.transactions.len();
            let failures = self.error_messages.len();
            let mut line: Vec<char> = Vec::new();
            append_str(&mut line, "완료! ");
            push_decimal(&mut line, records as u64);
            if failures == 0 {
                append_str(&mut line, "개 거래 인식됨");
            } else {
                append_str(&mut line, "개 인식, ");
                push_decimal(&mut line, failures as u64);
                append_str(&mut line, "개 실패");
            }
            assert(line@ =~= done_text(records as nat, failures as nat));
            self.status_message = string_of(&line);
            assert(self.transactions == sorted.transactions);
        }
    }

    /// One round of taking in: the outcomes, the files that were picked,
    /// and the status for the images still being read.
    pub fn poll_results(
        &mut self,
        outcomes: Vec<Outcome>,
        files: Vec<(String, Vec<u8>)>,
        remaining: usize,
    )
        ensures
            final(self).pending_images@ == old(self).pending_images@ + images_of(files@),
            string_views(final(self).error_messages@) == string_views(old(self).error_messages@)
                + failures_of(outcomes@),
            final(self).selected_index == old(self).selected_index,
            remaining > 0 ==> {
                &&& final(self).ocr_in_progress
                &&& final(self).status_message@ == progress_text(remaining as nat)
                &&& final(self).transactions@ == old(self).transactions@ + records_of(outcomes@)
                &&& final(self).sort_column == old(self).sort_column
                &&& final(self).sort_direction == old(self).sort_direction
            },
            remaining == 0 && old(self).ocr_in_progress ==> {
                &&& !final(self).ocr_in_progress
                &&& final(self).sort_column == SortColumn::DateTime
                &&& final(self).sort_direction == SortDirection::Ascending
                &&& final(self).is_sorted_from(old(self).transactions@ + records_of(outcomes@))
                &&& final(self).status_message@ == done_text(
                    (old(self).transactions@ + records_of(outcomes@)).len(),
                    final(self).error_messages@.len(),
                )
            },
            remaining == 0 && !old(self).ocr_in_progress ==> {
                &&& !final(self).ocr_in_progress
                &&& final(self).transactions@ == old(self).transactions@ + records_of(outcomes@)
                &&& final(self).sort_column == old(self).sort_column
                &&& final(self).sort_direction == old(self).sort_direction
                &&& final(self).status_message == old(self).status_message
            },
    {
        self.take_outcomes(outcomes);
        self.take_files(files);
        self.update_progress(remaining);
    }
}

} // verus!
