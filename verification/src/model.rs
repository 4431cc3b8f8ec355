//! The records that parsing produces and encoding consumes.

use crate::datetime::{render, DateTime, LAYOUT_SHORT};
use crate::decimal::{digits_of, push_decimal};
use crate::sorting::{is_stable_sort, sort_records};
use crate::text::{append_str, string_of};
use vstd::prelude::*;

verus! {

/// The receipt layouts that the parser knows.
#[derive(Clone, Copy, Debug, PartialEq, Eq, Structural)]
pub enum CardFormat {
    HanaCard,
    NaverHyundaiCard,
    CardAppScreenshot,
    Unknown,
}

impl CardFormat {
    /// The name under which the layout is shown.
    pub open spec fn spec_name(&self) -> Seq<char> {
        match self {
            CardFormat::HanaCard => "하나카드"@,
            CardFormat::NaverHyundaiCard => "네이버현대카드"@,
            CardFormat::CardAppScreenshot => "카드앱"@,
            CardFormat::Unknown => "기타"@,
        }
    }

    /// The name under which the layout is shown.
    pub fn name(&self) -> (r: String)
        ensures
            r@ == self.spec_name(),
    {
        match self {
            CardFormat::HanaCard => "하나카드".to_owned(),
            CardFormat::NaverHyundaiCard => "네이버현대카드".to_owned(),
            CardFormat::CardAppScreenshot => "카드앱".to_owned(),
            CardFormat::Unknown => "기타".to_owned(),
        }
    }
}

/// One payment, as read from one receipt.
#[derive(Clone, Debug)]
pub struct CardTransaction {
    pub filename: String,
    pub datetime: DateTime,
    pub merchant: String,
    pub amount: u64,
    pub raw_ocr_text: String,
    pub card_format: CardFormat,
    /// The expense type that the user has confirmed, such as "Taxi".
    pub expense_type: Option<String>,
    pub image_bytes: Vec<u8>,
}

impl CardTransaction {
    /// The date of the record is a day that exists and a time of day.
    pub open spec fn wf(&self) -> bool {
        self.datetime.wf()
    }
}

/// An image that waits to be read.
#[derive(Clone, Debug)]
pub struct PendingImage {
    pub filename: String,
    pub bytes: Vec<u8>,
}

/// The column by which the table is sorted.
#[derive(Clone, Copy, Debug, PartialEq, Eq, Structural)]
pub enum SortColumn {
    Index,
    DateTime,
    Merchant,
    Amount,
}

#[derive(Clone, Copy, Debug, PartialEq, Eq, Structural)]
pub enum SortDirection {
    Ascending,
    Descending,
}

/// The records read so far, the images that wait, and how the table shows
/// them.
pub struct AppState {
    pub transactions: Vec<CardTransaction>,
    pub pending_images: Vec<PendingImage>,
    pub sort_column: SortColumn,
    pub sort_direction: SortDirection,
    pub ocr_in_progress: bool,
    pub status_message: String,
    pub error_messages: Vec<String>,
    pub selected_index: Option<usize>,
}

/// The sum of the amounts of `records`.
pub open spec fn sum_of_amounts(records: Seq<CardTransaction>) -> nat
    decreases records.len(),
{
    if records.len() == 0 {
        0
    } else {
        sum_of_amounts(records.drop_last()) + records.last().amount as nat
    }
}

/// What the merchant column of the export holds for a record: the expense
/// type where the record has one, else the merchant.
pub open spec fn merchant_column(record: CardTransaction) -> Seq<char> {
    match record.expense_type {
        Some(t) => t@,
        None => record.merchant@,
    }
}

/// The row of a record in the export: file name, date, merchant column and
/// amount, with commas between them.
pub open spec fn csv_row(record: CardTransaction) -> Seq<char> {
    record.filename@ + seq![','] + record.datetime.text(LAYOUT_SHORT@) + seq![',']
        + merchant_column(record) + seq![','] + digits_of(record.amount as nat) + seq!['\n']
}

/// The rows of `records`, one after the other.
pub open spec fn csv_rows(records: Seq<CardTransaction>) -> Seq<char>
    decreases records.len(),
{
    if records.len() == 0 {
        Seq::empty()
    } else {
        csv_rows(records.drop_last()) + csv_row(records.last())
    }
}

/// The export of `records`: a byte order mark, the header line, the rows.
pub open spec fn csv_of(records: Seq<CardTransaction>) -> Seq<char> {
    seq!['\u{FEFF}'] + "파일명,날짜,가맹점,금액\n"@ + csv_rows(records)
}

/// The sum of the amounts of a start of `records` is at most that of all.
pub proof fn lemma_sum_of_amounts_prefix(records: Seq<CardTransaction>, k: int)
    requires
        0 <= k <= records.len(),
    ensures
        sum_of_amounts(records.subrange(0, k)) <= sum_of_amounts(records),
    decreases records.len() - k,
{
    if k < records.len() {
        lemma_sum_of_amounts_prefix(records, k + 1);
        assert(records.subrange(0, k + 1).drop_last() == records.subrange(0, k));
    } else {
        assert(records.subrange(0, k) == records);
    }
}

impl AppState {
    /// Every record of the state has a date that exists.
    pub open spec fn wf(&self) -> bool {
        forall|i: int| 0 <= i < self.transactions@.len() ==> (#[trigger] self.transactions@[i]).wf()
    }

    /// The state at the start: nothing read, nothing waiting, the table by
    /// date from the earliest on.
    pub fn new() -> (r: AppState)
        ensures
            r.transactions@.len() == 0,
            r.pending_images@.len() == 0,
            r.sort_column == SortColumn::DateTime,
            r.sort_direction == SortDirection::Ascending,
            !r.ocr_in_progress,
            r.status_message@ == "이미지를 업로드하세요"@,
            r.error_messages@.len() == 0,
            r.selected_index.is_none(),
            r.wf(),
    {
        AppState {
            transactions: Vec::new(),
            pending_images: Vec::new(),
            sort_column: SortColumn::DateTime,
            sort_direction: SortDirection::Ascending,
            ocr_in_progress: false,
            status_message: "이미지를 업로드하세요".to_owned(),
            error_messages: Vec::new(),
            selected_index: None,
        }
    }

    /// The sum of the amounts of all records, where it is within `u64`.
    pub fn checked_total_amount(&self) -> (r: Option<u64>)
        ensures
            match r {
                Some(v) => v == sum_of_amounts(self.transactions@),
                None => sum_of_amounts(self.transactions@) > u64::MAX,
            },
    {
        let mut total: u64 = 0;
        let mut i: usize = 0;
        while i < self.transactions.len()
            invariant
                i <= self.transactions.len(),
                total == sum_of_amounts(self.transactions@.subrange(0, i as int)),
            decreases self.transactions.len() - i,
        {
            let amount = self.transactions[i].amount;
            proof {
                let next = self.transactions@.subrange(0, i + 1);
                assert(next.drop_last() == self.transactions@.subrange(0, i as int));
                assert(next.last() == self.transactions@[i as int]);
                lemma_sum_of_amounts_prefix(self.transactions@, i + 1);
            }
            if amount > u64::MAX - total {
                return None;
            }
            total = total + amount;
            i += 1;
        }
        assert(self.transactions@.subrange(0, self.transactions.len() as int)
            == self.transactions@);
        Some(total)
    }

    /// The sum of the amounts of all records.
    pub fn total_amount(&self) -> (r: u64)
        requires
            sum_of_amounts(self.transactions@) <= u64::MAX,
        ensures
            r == sum_of_amounts(self.transactions@),
    {
        match self.checked_total_amount() {
            Some(v) => v,
            None => 0,
        }
    }

    /// The export of the records as comma-separated text.
    pub fn to_csv(&self) -> (r: String)
        requires
            self.wf(),
        ensures
            r@ == csv_of(self.transactions@),
    {
        let mut out: Vec<char> = Vec::new();
        out.push('\u{FEFF}');
        append_str(&mut out, "파일명,날짜,가맹점,금액\n");
        let ghost head = out@;
        let mut i: usize = 0;
        while i < self.transactions.len()
            invariant
                i <= self.transactions.len(),
                self.wf(),
                out@ == head + csv_rows(self.transactions@.subrange(0, i as int)),
            decreases self.transactions.len() - i,
        {
            let t = &self.transactions[i];
            let ghost before = out@;
            append_str(&mut out, t.filename.as_str());
            out.push(',');
            let date = render(&t.datetime, LAYOUT_SHORT);
            append_str(&mut out, date.as_str());
            out.push(',');
            match &t.expense_type {
                Some(e) => append_str(&mut out, e.as_str()),
                None => append_str(&mut out, t.merchant.as_str()),
            }
            out.push(',');
            push_decimal(&mut out, t.amount);
            out.push('\n');
            proof {
                let next = self.transactions@.subrange(0, i + 1);
                assert(next.drop_last() == self.transactions@.subrange(0, i as int));
                assert(next.last() == *t);
                assert(out@ =~= before + csv_row(*t));
                assert(head + csv_rows(next) =~= before + csv_row(*t));
            }
            i += 1;
        }
        assert(self.transactions@.subrange(0, self.transactions.len() as int)
            == self.transactions@);
        assert(head =~= seq!['\u{FEFF}'] + "파일명,날짜,가맹점,금액\n"@);
        string_of(&out)
    }
}

/// The other direction.
pub open spec fn reversed(direction: SortDirection) -> SortDirection {
    match direction {
        SortDirection::Ascending => SortDirection::Descending,
        SortDirection::Descending => SortDirection::Ascending,
    }
}

impl AppState {
    /// `self` is `before` but for its records.
    pub open spec fn same_but_records(&self, before: AppState) -> bool {
        &&& self.pending_images == before.pending_images
        &&& self.sort_column == before.sort_column
        &&& self.sort_direction == before.sort_direction
        &&& self.ocr_in_progress == before.ocr_in_progress
        &&& self.status_message == before.status_message
        &&& self.error_messages == before.error_messages
        &&& self.selected_index == before.selected_index
    }

    /// The records are the records of `before`, put in the order that the
    /// column and direction of `self` ask for.
    pub open spec fn is_sorted_from(&self, before: Seq<CardTransaction>) -> bool {
        if self.sort_column == SortColumn::Index {
            self.transactions@ == before
        } else {
            exists|from: Seq<int>|
                is_stable_sort(
                    before,
                    self.transactions@,
                    from,
                    self.sort_column,
                    self.sort_direction,
                )
        }
    }

    /// Puts the records in the order of the chosen column and direction.
    /// Records that the column does not tell apart keep their order, and by
    /// the column of the indices nothing moves.
    pub fn sort_transactions(&mut self)
        ensures
            final(self).same_but_records(*old(self)),
            final(self).is_sorted_from(old(self).transactions@),
            old(self).wf() ==> final(self).wf(),
    {
        let column = self.sort_column;
        let direction = self.sort_direction;
        if column != SortColumn::Index {
            sort_records(&mut self.transactions, column, direction);
            proof {
                let from = choose|from: Seq<int>|
                    is_stable_sort(
                        old(self).transactions@,
                        self.transactions@,
                        from,
                        column,
                        direction,
                    );
                if old(self).wf() {
                    assert forall|i: int| 0 <= i < self.transactions@.len() implies (
                    #[trigger] self.transactions@[i]).wf() by {
                        assert(self.transactions@[i] == old(self).transactions@[from[i]]);
                    }
                }
            }
        }
    }

    /// The mark beside the header of `column`: an arrow up or down on the
    /// column that orders the table, nothing on the others.
    pub fn sort_arrow(&self, column: SortColumn) -> (r: &'static str)
        ensures
            r@ == (if self.sort_column != column {
                ""@
            } else if self.sort_direction == SortDirection::Ascending {
                " ▲"@
            } else {
                " ▼"@
            }),
    {
        if self.sort_column != column {
            ""
        } else {
            match self.sort_direction {
                SortDirection::Ascending => " ▲",
                SortDirection::Descending => " ▼",
            }
        }
    }

    /// A click on the header of `column`: on the column that orders the
    /// table the direction turns round, on another the table goes by that
    /// column, upwards. Then the records are put in order.
    pub fn toggle_sort(&mut self, column: SortColumn)
        ensures
            final(self).sort_column == column,
            final(self).sort_direction == (if old(self).sort_column == column {
                reversed(old(self).sort_direction)
            } else {
                SortDirection::Ascending
            }),
            final(self).pending_images == old(self).pending_images,
            final(self).ocr_in_progress == old(self).ocr_in_progress,
            final(self).status_message == old(self).status_message,
            final(self).error_messages == old(self).error_messages,
            final(self).selected_index == old(self).selected_index,
            final(self).is_sorted_from(old(self).transactions@),
            old(self).wf() ==> final(self).wf(),
    {
        if self.sort_column == column {
            self.sort_direction = match self.sort_direction {
                SortDirection::Ascending => SortDirection::Descending,
                SortDirection::Descending => SortDirection::Ascending,
            };
        } else {
            self.sort_column = column;
            self.sort_direction = SortDirection::Ascending;
        }
        self.sort_transactions();
    }
}

} // verus!
