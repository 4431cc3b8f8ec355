//! Editing one record by hand: the fields as text, and what becomes of the
//! record when they are applied.

use crate::datetime::{parse, parsed, render, LAYOUT_DOTTED};
use crate::decimal::{digits_of, grouped, parse_unsigned, parsed_unsigned};
use crate::model::{AppState, CardTransaction};
use crate::table::format_amount;
use crate::text::to_chars;
use vstd::prelude::*;

verus! {

/// The fields of a record as the edit panel shows them.
pub struct EditForm {
    pub merchant: String,
    pub amount: String,
    pub datetime: String,
    pub expense_type: String,
}

/// `s` without its commas and spaces.
pub open spec fn without_separators(s: Seq<char>) -> Seq<char>
    decreases s.len(),
{
    if s.len() == 0 {
        s
    } else if s.last() == ',' || s.last() == ' ' {
        without_separators(s.drop_last())
    } else {
        without_separators(s.drop_last()).push(s.last())
    }
}

/// The amount that the text of the amount field stands for: commas and
/// spaces apart, a decimal number within `u64`, which a plus sign may
/// precede.
pub open spec fn edited_amount(s: Seq<char>) -> Option<u64> {
    match parsed_unsigned(without_separators(s), u64::MAX as nat) {
        Some(v) => Some(v as u64),
        None => None,
    }
}

/// The record that `form` makes of `record`: merchant and expense type are
/// taken as they stand, an empty expense type for none; amount and date are
/// taken where the text stands for one, and kept where it does not.
pub open spec fn edited(record: CardTransaction, form: EditForm, new: CardTransaction) -> bool {
    &&& new.merchant@ == form.merchant@
    &&& new.amount == match edited_amount(form.amount@) {
        Some(v) => v,
        None => record.amount,
    }
    &&& new.datetime == match parsed(form.datetime@, LAYOUT_DOTTED@) {
        Some(d) => d,
        None => record.datetime,
    }
    &&& match new.expense_type {
        Some(t) => form.expense_type@.len() > 0 && t@ == form.expense_type@,
        None => form.expense_type@.len() == 0,
    }
    &&& new.filename == record.filename
    &&& new.raw_ocr_text == record.raw_ocr_text
    &&& new.card_format == record.card_format
    &&& new.image_bytes == record.image_bytes
}

/// The amount that the text `s` of the amount field stands for.
pub fn parse_edited_amount(s: &str) -> (r: Option<u64>)
    ensures
        r == edited_amount(s@),
{
    let chars = to_chars(s);
    let mut cleaned: Vec<char> = Vec::new();
    let mut i: usize = 0;
    while i < chars.len()
        invariant
            i <= chars.len(),
            cleaned@ == without_separators(chars@.subrange(0, i as int)),
        decreases chars.len() - i,
    {
        let c = chars[i];
        proof {
            let next = chars@.subrange(0, i + 1);
            assert(next.drop_last() == chars@.subrange(0, i as int));
            assert(next.last() == c);
        }
        if !(c == ',' || c == ' ') {
            cleaned.push(c);
        }
        i += 1;
    }
    assert(chars@.subrange(0, chars.len() as int) == chars@);
    parse_unsigned(&cleaned, u64::MAX)
}

impl EditForm {
    /// The fields of `record` as text: the amount with thousands
    /// separators, the date to the minute, no expense type as empty.
    pub fn load(record: &CardTransaction) -> (r: EditForm)
        requires
            record.wf(),
        ensures
            r.merchant@ == record.merchant@,
            r.amount@ == grouped(digits_of(record.amount as nat)),
            r.datetime@ == record.datetime.text(LAYOUT_DOTTED@),
            r.expense_type@ == (match record.expense_type {
                Some(t) => t@,
                None => Seq::empty(),
            }),
    {
        EditForm {
            merchant: record.merchant.clone(),
            amount: format_amount(record.amount),
            datetime: render(&record.datetime, LAYOUT_DOTTED),
            expense_type: match &record.expense_type {
                Some(t) => t.clone(),
                None => String::new(),
            },
        }
    }
}

impl AppState {
    /// Forgets a selection that points at no record.
    pub fn validate_selection(&mut self)
        ensures
            final(self).selected_index == (match old(self).selected_index {
                Some(i) if i < old(self).transactions@.len() => Some(i),
                _ => None,
            }),
            final(self).transactions == old(self).transactions,
            final(self).pending_images == old(self).pending_images,
            final(self).sort_column == old(self).sort_column,
            final(self).sort_direction == old(self).sort_direction,
            final(self).ocr_in_progress == old(self).ocr_in_progress,
            final(self).status_message == old(self).status_message,
            final(self).error_messages == old(self).error_messages,
    {
        match self.selected_index {
            Some(i) => {
                if i >= self.transactions.len() {
                    self.selected_index = None;
                }
            },
            None => {},
        }
    }

    /// Applies the fields of `form` to the record at `idx`; nothing happens
    /// where there is no such record.
    pub fn apply_edits(&mut self, idx: usize, form: &EditForm)
        ensures
            final(self).transactions@.len() == old(self).transactions@.len(),
            forall|k: int|
                0 <= k < old(self).transactions@.len() && k != idx ==> final(self).transactions@[k]
                    == old(self).transactions@[k],
            idx < old(self).transactions@.len() ==> edited(
                old(self).transactions@[idx as int],
                *form,
                final(self).transactions@[idx as int],
            ),
            old(self).wf() ==> final(self).wf(),
            final(self).pending_images == old(self).pending_images,
            final(self).sort_column == old(self).sort_column,
            final(self).sort_direction == old(self).sort_direction,
            final(self).ocr_in_progress == old(self).ocr_in_progress,
            final(self).status_message == old(self).status_message,
            final(self).error_messages == old(self).error_messages,
            final(self).selected_index == old(self).selected_index,
    {
        if idx >= self.transactions.len() {
            return ;
        }
        let mut record = self.transactions.remove(idx);
        let ghost before = record;
        record.merchant = form.merchant.clone();
        match parse_edited_amount(form.amount.as_str()) {
            Some(v) => {
                record.amount = v;
            },
            None => {},
        }
        match parse(form.datetime.as_str(), LAYOUT_DOTTED) {
            Some(d) => {
                record.datetime = d;
            },
            None => {},
        }
        record.expense_type = if form.expense_type.as_str().unicode_len() == 0 {
            None
        } else {
            Some(form.expense_type.clone())
        };
        assert(edited(before, *form, record));
        self.transactions.insert(idx, record);
        proof {
            if old(self).wf() {
                assert forall|k: int| 0 <= k < self.transactions@.len() implies (
                #[trigger] self.transactions@[k]).wf() by {
                    if k != idx {
                        assert(self.transactions@[k] == old(self).transactions@[k]);
                    }
                }
            }
        }
    }
}

} // verus!
