//! The table of records as text: what each cell of a row shows, and the
//! line under the table.

use crate::datetime::{render, LAYOUT_SHORT};
use crate::decimal::{decimal, digits_of, group_thousands, grouped, push_decimal};
use crate::model::{sum_of_amounts, AppState, CardTransaction};
use crate::text::{append_chars, append_str, string_of};
use vstd::prelude::*;

verus! {

/// `amount` in decimal with thousands separators: 45000 gives `45,000`.
pub fn format_amount(amount: u64) -> (r: String)
    ensures
        r@ == grouped(digits_of(amount as nat)),
{
    let digits = decimal(amount);
    let with_commas = group_thousands(&digits);
    string_of(&with_commas)
}

/// The cells of one row.
pub struct TableRow {
    /// The number of the row, counted from 1.
    pub number: String,
    /// Month, day and time of the payment.
    pub date: String,
    pub merchant: String,
    /// The expense type; none where the record has none.
    pub expense_type: Option<String>,
    /// The amount with thousands separators.
    pub amount: String,
}

/// The cells of the row for the record at `index`.
pub fn table_row(index: usize, record: &CardTransaction) -> (r: TableRow)
    requires
        record.wf(),
        index < usize::MAX,
    ensures
        r.number@ == digits_of((index + 1) as nat),
        r.date@ == record.datetime.text(LAYOUT_SHORT@),
        r.merchant@ == record.merchant@,
        r.expense_type == record.expense_type,
        r.amount@ == grouped(digits_of(record.amount as nat)),
{
    let number = decimal((index + 1) as u64);
    TableRow {
        number: string_of(&number),
        date: render(&record.datetime, LAYOUT_SHORT),
        merchant: record.merchant.clone(),
        expense_type: match &record.expense_type {
            Some(t) => Some(t.clone()),
            None => None,
        },
        amount: format_amount(record.amount),
    }
}

/// The line under the table that counts the records.
pub open spec fn count_text(records: nat) -> Seq<char> {
    "총 "@ + digits_of(records) + "건"@
}

/// The line under the table that gives the sum of the amounts.
pub open spec fn total_text(total: nat) -> Seq<char> {
    "합계: "@ + grouped(digits_of(total)) + "원"@
}

/// The two texts under the table: how many records there are, and the sum
/// of their amounts.
pub fn table_footer(state: &AppState) -> (r: (String, String))
    requires
        sum_of_amounts(state.transactions@) <= u64::MAX,
    ensures
        r.0@ == count_text(state.transactions@.len()),
        r.1@ == total_text(sum_of_amounts(state.transactions@)),
{
    let mut count: Vec<char> = Vec::new();
    append_str(&mut count, "총 ");
    push_decimal(&mut count, state.transactions.len() as u64);
    append_str(&mut count, "건");
    assert(count@ =~= count_text(state.transactions@.len()));
    let mut total: Vec<char> = Vec::new();
    append_str(&mut total, "합계: ");
    let digits = decimal(state.total_amount());
    append_chars(&mut total, &group_thousands(&digits));
    append_str(&mut total, "원");
    assert(total@ =~= total_text(sum_of_amounts(state.transactions@)));
    (string_of(&count), string_of(&total))
}

} // verus!
