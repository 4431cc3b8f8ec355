use card_receipt::datetime::DateTime;
use card_receipt::edit::{parse_edited_amount, EditForm};
use card_receipt::model::{AppState, CardFormat, CardTransaction};

fn record() -> CardTransaction {
    CardTransaction {
        filename: "a.png".to_string(),
        datetime: DateTime::new(2026, 1, 22, 16, 35, 39).unwrap(),
        merchant: "가게".to_string(),
        amount: 27600,
        raw_ocr_text: "raw".to_string(),
        card_format: CardFormat::HanaCard,
        expense_type: None,
        image_bytes: vec![9],
    }
}

fn form(merchant: &str, amount: &str, datetime: &str, expense_type: &str) -> EditForm {
    EditForm {
        merchant: merchant.to_string(),
        amount: amount.to_string(),
        datetime: datetime.to_string(),
        expense_type: expense_type.to_string(),
    }
}

#[test]
fn fields_of_a_record_as_text() {
    let f = EditForm::load(&record());
    assert_eq!(f.merchant, "가게");
    assert_eq!(f.amount, "27,600");
    assert_eq!(f.datetime, "2026.01.22 16:35");
    assert_eq!(f.expense_type, "");
    let mut r = record();
    r.expense_type = Some("Taxi".to_string());
    assert_eq!(EditForm::load(&r).expense_type, "Taxi");
}

#[test]
fn amount_field() {
    assert_eq!(parse_edited_amount("27,600"), Some(27600));
    assert_eq!(parse_edited_amount(" 1 000 "), Some(1000));
    assert_eq!(parse_edited_amount("+5"), Some(5));
    assert_eq!(parse_edited_amount(""), None);
    assert_eq!(parse_edited_amount(", ,"), None);
    assert_eq!(parse_edited_amount("12원"), None);
    assert_eq!(parse_edited_amount("-5"), None);
    assert_eq!(parse_edited_amount("18,446,744,073,709,551,616"), None);
}

#[test]
fn edits_are_applied() {
    let mut state = AppState::new();
    state.transactions.push(record());
    state.transactions.push(record());
    state.apply_edits(1, &form("새 가게", "1,500", "2025.12.31 23:59", "Taxi"));
    let r = &state.transactions[1];
    assert_eq!(r.merchant, "새 가게");
    assert_eq!(r.amount, 1500);
    assert_eq!(r.datetime, DateTime::new(2025, 12, 31, 23, 59, 0).unwrap());
    assert_eq!(r.expense_type, Some("Taxi".to_string()));
    assert_eq!(r.filename, "a.png");
    assert_eq!(r.raw_ocr_text, "raw");
    assert_eq!(r.image_bytes, vec![9]);
    assert_eq!(state.transactions[0].merchant, "가게");
    assert_eq!(state.transactions[0].amount, 27600);
}

#[test]
fn fields_that_stand_for_nothing_keep_the_old_value() {
    let mut state = AppState::new();
    let mut with_type = record();
    with_type.expense_type = Some("Gas".to_string());
    state.transactions.push(with_type);
    state.apply_edits(0, &form("", "many", "2026.02.30 10:00", ""));
    let r = &state.transactions[0];
    assert_eq!(r.merchant, "");
    assert_eq!(r.amount, 27600);
    assert_eq!(r.datetime, DateTime::new(2026, 1, 22, 16, 35, 39).unwrap());
    assert_eq!(r.expense_type, None);
}

#[test]
fn edits_of_no_record_change_nothing() {
    let mut state = AppState::new();
    state.transactions.push(record());
    state.apply_edits(1, &form("x", "1", "2025.12.31 23:59", "y"));
    assert_eq!(state.transactions.len(), 1);
    assert_eq!(state.transactions[0].merchant, "가게");
}

#[test]
fn loaded_form_applied_again_keeps_the_record_to_the_minute() {
    let mut state = AppState::new();
    state.transactions.push(record());
    let f = EditForm::load(&state.transactions[0]);
    state.apply_edits(0, &f);
    let r = &state.transactions[0];
    assert_eq!(r.amount, 27600);
    assert_eq!(r.datetime, DateTime::new(2026, 1, 22, 16, 35, 0).unwrap());
}

#[test]
fn selection_of_no_record_is_forgotten() {
    let mut state = AppState::new();
    state.transactions.push(record());
    state.selected_index = Some(0);
    state.validate_selection();
    assert_eq!(state.selected_index, Some(0));
    state.selected_index = Some(1);
    state.validate_selection();
    assert_eq!(state.selected_index, None);
    state.validate_selection();
    assert_eq!(state.selected_index, None);
}
