use card_receipt::datetime::DateTime;
use card_receipt::model::{
    AppState, CardFormat, CardTransaction, PendingImage, SortColumn, SortDirection,
};
use card_receipt::sorting::{chars_less, comes_before, sort_records};

fn record(name: &str, day: u32, merchant: &str, amount: u64) -> CardTransaction {
    CardTransaction {
        filename: name.to_string(),
        datetime: DateTime::new(2026, 1, day, 9, 8, 7).unwrap(),
        merchant: merchant.to_string(),
        amount,
        raw_ocr_text: String::new(),
        card_format: CardFormat::Unknown,
        expense_type: None,
        image_bytes: Vec::new(),
    }
}

fn names(records: &Vec<CardTransaction>) -> Vec<String> {
    records.iter().map(|r| r.filename.clone()).collect()
}

fn sample() -> Vec<CardTransaction> {
    vec![
        record("a", 3, "나", 500),
        record("b", 1, "가", 500),
        record("c", 2, "다", 100),
        record("d", 1, "가", 900),
        record("e", 3, "A", 100),
    ]
}

#[test]
fn format_names() {
    assert_eq!(CardFormat::HanaCard.name(), "하나카드");
    assert_eq!(CardFormat::NaverHyundaiCard.name(), "네이버현대카드");
    assert_eq!(CardFormat::CardAppScreenshot.name(), "카드앱");
    assert_eq!(CardFormat::Unknown.name(), "기타");
}

#[test]
fn state_at_the_start() {
    let state = AppState::new();
    assert!(state.transactions.is_empty());
    assert!(state.pending_images.is_empty());
    assert_eq!(state.sort_column, SortColumn::DateTime);
    assert_eq!(state.sort_direction, SortDirection::Ascending);
    assert!(!state.ocr_in_progress);
    assert_eq!(state.status_message, "이미지를 업로드하세요");
    assert!(state.error_messages.is_empty());
    assert_eq!(state.selected_index, None);
}

#[test]
fn pending_image_holds_name_and_bytes() {
    let p = PendingImage { filename: "a.png".to_string(), bytes: vec![1, 2] };
    assert_eq!(p.clone().filename, "a.png");
    assert_eq!(p.bytes, vec![1, 2]);
}

#[test]
fn sum_of_amounts() {
    let mut state = AppState::new();
    assert_eq!(state.total_amount(), 0);
    assert_eq!(state.checked_total_amount(), Some(0));
    state.transactions = sample();
    assert_eq!(state.total_amount(), 2100);
    assert_eq!(state.checked_total_amount(), Some(2100));
    state.transactions.push(record("f", 1, "x", u64::MAX - 2100));
    assert_eq!(state.checked_total_amount(), Some(u64::MAX));
    state.transactions.push(record("g", 1, "x", 1));
    assert_eq!(state.checked_total_amount(), None);
}

#[test]
fn export_as_comma_separated_text() {
    let mut state = AppState::new();
    assert_eq!(state.to_csv(), "\u{FEFF}파일명,날짜,가맹점,금액\n");
    state.transactions.push(record("a.jpg", 22, "네이버파이낸셜(주)", 27600));
    let mut with_type = record("b.png", 5, "카카오모빌리티", 4800);
    with_type.expense_type = Some("Taxi".to_string());
    state.transactions.push(with_type);
    assert_eq!(
        state.to_csv(),
        "\u{FEFF}파일명,날짜,가맹점,금액\na.jpg,01.22 09:08,네이버파이낸셜(주),27600\nb.png,01.05 09:08,Taxi,4800\n"
    );
}

#[test]
fn sorting_by_date() {
    let mut state = AppState::new();
    state.transactions = sample();
    state.sort_transactions();
    assert_eq!(names(&state.transactions), ["b", "d", "c", "a", "e"]);
    state.sort_direction = SortDirection::Descending;
    state.sort_transactions();
    assert_eq!(names(&state.transactions), ["a", "e", "c", "b", "d"]);
}

#[test]
fn sorting_by_merchant_and_amount_keeps_ties_in_order() {
    let mut state = AppState::new();
    state.transactions = sample();
    state.sort_column = SortColumn::Merchant;
    state.sort_transactions();
    assert_eq!(names(&state.transactions), ["e", "b", "d", "a", "c"]);
    state.transactions = sample();
    state.sort_column = SortColumn::Amount;
    state.sort_transactions();
    assert_eq!(names(&state.transactions), ["c", "e", "a", "b", "d"]);
    state.transactions = sample();
    state.sort_direction = SortDirection::Descending;
    state.sort_transactions();
    assert_eq!(names(&state.transactions), ["d", "a", "b", "c", "e"]);
}

#[test]
fn sorting_by_index_moves_nothing() {
    let mut state = AppState::new();
    state.transactions = sample();
    state.sort_column = SortColumn::Index;
    state.sort_direction = SortDirection::Descending;
    state.sort_transactions();
    assert_eq!(names(&state.transactions), ["a", "b", "c", "d", "e"]);
}

#[test]
fn sorting_agrees_with_the_stable_sort_of_std() {
    let mut seed: u64 = 12345;
    for round in 0..50 {
        let mut records = Vec::new();
        for i in 0..(round % 9) {
            seed = seed.wrapping_mul(6364136223846793005).wrapping_add(1442695040888963407);
            let day = 1 + ((seed >> 33) % 3) as u32;
            let amount = (seed >> 40) % 3;
            let merchant = ["가", "나", "", "A"][((seed >> 50) % 4) as usize];
            records.push(record(&i.to_string(), day, merchant, amount));
        }
        for column in [SortColumn::DateTime, SortColumn::Merchant, SortColumn::Amount] {
            for direction in [SortDirection::Ascending, SortDirection::Descending] {
                let mut ours = records.clone();
                sort_records(&mut ours, column, direction);
                let mut theirs = records.clone();
                theirs.sort_by(|a, b| {
                    let c = match column {
                        SortColumn::DateTime => {
                            let key = |r: &CardTransaction| {
                                let d = r.datetime;
                                (d.year, d.month, d.day, d.hour, d.minute, d.second)
                            };
                            key(a).cmp(&key(b))
                        }
                        SortColumn::Merchant => a.merchant.cmp(&b.merchant),
                        _ => a.amount.cmp(&b.amount),
                    };
                    if direction == SortDirection::Descending { c.reverse() } else { c }
                });
                assert_eq!(names(&ours), names(&theirs));
            }
        }
    }
}

#[test]
fn order_of_two_records() {
    let a = record("a", 1, "가", 5);
    let b = record("b", 2, "가", 3);
    assert!(comes_before(&a, &b, SortColumn::DateTime, SortDirection::Ascending));
    assert!(!comes_before(&a, &b, SortColumn::DateTime, SortDirection::Descending));
    assert!(comes_before(&b, &a, SortColumn::Amount, SortDirection::Ascending));
    assert!(!comes_before(&a, &b, SortColumn::Merchant, SortDirection::Ascending));
    assert!(!comes_before(&b, &a, SortColumn::Merchant, SortDirection::Ascending));
    assert!(!comes_before(&a, &b, SortColumn::Index, SortDirection::Ascending));
}

#[test]
fn dictionary_order_agrees_with_std() {
    let texts = ["", "a", "ab", "b", "가", "가나", "A", "z", "나"];
    for a in texts {
        for b in texts {
            let x: Vec<char> = a.chars().collect();
            let y: Vec<char> = b.chars().collect();
            assert_eq!(chars_less(&x, &y), a < b, "{:?} {:?}", a, b);
        }
    }
}

#[test]
fn click_on_a_header() {
    let mut state = AppState::new();
    state.transactions = sample();
    assert_eq!(state.sort_arrow(SortColumn::DateTime), " ▲");
    assert_eq!(state.sort_arrow(SortColumn::Amount), "");
    state.toggle_sort(SortColumn::DateTime);
    assert_eq!(state.sort_direction, SortDirection::Descending);
    assert_eq!(state.sort_arrow(SortColumn::DateTime), " ▼");
    assert_eq!(names(&state.transactions), ["a", "e", "c", "b", "d"]);
    state.toggle_sort(SortColumn::Amount);
    assert_eq!(state.sort_column, SortColumn::Amount);
    assert_eq!(state.sort_direction, SortDirection::Ascending);
    assert_eq!(names(&state.transactions), ["e", "c", "a", "b", "d"]);
    state.toggle_sort(SortColumn::Amount);
    assert_eq!(state.sort_direction, SortDirection::Descending);
}
