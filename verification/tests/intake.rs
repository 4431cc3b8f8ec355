use card_receipt::datetime::DateTime;
use card_receipt::intake::{has_suffix, is_image_file, ocr_outcome, Outcome};
use card_receipt::model::{AppState, CardFormat, SortColumn, SortDirection};

const HANA: &str = "거래일시 2026.01.22 16:35:39\n승인금액 27,600 원\n가맹점명 네이버파이낸셜(주)";

fn outcome(name: &str, day: u32) -> Outcome {
    let text = format!("거래일시 2026.01.{:02} 10:00:00\n승인금액 1,000 원\n가맹점명 가게", day);
    ocr_outcome(name, vec![day as u8], Ok(text))
}

#[test]
fn image_files_by_their_names() {
    assert!(is_image_file("a.jpg"));
    assert!(is_image_file("A.JPG"));
    assert!(is_image_file("photo.Jpeg"));
    assert!(is_image_file("영수증.PNG"));
    assert!(is_image_file(".png"));
    assert!(!is_image_file("a.gif"));
    assert!(!is_image_file("jpg"));
    assert!(!is_image_file("a.jpg.txt"));
    assert!(!is_image_file(""));
}

#[test]
fn end_of_a_text() {
    let t: Vec<char> = "a.png".chars().collect();
    assert!(has_suffix(&t, ".png"));
    assert!(has_suffix(&t, ""));
    assert!(has_suffix(&t, "a.png"));
    assert!(!has_suffix(&t, "xa.png"));
    assert!(!has_suffix(&t, ".pn"));
}

#[test]
fn recognized_text_becomes_a_record_with_its_image() {
    let record = ocr_outcome("a.jpg", vec![1, 2, 3], Ok(HANA.to_string())).unwrap();
    assert_eq!(record.filename, "a.jpg");
    assert_eq!(record.image_bytes, vec![1, 2, 3]);
    assert_eq!(record.amount, 27600);
    assert_eq!(record.merchant, "네이버파이낸셜(주)");
    assert_eq!(record.datetime, DateTime::new(2026, 1, 22, 16, 35, 39).unwrap());
    assert_eq!(record.card_format, CardFormat::HanaCard);
    assert_eq!(record.raw_ocr_text, HANA);
}

#[test]
fn text_that_is_no_receipt_is_a_failure() {
    let failed = ocr_outcome("b.jpg", vec![1], Ok("hello".to_string())).unwrap_err();
    assert_eq!(failed, ("b.jpg".to_string(), "파싱 실패: 알 수 없는 영수증 형식입니다".to_string()));
    let failed = ocr_outcome("c.jpg", vec![1], Ok("거래일시 없음".to_string())).unwrap_err();
    assert_eq!(failed.1, "파싱 실패: 거래일시를 찾을 수 없습니다");
    let failed = ocr_outcome("d.jpg", vec![1], Ok("현대카드".to_string())).unwrap_err();
    assert_eq!(failed.1, "파싱 실패: 거래 일자를 찾을 수 없습니다");
    let failed = ocr_outcome("e.jpg", vec![1], Ok("매출전표".to_string())).unwrap_err();
    assert_eq!(failed.1, "파싱 실패: 거래일을 찾을 수 없습니다");
    let text = "거래일시 2026.01.22 16:35:39".to_string();
    let failed = ocr_outcome("f.jpg", vec![1], Ok(text)).unwrap_err();
    assert_eq!(failed.1, "파싱 실패: 금액을 찾을 수 없습니다");
}

#[test]
fn failed_recognition_is_a_failure() {
    let failed = ocr_outcome("b.jpg", vec![1], Err("OCR error: boom".to_string())).unwrap_err();
    assert_eq!(failed, ("b.jpg".to_string(), "OCR 실패: OCR error: boom".to_string()));
}

#[test]
fn outcomes_join_records_and_messages_in_order() {
    let mut state = AppState::new();
    state.take_outcomes(vec![
        outcome("a", 3),
        Err(("x.jpg".to_string(), "why".to_string())),
        outcome("b", 1),
        Err(("y.jpg".to_string(), "because".to_string())),
    ]);
    let names: Vec<&str> = state.transactions.iter().map(|r| r.filename.as_str()).collect();
    assert_eq!(names, ["a", "b"]);
    assert_eq!(state.error_messages, ["x.jpg: why", "y.jpg: because"]);
    state.take_outcomes(vec![outcome("c", 2)]);
    assert_eq!(state.transactions.len(), 3);
    assert_eq!(state.transactions[2].filename, "c");
}

#[test]
fn picked_files_wait_as_images() {
    let mut state = AppState::new();
    state.take_files(vec![("a.png".to_string(), vec![1]), ("b.jpg".to_string(), vec![2, 3])]);
    state.take_files(vec![("c.png".to_string(), vec![])]);
    let names: Vec<&str> = state.pending_images.iter().map(|p| p.filename.as_str()).collect();
    assert_eq!(names, ["a.png", "b.jpg", "c.png"]);
    assert_eq!(state.pending_images[1].bytes, vec![2, 3]);
}

#[test]
fn status_while_images_are_read() {
    let mut state = AppState::new();
    state.poll_results(vec![outcome("a", 3)], vec![], 2);
    assert!(state.ocr_in_progress);
    assert_eq!(state.status_message, "OCR 처리 중... (2개 남음)");
    assert_eq!(state.transactions.len(), 1);
}

#[test]
fn status_when_the_last_image_is_read() {
    let mut state = AppState::new();
    state.sort_column = SortColumn::Amount;
    state.sort_direction = SortDirection::Descending;
    state.poll_results(vec![outcome("a", 3)], vec![], 1);
    state.poll_results(vec![outcome("b", 1), outcome("c", 2)], vec![], 0);
    assert!(!state.ocr_in_progress);
    assert_eq!(state.status_message, "완료! 3개 거래 인식됨");
    assert_eq!(state.sort_column, SortColumn::DateTime);
    assert_eq!(state.sort_direction, SortDirection::Ascending);
    let names: Vec<&str> = state.transactions.iter().map(|r| r.filename.as_str()).collect();
    assert_eq!(names, ["b", "c", "a"]);
}

#[test]
fn status_when_done_with_failures() {
    let mut state = AppState::new();
    state.poll_results(vec![], vec![], 3);
    let failure = Err(("x.jpg".to_string(), "why".to_string()));
    state.poll_results(vec![outcome("a", 3), failure], vec![], 0);
    assert_eq!(state.status_message, "완료! 1개 인식, 1개 실패");
}

#[test]
fn nothing_changes_when_nothing_is_read() {
    let mut state = AppState::new();
    state.poll_results(vec![], vec![("a.png".to_string(), vec![1])], 0);
    assert_eq!(state.status_message, "이미지를 업로드하세요");
    assert!(!state.ocr_in_progress);
    assert_eq!(state.pending_images.len(), 1);
    state.update_progress(0);
    assert_eq!(state.status_message, "이미지를 업로드하세요");
}
