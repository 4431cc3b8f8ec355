use card_receipt::datetime::DateTime;
use card_receipt::model::CardFormat;
use card_receipt::parser::{
    after_label_of, amount_flags_of, amount_of, amount_of_groups, boilerplate_list, date_of,
    detail_label_list, first_nonblank_of, first_nonzero_of, full_year_of, merchant_above_amount,
    merchant_in_detail,
    month_or_day_of, number_line, plain_date_text_of, short_year_date_text_of, trimmed_lines_of,
    ParseError,
};
use card_receipt::pattern::Groups;

fn groups(items: &[Option<&str>]) -> Groups {
    items.iter().map(|g| g.map(|s| s.to_string())).collect()
}

fn chars(s: &str) -> Vec<char> {
    s.chars().collect()
}

fn lines(items: &[&str]) -> Vec<Vec<char>> {
    items.iter().map(|s| chars(s)).collect()
}

fn text(v: Vec<char>) -> String {
    v.into_iter().collect()
}

#[test]
fn amount_of_a_match() {
    assert_eq!(amount_of_groups(&groups(&[Some("27,600 원"), Some("27,600")])), Ok(27600));
    assert_eq!(amount_of(&Some(groups(&[Some("x"), Some("1,0 0")]))), Ok(100));
    assert_eq!(amount_of(&None), Err(ParseError::AmountNotFound));
    assert_eq!(amount_of_groups(&groups(&[Some("x")])), Err(ParseError::AmountNotFound));
    assert_eq!(amount_of_groups(&groups(&[Some("x"), None])), Err(ParseError::AmountNotFound));
    assert_eq!(amount_of_groups(&groups(&[Some(",원"), Some(",")])), Err(ParseError::AmountNotFound));
    assert_eq!(amount_of_groups(&groups(&[])), Err(ParseError::AmountNotFound));
}

#[test]
fn first_amount_above_zero_among_matches() {
    let ms = vec![
        groups(&[Some("0원"), Some("0")]),
        groups(&[Some(",원"), Some(",")]),
        groups(&[Some("x"), None]),
        groups(&[Some("1,500원"), Some("1,500")]),
        groups(&[Some("9원"), Some("9")]),
    ];
    assert_eq!(first_nonzero_of(&ms), Ok(1500));
    assert_eq!(first_nonzero_of(&ms[..3].to_vec()), Err(ParseError::AmountNotFound));
    assert_eq!(first_nonzero_of(&vec![]), Err(ParseError::AmountNotFound));
}

#[test]
fn date_text_with_a_year_of_four_digits() {
    let g = groups(&[Some("w"), Some("2026"), Some("01"), Some("22"), Some("16"), Some("35"), Some("39")]);
    assert_eq!(plain_date_text_of(&g), Some("2026-01-22 16:35:39".to_string()));
    let g = groups(&[Some("w"), Some("2026"), Some("01"), Some("22"), Some("16"), Some("35"), None]);
    assert_eq!(plain_date_text_of(&g), Some("2026-01-22 16:35:00".to_string()));
    let g = groups(&[Some("w"), Some("2026"), Some("01"), Some("22"), Some("16"), Some("35")]);
    assert_eq!(plain_date_text_of(&g), Some("2026-01-22 16:35:00".to_string()));
    let g = groups(&[Some("w"), Some("2026"), None, Some("22"), Some("16"), Some("35")]);
    assert_eq!(plain_date_text_of(&g), None);
    let g = groups(&[Some("w"), Some("2026"), Some("01"), Some("22"), Some("16")]);
    assert_eq!(plain_date_text_of(&g), None);
}

#[test]
fn date_text_with_a_year_of_two_digits() {
    let g = groups(&[Some("w"), Some("26"), Some("1"), Some("31"), Some("14"), Some("59"), Some("27")]);
    assert_eq!(short_year_date_text_of(&g), Some("2026-01-31 14:59:27".to_string()));
    let g = groups(&[Some("w"), Some("07"), Some("12"), Some("3"), Some("08"), Some("09"), None]);
    assert_eq!(short_year_date_text_of(&g), Some("2007-12-03 08:09:00".to_string()));
    let g = groups(&[Some("w"), Some("٢٦"), Some("3"), Some("4"), Some("08"), Some("09"), None]);
    assert_eq!(short_year_date_text_of(&g), None);
    let g = groups(&[Some("w"), Some("26"), Some("٣"), Some("4"), Some("08"), Some("09"), None]);
    assert_eq!(short_year_date_text_of(&g), None);
    let g = groups(&[Some("w"), Some("26"), Some("3"), Some("x"), Some("08"), Some("09"), None]);
    assert_eq!(short_year_date_text_of(&g), None);
    let g = groups(&[Some("w"), Some("-3000"), Some("123"), Some("5"), Some("a"), Some("b"), Some("c")]);
    assert_eq!(short_year_date_text_of(&g), Some("-1000-123-05 a:b:c".to_string()));
    let g = groups(&[Some("w"), Some("2147483647"), Some("1"), Some("1"), Some("0"), Some("0")]);
    assert_eq!(short_year_date_text_of(&g), None);
    let g = groups(&[Some("w"), None, Some("1"), Some("1"), Some("0"), Some("0")]);
    assert_eq!(short_year_date_text_of(&g), None);
}

#[test]
fn year_of_two_digits_is_2000_and_its_number() {
    for v in 0..100 {
        assert_eq!(full_year_of(&format!("{:02}", v)), Some(2000 + v));
    }
    assert_eq!(full_year_of("x"), None);
    assert_eq!(full_year_of(""), None);
    assert_eq!(full_year_of("２６"), None);
    assert_eq!(full_year_of("2147481647"), Some(i32::MAX));
    assert_eq!(full_year_of("2147481648"), None);
    assert_eq!(full_year_of("-2147483648"), Some(-2147481648));
}

#[test]
fn month_or_day_of_a_group() {
    assert_eq!(month_or_day_of("1"), Some(1));
    assert_eq!(month_or_day_of("09"), Some(9));
    assert_eq!(month_or_day_of("31"), Some(31));
    assert_eq!(month_or_day_of("x"), None);
    assert_eq!(month_or_day_of(""), None);
    assert_eq!(month_or_day_of("٣"), None);
    assert_eq!(month_or_day_of("4294967296"), None);
    assert_eq!(month_or_day_of("4294967295"), Some(4294967295));
}

#[test]
fn date_of_a_match() {
    let g = groups(&[Some("w"), Some("2026"), Some("01"), Some("22"), Some("16"), Some("35"), Some("39")]);
    assert_eq!(
        date_of(&Some(g), false, CardFormat::HanaCard),
        Ok(DateTime::new(2026, 1, 22, 16, 35, 39).unwrap())
    );
    let g = groups(&[Some("w"), Some("26"), Some("1"), Some("2"), Some("16"), Some("35")]);
    assert_eq!(
        date_of(&Some(g), true, CardFormat::NaverHyundaiCard),
        Ok(DateTime::new(2026, 1, 2, 16, 35, 0).unwrap())
    );
    let g = groups(&[Some("w"), Some("2026"), Some("02"), Some("30"), Some("16"), Some("35")]);
    assert_eq!(
        date_of(&Some(g), false, CardFormat::CardAppScreenshot),
        Err(ParseError::DateNotFound(CardFormat::CardAppScreenshot))
    );
    assert_eq!(
        date_of(&None, true, CardFormat::NaverHyundaiCard),
        Err(ParseError::DateNotFound(CardFormat::NaverHyundaiCard))
    );
}

#[test]
fn text_between_labels() {
    assert_eq!(text(after_label_of(&chars("가맹점명 ABC"), &chars("가맹점명"))), " ABC");
    assert_eq!(text(after_label_of(&chars("x:a:b:c"), &chars(":"))), "a");
    assert_eq!(text(after_label_of(&chars("label"), &chars("label"))), "");
    assert_eq!(text(after_label_of(&chars("abc"), &chars(""))), "a");
    assert_eq!(text(after_label_of(&chars(""), &chars(""))), "");
    assert_eq!(text(after_label_of(&chars("abc"), &chars("x"))), "");
    assert_eq!(text(after_label_of(&chars("aaa"), &chars("aa"))), "a");
}

#[test]
fn lines_of_a_text_trimmed() {
    let ls = trimmed_lines_of("  a \r\n\n\tb\u{3000}\n");
    assert_eq!(ls, lines(&["a", "", "b"]));
    assert_eq!(trimmed_lines_of(""), Vec::<Vec<char>>::new());
}

#[test]
fn lines_in_which_an_amount_stands() {
    let ls = lines(&["합계 1,000원", "1000", "원", ",원", "12 원 more", "가게"]);
    assert_eq!(amount_flags_of(&ls), [true, false, false, true, true, false]);
}

#[test]
fn lines_of_numbers() {
    assert!(number_line(&chars("1,234 567")));
    assert!(number_line(&chars("")));
    assert!(!number_line(&chars("1.5")));
    assert!(!number_line(&chars("12원")));
}

#[test]
fn merchant_of_a_detail_section_from_lines() {
    let ls = lines(&["가게 앞", "상세 이용내역", "", "X", "~가", "승인번호 1", "amount", "1 2", "가게", "둘째"]);
    let flags = vec![false, false, false, false, false, false, true, false, false, false];
    assert_eq!(merchant_in_detail(&ls, &flags), Some(chars("가게")));
    let flags = vec![false, false, false, false, false, false, false, false, false, false];
    assert_eq!(merchant_in_detail(&ls, &flags), Some(chars("amount")));
    assert_eq!(merchant_in_detail(&lines(&["가게"]), &vec![false]), None);
    assert_eq!(merchant_in_detail(&lines(&[]), &vec![]), None);
    let again = lines(&["상세 이용내역", "상세 이용내역 가게", "둘", "셋째"]);
    assert_eq!(merchant_in_detail(&again, &vec![false, false, false, false]), Some(chars("셋째")));
}

#[test]
fn last_candidate_above_the_first_amount_line() {
    let ls = lines(&["first", "", "VISA", "second", "USD 3", "third", "fourth"]);
    let flags = vec![false, true, false, false, false, true, false];
    assert_eq!(merchant_above_amount(&ls, &flags), chars("second"));
    let flags = vec![false, false, false, false, true, false, false];
    assert_eq!(merchant_above_amount(&ls, &flags), chars("second"));
    let flags = vec![true, false, false, false, false, false, false];
    assert_eq!(merchant_above_amount(&ls, &flags), chars(""));
    let flags = vec![false; 7];
    assert_eq!(merchant_above_amount(&ls, &flags), chars("fourth"));
    let ls = lines(&["하나카드", "", "결제 정보", "amount", "shop"]);
    assert_eq!(merchant_above_amount(&ls, &vec![false, false, false, true, false]), chars(""));
    let ls = lines(&["X", "amount"]);
    assert_eq!(merchant_above_amount(&ls, &vec![false, true]), chars("X"));
}

#[test]
fn phrase_lists() {
    assert_eq!(detail_label_list().len(), 18);
    assert_eq!(boilerplate_list().len(), 35);
    assert!(detail_label_list().contains(&"구글페이"));
    assert!(boilerplate_list().contains(&"UnionPay"));
}

#[test]
fn first_line_that_is_not_blank() {
    let ls = lines(&["", " \t", "  a  ", "b"]);
    assert_eq!(first_nonblank_of(&ls, 0), Some(chars("a")));
    assert_eq!(first_nonblank_of(&ls, 2), Some(chars("a")));
    assert_eq!(first_nonblank_of(&ls, 3), Some(chars("b")));
    assert_eq!(first_nonblank_of(&ls, 4), None);
    assert_eq!(first_nonblank_of(&ls, 9), None);
    assert_eq!(first_nonblank_of(&lines(&["", " "]), 0), None);
}
