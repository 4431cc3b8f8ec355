//! Reading a payment out of the recognized text of a receipt.
//!
//! Three receipt layouts are known. Each has its own label for the date; the
//! amount and the merchant are found by a chain of attempts, of which the
//! first that succeeds decides.

use crate::datetime::{parse, parsed, DateTime, LAYOUT_SECONDS};
use crate::decimal::{
    all_digits, digits_of, digits_only, grouped, lemma_digits_round_trip, lemma_grouped_digits,
    lemma_zero_padded, parse_digits, parse_i32, parse_unsigned, parsed_digits, parsed_i32,
    parsed_unsigned, push_padded, push_signed, signed_digits, value_of, zero_padded,
};
use crate::model::{CardFormat, CardTransaction};
use crate::pattern::{
    all_matches, captures, captures_all, escape, escaped, first_match, groups_view, has_match,
    is_match, Groups,
};
use crate::text::{
    append_str, contains, contains_any, find, find_from, has, has_any, has_str, is_ascii_digit,
    is_digit, lemma_find_from, lines, slice_of, split_lines, str_views, string_of, to_chars, trim,
    trimmed, views,
};
use vstd::prelude::*;
use vstd::string::StringExecFns;

verus! {

/// Why no payment was read from a text.
#[derive(Clone, Copy, Debug, PartialEq, Eq, Structural)]
pub enum ParseError {
    /// No date was found under the label of the given layout, or what was
    /// found is no date.
    DateNotFound(CardFormat),
    /// The text holds no amount.
    AmountNotFound,
    /// The text is of no known layout, and read as each of them it fails.
    UnrecognizedFormat,
}

impl ParseError {
    /// The error in words.
    pub open spec fn spec_message(&self) -> Seq<char> {
        match self {
            ParseError::DateNotFound(CardFormat::HanaCard) => "거래일시를 찾을 수 없습니다"@,
            ParseError::DateNotFound(CardFormat::NaverHyundaiCard) => "거래 일자를 찾을 수 없습니다"@,
            ParseError::DateNotFound(CardFormat::CardAppScreenshot) => "거래일을 찾을 수 없습니다"@,
            ParseError::DateNotFound(CardFormat::Unknown) => "날짜를 찾을 수 없습니다"@,
            ParseError::AmountNotFound => "금액을 찾을 수 없습니다"@,
            ParseError::UnrecognizedFormat => "알 수 없는 영수증 형식입니다"@,
        }
    }

    /// The error in words.
    pub fn message(&self) -> (r: String)
        ensures
            r@ == self.spec_message(),
    {
        match self {
            ParseError::DateNotFound(CardFormat::HanaCard) => "거래일시를 찾을 수 없습니다".to_owned(),
            ParseError::DateNotFound(CardFormat::NaverHyundaiCard) => "거래 일자를 찾을 수 없습니다".to_owned(),
            ParseError::DateNotFound(CardFormat::CardAppScreenshot) => "거래일을 찾을 수 없습니다".to_owned(),
            ParseError::DateNotFound(CardFormat::Unknown) => "날짜를 찾을 수 없습니다".to_owned(),
            ParseError::AmountNotFound => "금액을 찾을 수 없습니다".to_owned(),
            ParseError::UnrecognizedFormat => "알 수 없는 영수증 형식입니다".to_owned(),
        }
    }
}

/// A run of digits and commas, white space, and the currency sign.
pub const AMOUNT_SHAPE: &'static str = r"[\d,]+\s*원";

/// `AMOUNT_SHAPE`, with the run of digits and commas as group 1.
pub const AMOUNT_TOKEN: &'static str = r"([\d,]+)\s*원";

/// What follows a label where an amount stands after it.
pub const AMOUNT_AFTER_LABEL: &'static str = r"\s+([\d,]+)\s*원";

// ---------------------------------------------------------------------
// Layout
// ---------------------------------------------------------------------

/// The layout of a text: the first of the three whose marker phrases the
/// text holds decides.
pub open spec fn format_of(text: Seq<char>) -> CardFormat {
    if contains(text, "하나카드"@) || contains(text, "거래일시"@) {
        CardFormat::HanaCard
    } else if contains(text, "결제 정보"@) || contains(text, "현대카드"@) || contains(
        text,
        "거래 일자"@,
    ) {
        CardFormat::NaverHyundaiCard
    } else if contains(text, "카드이용내역"@) || contains(text, "매출전표"@) || contains(
        text,
        "상세 이용내역"@,
    ) {
        CardFormat::CardAppScreenshot
    } else {
        CardFormat::Unknown
    }
}

/// The layout of `text`.
pub fn detect_format(text: &str) -> (r: CardFormat)
    ensures
        r == format_of(text@),
{
    let t = to_chars(text);
    if has_str(&t, "하나카드") || has_str(&t, "거래일시") {
        CardFormat::HanaCard
    } else if has_str(&t, "결제 정보") || has_str(&t, "현대카드") || has_str(&t, "거래 일자") {
        CardFormat::NaverHyundaiCard
    } else if has_str(&t, "카드이용내역") || has_str(&t, "매출전표") || has_str(
        &t,
        "상세 이용내역",
    ) {
        CardFormat::CardAppScreenshot
    } else {
        CardFormat::Unknown
    }
}

// ---------------------------------------------------------------------
// Amount
// ---------------------------------------------------------------------

/// The amount that a text stands for: its ASCII digits, read as one decimal
/// number; none where it has no digit or the number is beyond `u64`.
pub open spec fn krw_amount(s: Seq<char>) -> Option<u64> {
    match parsed_digits(digits_only(s), u64::MAX as nat) {
        Some(v) => Some(v as u64),
        None => None,
    }
}

/// The amount that `s` stands for, whatever separates its digits.
pub fn parse_krw_amount(s: &str) -> (r: Result<u64, ParseError>)
    ensures
        match r {
            Ok(v) => krw_amount(s@) == Some(v),
            Err(e) => krw_amount(s@).is_none() && e == ParseError::AmountNotFound,
        },
{
    let chars = to_chars(s);
    let mut cleaned: Vec<char> = Vec::new();
    let mut i: usize = 0;
    while i < chars.len()
        invariant
            i <= chars.len(),
            cleaned@ == digits_only(chars@.subrange(0, i as int)),
        decreases chars.len() - i,
    {
        let c = chars[i];
        proof {
            let next = chars@.subrange(0, i + 1);
            assert(next.drop_last() == chars@.subrange(0, i as int));
            assert(next.last() == c);
        }
        if is_ascii_digit(c) {
            cleaned.push(c);
        }
        i += 1;
    }
    assert(chars@.subrange(0, chars.len() as int) == chars@);
    assert(cleaned@.subrange(0, cleaned.len() as int) == cleaned@);
    match parse_digits(&cleaned, 0, u64::MAX) {
        Some(v) => Ok(v),
        None => Err(ParseError::AmountNotFound),
    }
}

/// Group `i` of a match; none where the match has no such group or the
/// group took no part in it.
pub open spec fn group(g: Seq<Option<Seq<char>>>, i: int) -> Option<Seq<char>> {
    if 0 <= i < g.len() {
        g[i]
    } else {
        None
    }
}

/// The amount that group 1 of a match stands for.
pub open spec fn amount_in(g: Seq<Option<Seq<char>>>) -> Option<u64> {
    match group(g, 1) {
        Some(t) => krw_amount(t),
        None => None,
    }
}

/// The amount that group 1 of a search result stands for.
pub open spec fn amount_of_match(m: Option<Seq<Option<Seq<char>>>>) -> Option<u64> {
    match m {
        Some(g) => amount_in(g),
        None => None,
    }
}

/// The first amount above zero among the matches from index `i` on.
pub open spec fn first_nonzero_from(ms: Seq<Seq<Option<Seq<char>>>>, i: int) -> Option<u64>
    decreases ms.len() - i,
{
    if i < 0 || i >= ms.len() {
        None
    } else {
        match amount_in(ms[i]) {
            Some(v) if v > 0 => Some(v),
            _ => first_nonzero_from(ms, i + 1),
        }
    }
}

/// The pattern for an amount that stands after `label`.
pub open spec fn label_pattern(label: Seq<char>) -> Seq<char> {
    escaped(label) + AMOUNT_AFTER_LABEL@
}

/// The amount after `label` in `text`.
pub open spec fn labeled_amount(text: Seq<char>, label: Seq<char>) -> Option<u64> {
    amount_of_match(first_match(label_pattern(label), text))
}

/// The first amount in `text`.
pub open spec fn first_amount(text: Seq<char>) -> Option<u64> {
    amount_of_match(first_match(AMOUNT_TOKEN@, text))
}

/// The first amount above zero in `text`.
pub open spec fn first_nonzero_amount(text: Seq<char>) -> Option<u64> {
    first_nonzero_from(all_matches(AMOUNT_TOKEN@, text), 0)
}

/// `Ok` of an amount that was found, the error for one that was not.
pub open spec fn amount_result(a: Option<u64>) -> Result<u64, ParseError> {
    match a {
        Some(v) => Ok(v),
        None => Err(ParseError::AmountNotFound),
    }
}

/// The amount in group 1 of the groups `g` of a match.
pub fn amount_of_groups(g: &Groups) -> (r: Result<u64, ParseError>)
    ensures
        r == amount_result(amount_in(groups_view(g@))),
{
    if g.len() < 2 {
        return Err(ParseError::AmountNotFound);
    }
    match &g[1] {
        Some(t) => parse_krw_amount(t.as_str()),
        None => Err(ParseError::AmountNotFound),
    }
}

/// The amount in group 1 of a search result `m`.
pub fn amount_of(m: &Option<Groups>) -> (r: Result<u64, ParseError>)
    ensures
        r == amount_result(
            amount_of_match(
                match *m {
                    Some(g) => Some(groups_view(g@)),
                    None => None,
                },
            ),
        ),
{
    match m {
        Some(g) => amount_of_groups(g),
        None => Err(ParseError::AmountNotFound),
    }
}

/// The first amount above zero among the matches `ms`.
pub fn first_nonzero_of(ms: &Vec<Groups>) -> (r: Result<u64, ParseError>)
    ensures
        r == amount_result(first_nonzero_from(ms@.map_values(|g: Groups| groups_view(g@)), 0)),
{
    let ghost views = ms@.map_values(|g: Groups| groups_view(g@));
    let mut i: usize = 0;
    while i < ms.len()
        invariant
            i <= ms.len(),
            views == ms@.map_values(|g: Groups| groups_view(g@)),
            first_nonzero_from(views, 0) == first_nonzero_from(views, i as int),
        decreases ms.len() - i,
    {
        assert(views[i as int] == groups_view(ms@[i as int]@));
        match amount_of_groups(&ms[i]) {
            Ok(v) => {
                if v > 0 {
                    return Ok(v);
                }
            },
            Err(_) => {},
        }
        i += 1;
    }
    Err(ParseError::AmountNotFound)
}

/// The amount that stands after `label` in `text`: a run of digits and
/// commas, then the currency sign.
pub fn extract_amount_after_label(text: &str, label: &str) -> (r: Result<u64, ParseError>)
    ensures
        r == amount_result(labeled_amount(text@, label@)),
{
    let mut pattern = escape(label);
    pattern.append(AMOUNT_AFTER_LABEL);
    let m = captures(pattern.as_str(), text);
    amount_of(&m)
}

/// The first amount in `text`.
pub fn extract_first_amount(text: &str) -> (r: Result<u64, ParseError>)
    ensures
        r == amount_result(first_amount(text@)),
{
    let m = captures(AMOUNT_TOKEN, text);
    amount_of(&m)
}

/// The first amount above zero in `text`.
pub fn extract_first_nonzero_amount(text: &str) -> (r: Result<u64, ParseError>)
    ensures
        r == amount_result(first_nonzero_amount(text@)),
{
    let ms = captures_all(AMOUNT_TOKEN, text);
    first_nonzero_of(&ms)
}

// ---------------------------------------------------------------------
// Lines
// ---------------------------------------------------------------------

/// The lines of `text`, each without the white space at its ends.
pub open spec fn trimmed_lines(text: Seq<char>) -> Seq<Seq<char>> {
    lines(text).map_values(|l: Seq<char>| trimmed(l))
}

/// For each line, whether an amount stands in it.
pub open spec fn amount_flags(ls: Seq<Seq<char>>) -> Seq<bool> {
    ls.map_values(|l: Seq<char>| is_match(AMOUNT_SHAPE@, l))
}

/// The lines of `text`, trimmed.
pub fn trimmed_lines_of(text: &str) -> (r: Vec<Vec<char>>)
    ensures
        views(r@) == trimmed_lines(text@),
{
    let chars = to_chars(text);
    let ls = split_lines(&chars);
    let mut r: Vec<Vec<char>> = Vec::new();
    let mut i: usize = 0;
    while i < ls.len()
        invariant
            i <= ls.len(),
            views(ls@) == lines(text@),
            r.len() == i,
            forall|k: int| 0 <= k < i ==> (#[trigger] r@[k])@ == trimmed(ls@[k]@),
        decreases ls.len() - i,
    {
        r.push(trim(&ls[i]));
        i += 1;
    }
    assert(views(r@) =~= trimmed_lines(text@)) by {
        assert forall|k: int| 0 <= k < r.len() implies views(r@)[k] == trimmed_lines(text@)[k] by {
            assert(views(ls@)[k] == ls@[k]@);
        }
    }
    r
}

/// For each of `ls`, whether an amount stands in it.
pub fn amount_flags_of(ls: &Vec<Vec<char>>) -> (r: Vec<bool>)
    ensures
        r@ == amount_flags(views(ls@)),
{
    let mut r: Vec<bool> = Vec::new();
    let mut i: usize = 0;
    while i < ls.len()
        invariant
            i <= ls.len(),
            r.len() == i,
            forall|k: int| 0 <= k < i ==> #[trigger] r@[k] == is_match(AMOUNT_SHAPE@, ls@[k]@),
        decreases ls.len() - i,
    {
        let line = string_of(&ls[i]);
        r.push(has_match(AMOUNT_SHAPE, line.as_str()));
        i += 1;
    }
    assert(r@ =~= amount_flags(views(ls@)));
    r
}

// ---------------------------------------------------------------------
// Merchant: the text after a label
// ---------------------------------------------------------------------

/// What stands in `line` between the first `label` and the next one, or the
/// end of the line. (For an empty label: the first character of the line.)
pub open spec fn after_label(line: Seq<char>, label: Seq<char>) -> Seq<char> {
    if label.len() == 0 {
        line.subrange(
            0,
            if line.len() > 0 {
                1
            } else {
                0
            },
        )
    } else {
        let first = find_from(line, label, 0);
        if first >= line.len() {
            Seq::empty()
        } else {
            let a = first + label.len();
            line.subrange(a, find_from(line, label, a))
        }
    }
}

/// A text that stands for a value: not empty, and not the lone `X` of a
/// close button.
pub open spec fn is_value_text(t: Seq<char>) -> bool {
    t.len() > 0 && t != seq!['X'] && t != seq!['x']
}

/// The first line at or after `i` that is not blank, without the white
/// space at its ends; none where every such line is blank.
pub open spec fn first_nonblank_from(ls: Seq<Seq<char>>, i: int) -> Option<Seq<char>>
    decreases ls.len() - i,
{
    if i < 0 || i >= ls.len() {
        None
    } else if trimmed(ls[i]).len() > 0 {
        Some(trimmed(ls[i]))
    } else {
        first_nonblank_from(ls, i + 1)
    }
}

/// The text after `label`, searched from line `i` on. The first line that
/// holds the label decides: the rest of that line, if it is a value; else
/// the first line below it that is not blank; none where there is no such
/// line.
pub open spec fn text_after_label_from(ls: Seq<Seq<char>>, label: Seq<char>, i: int) -> Option<
    Seq<char>,
>
    decreases ls.len() - i,
{
    if i < 0 || i >= ls.len() {
        None
    } else if contains(ls[i], label) {
        let same = trimmed(after_label(ls[i], label));
        if is_value_text(same) {
            Some(same)
        } else {
            first_nonblank_from(ls, i + 1)
        }
    } else {
        text_after_label_from(ls, label, i + 1)
    }
}

/// The text after `label` in `text`.
pub open spec fn text_after_label(text: Seq<char>, label: Seq<char>) -> Option<Seq<char>> {
    text_after_label_from(lines(text), label, 0)
}

/// What stands in `line` after its first `label`, up to the next one.
pub fn after_label_of(line: &Vec<char>, label: &Vec<char>) -> (r: Vec<char>)
    ensures
        r@ == after_label(line@, label@),
{
    if label.len() == 0 {
        let end: usize = if line.len() > 0 {
            1
        } else {
            0
        };
        return slice_of(line, 0, end);
    }
    let first = find(line, label, 0);
    proof {
        lemma_find_from(line@, label@, 0);
    }
    if first >= line.len() {
        return Vec::new();
    }
    let a = first + label.len();
    let b = find(line, label, a);
    slice_of(line, a, b)
}

/// The first of the lines `ls` at or after `from` that is not blank,
/// trimmed.
pub fn first_nonblank_of(ls: &Vec<Vec<char>>, from: usize) -> (r: Option<Vec<char>>)
    ensures
        match r {
            Some(t) => first_nonblank_from(views(ls@), from as int) == Some(t@),
            None => first_nonblank_from(views(ls@), from as int).is_none(),
        },
{
    let mut i: usize = from;
    while i < ls.len()
        invariant
            from <= i,
            first_nonblank_from(views(ls@), from as int) == first_nonblank_from(
                views(ls@),
                i as int,
            ),
        decreases ls.len() - i,
    {
        assert(views(ls@)[i as int] == ls@[i as int]@);
        let t = trim(&ls[i]);
        if t.len() > 0 {
            return Some(t);
        }
        i += 1;
    }
    None
}

/// The text that stands after `label` in `text`: on the line of the label,
/// or else on the first line below it that is not blank.
pub fn extract_text_after_label(text: &str, label: &str) -> (r: Option<String>)
    ensures
        match r {
            Some(t) => text_after_label(text@, label@) == Some(t@),
            None => text_after_label(text@, label@).is_none(),
        },
{
    let chars = to_chars(text);
    let ls = split_lines(&chars);
    let pat = to_chars(label);
    let mut i: usize = 0;
    while i < ls.len()
        invariant
            i <= ls.len(),
            pat@ == label@,
            views(ls@) == lines(text@),
            text_after_label(text@, label@) == text_after_label_from(
                lines(text@),
                label@,
                i as int,
            ),
        decreases ls.len() - i,
    {
        assert(views(ls@)[i as int] == ls@[i as int]@);
        if has(&ls[i], &pat) {
            let rest = after_label_of(&ls[i], &pat);
            let same = trim(&rest);
            let lone_x = same.len() == 1 && (same[0] == 'X' || same[0] == 'x');
            proof {
                if same.len() == 1 {
                    assert(seq!['X'].len() == 1 && seq!['x'].len() == 1);
                    assert(same@ == seq!['X'] <==> same@[0] == 'X') by {
                        if same@[0] == 'X' {
                            assert(same@ =~= seq!['X']);
                        } else {
                            assert(seq!['X'][0] == 'X');
                        }
                    }
                    assert(same@ == seq!['x'] <==> same@[0] == 'x') by {
                        if same@[0] == 'x' {
                            assert(same@ =~= seq!['x']);
                        } else {
                            assert(seq!['x'][0] == 'x');
                        }
                    }
                } else {
                    assert(seq!['X'].len() == 1 && seq!['x'].len() == 1);
                }
            }
            if same.len() > 0 && !lone_x {
                return Some(string_of(&same));
            }
            return match first_nonblank_of(&ls, i + 1) {
                Some(next) => Some(string_of(&next)),
                None => None,
            };
        }
        i += 1;
    }
    None
}

// ---------------------------------------------------------------------
// Merchant: the detail section
// ---------------------------------------------------------------------

/// The labels of a detail section that name something other than the
/// merchant.
pub open spec fn detail_labels() -> Seq<Seq<char>> {
    seq![
        "거래구분"@,
        "승인번호"@,
        "거래상태"@,
        "이용카드"@,
        "가맹점"@,
        "공급가액"@,
        "부가세"@,
        "봉사료"@,
        "자원순환"@,
        "거래일"@,
        "결제확정"@,
        "일시불"@,
        "본인"@,
        "신용"@,
        "체크"@,
        "카드이용내역"@,
        "매출전표"@,
        "구글페이"@,
    ]
}

/// The labels of a detail section that name something other than the
/// merchant.
pub fn detail_label_list() -> (r: Vec<&'static str>)
    ensures
        str_views(r@) == detail_labels(),
{
    let r = vec![
        "거래구분",
        "승인번호",
        "거래상태",
        "이용카드",
        "가맹점",
        "공급가액",
        "부가세",
        "봉사료",
        "자원순환",
        "거래일",
        "결제확정",
        "일시불",
        "본인",
        "신용",
        "체크",
        "카드이용내역",
        "매출전표",
        "구글페이",
    ];
    assert(str_views(r@) =~= detail_labels());
    r
}

/// A trimmed line that is blank, a single character, or opens with a tilde.
pub open spec fn is_noise(t: Seq<char>) -> bool {
    t.len() <= 1 || t[0] == '~'
}

/// A line made of digits, commas and spaces only.
pub open spec fn is_number_line(t: Seq<char>) -> bool {
    forall|k: int| 0 <= k < t.len() ==> is_digit(#[trigger] t[k]) || t[k] == ',' || t[k] == ' '
}

/// A trimmed line of a detail section that cannot be the merchant.
pub open spec fn is_skipped_detail(t: Seq<char>, amount_shaped: bool) -> bool {
    is_noise(t) || contains_any(t, detail_labels()) || amount_shaped || is_number_line(t)
}

/// The merchant of a detail section, searched from line `i` of the trimmed
/// lines `ls` on: the first line below the section header that is not
/// skipped. `flags[k]` tells whether an amount stands in line `k`; `found`,
/// whether the header stands above line `i`.
pub open spec fn detail_merchant_from(
    ls: Seq<Seq<char>>,
    flags: Seq<bool>,
    i: int,
    found: bool,
) -> Option<Seq<char>>
    decreases ls.len() - i,
{
    if i < 0 || i >= ls.len() || i >= flags.len() {
        None
    } else if contains(ls[i], "상세 이용내역"@) {
        detail_merchant_from(ls, flags, i + 1, true)
    } else if !found || is_skipped_detail(ls[i], flags[i]) {
        detail_merchant_from(ls, flags, i + 1, found)
    } else {
        Some(ls[i])
    }
}

/// The merchant that the detail section of `text` names.
pub open spec fn detail_merchant(text: Seq<char>) -> Option<Seq<char>> {
    detail_merchant_from(trimmed_lines(text), amount_flags(trimmed_lines(text)), 0, false)
}

/// Whether `t` is made of digits, commas and spaces only.
pub fn number_line(t: &Vec<char>) -> (r: bool)
    ensures
        r == is_number_line(t@),
{
    let mut k: usize = 0;
    while k < t.len()
        invariant
            k <= t.len(),
            forall|j: int| 0 <= j < k ==> is_digit(#[trigger] t@[j]) || t@[j] == ',' || t@[j] == ' ',
        decreases t.len() - k,
    {
        let c = t[k];
        if !(is_ascii_digit(c) || c == ',' || c == ' ') {
            return false;
        }
        k += 1;
    }
    true
}

/// The merchant of a detail section, given its trimmed lines and, for each,
/// whether an amount stands in it.
pub fn merchant_in_detail(ls: &Vec<Vec<char>>, flags: &Vec<bool>) -> (r: Option<Vec<char>>)
    requires
        flags.len() == ls.len(),
    ensures
        match r {
            Some(t) => detail_merchant_from(views(ls@), flags@, 0, false) == Some(t@),
            None => detail_merchant_from(views(ls@), flags@, 0, false).is_none(),
        },
{
    let labels = detail_label_list();
    let mut found = false;
    let mut i: usize = 0;
    while i < ls.len()
        invariant
            i <= ls.len(),
            flags.len() == ls.len(),
            str_views(labels@) == detail_labels(),
            detail_merchant_from(views(ls@), flags@, 0, false) == detail_merchant_from(
                views(ls@),
                flags@,
                i as int,
                found,
            ),
        decreases ls.len() - i,
    {
        assert(views(ls@)[i as int] == ls@[i as int]@);
        let t = &ls[i];
        if has_str(t, "상세 이용내역") {
            found = true;
        } else if found {
            let noise = t.len() <= 1 || t[0] == '~';
            if !(noise || has_any(t, &labels) || flags[i] || number_line(t)) {
                assert(t@.subrange(0, t.len() as int) == t@);
                return Some(slice_of(t, 0, t.len()));
            }
        }
        i += 1;
    }
    None
}

/// The merchant that the detail section of `text` names: the first line
/// below the header `상세 이용내역` that is neither noise, nor another field,
/// nor an amount, nor a bare number.
pub fn extract_merchant_from_card_detail(text: &str) -> (r: Option<String>)
    ensures
        match r {
            Some(t) => detail_merchant(text@) == Some(t@),
            None => detail_merchant(text@).is_none(),
        },
{
    let ls = trimmed_lines_of(text);
    let flags = amount_flags_of(&ls);
    match merchant_in_detail(&ls, &flags) {
        Some(t) => Some(string_of(&t)),
        None => None,
    }
}

// ---------------------------------------------------------------------
// Merchant: the last line before the first amount
// ---------------------------------------------------------------------

/// Phrases of a receipt that name no merchant: issuers, card brands,
/// currencies, labels of other fields.
pub open spec fn boilerplate_phrases() -> Seq<Seq<char>> {
    seq![
        "카드이용내역"@,
        "매출전표"@,
        "상세 이용내역"@,
        "하나카드"@,
        "현대카드"@,
        "결제 정보"@,
        "결제 구분"@,
        "결제 카드"@,
        "금액 상세"@,
        "카드번호"@,
        "카드 소지자"@,
        "가상카드번호"@,
        "거래유형"@,
        "거래구분"@,
        "일시불"@,
        "승인번호"@,
        "승인상태"@,
        "거래상태"@,
        "이용카드"@,
        "결제확정"@,
        "현지승인금액"@,
        "CNY"@,
        "USD"@,
        "JPY"@,
        "EUR"@,
        "VISA"@,
        "MasterCard"@,
        "UnionPay"@,
        "실제 결제금액"@,
        "해외이용수수료"@,
        "가맹점 번호"@,
        "가맹점 상세"@,
        "대표자명"@,
        "사업자 등록번호"@,
        "업종"@,
    ]
}

/// Phrases of a receipt that name no merchant.
pub fn boilerplate_list() -> (r: Vec<&'static str>)
    ensures
        str_views(r@) == boilerplate_phrases(),
{
    let r = vec![
        "카드이용내역",
        "매출전표",
        "상세 이용내역",
        "하나카드",
        "현대카드",
        "결제 정보",
        "결제 구분",
        "결제 카드",
        "금액 상세",
        "카드번호",
        "카드 소지자",
        "가상카드번호",
        "거래유형",
        "거래구분",
        "일시불",
        "승인번호",
        "승인상태",
        "거래상태",
        "이용카드",
        "결제확정",
        "현지승인금액",
        "CNY",
        "USD",
        "JPY",
        "EUR",
        "VISA",
        "MasterCard",
        "UnionPay",
        "실제 결제금액",
        "해외이용수수료",
        "가맹점 번호",
        "가맹점 상세",
        "대표자명",
        "사업자 등록번호",
        "업종",
    ];
    assert(str_views(r@) =~= boilerplate_phrases());
    r
}

/// A line that holds one of the boilerplate phrases.
pub open spec fn is_boilerplate(t: Seq<char>) -> bool {
    contains_any(t, boilerplate_phrases())
}

/// A line that may name the merchant: not blank, and no boilerplate.
pub open spec fn is_candidate(t: Seq<char>) -> bool {
    t.len() > 0 && !is_boilerplate(t)
}

/// The index of the first line at or after `i` that is not blank and in
/// which an amount stands; the number of lines where there is none.
pub open spec fn first_amount_line(ls: Seq<Seq<char>>, flags: Seq<bool>, i: int) -> int
    decreases ls.len() - i,
{
    if i < 0 || i >= ls.len() || i >= flags.len() {
        ls.len() as int
    } else if ls[i].len() > 0 && flags[i] {
        i
    } else {
        first_amount_line(ls, flags, i + 1)
    }
}

/// The last candidate among the lines from `i` up to the first amount line,
/// or `kept` where there is none.
pub open spec fn last_candidate_from(
    ls: Seq<Seq<char>>,
    flags: Seq<bool>,
    i: int,
    kept: Seq<char>,
) -> Seq<char>
    decreases ls.len() - i,
{
    if i < 0 || i >= ls.len() || i >= flags.len() {
        kept
    } else if ls[i].len() == 0 {
        last_candidate_from(ls, flags, i + 1, kept)
    } else if flags[i] {
        kept
    } else if is_boilerplate(ls[i]) {
        last_candidate_from(ls, flags, i + 1, kept)
    } else {
        last_candidate_from(ls, flags, i + 1, ls[i])
    }
}

/// The merchant that the lines of `text` name when no label does.
pub open spec fn merchant_before_amount(text: Seq<char>) -> Seq<char> {
    last_candidate_from(trimmed_lines(text), amount_flags(trimmed_lines(text)), 0, Seq::empty())
}

/// From line `i` on, the scan gives the last candidate before the first
/// amount line, and what it had kept where there is no candidate.
pub proof fn lemma_last_candidate_from(
    ls: Seq<Seq<char>>,
    flags: Seq<bool>,
    i: int,
    kept: Seq<char>,
)
    requires
        flags.len() == ls.len(),
        0 <= i <= ls.len(),
    ensures
        i <= first_amount_line(ls, flags, i) <= ls.len(),
        (forall|j: int| i <= j < first_amount_line(ls, flags, i) ==> !is_candidate(#[trigger] ls[j]))
            ==> last_candidate_from(ls, flags, i, kept) == kept,
        forall|j: int|
            i <= j < first_amount_line(ls, flags, i) && is_candidate(#[trigger] ls[j]) && (forall|
                k: int,
            |
                j < k < first_amount_line(ls, flags, i) ==> !is_candidate(#[trigger] ls[k]))
                ==> last_candidate_from(ls, flags, i, kept) == ls[j],
    decreases ls.len() - i,
{
    if i < ls.len() && !(ls[i].len() > 0 && flags[i]) {
        let stop = first_amount_line(ls, flags, i);
        if is_candidate(ls[i]) {
            lemma_last_candidate_from(ls, flags, i + 1, ls[i]);
            assert forall|j: int|
                i <= j < stop && is_candidate(#[trigger] ls[j]) && (forall|k: int|
                    j < k < stop ==> !is_candidate(#[trigger] ls[k])) implies last_candidate_from(
                ls,
                flags,
                i,
                kept,
            ) == ls[j] by {
                if j == i {
                    assert(forall|k: int| i + 1 <= k < stop ==> !is_candidate(#[trigger] ls[k]));
                }
            }
        } else {
            lemma_last_candidate_from(ls, flags, i + 1, kept);
        }
    }
}

/// Where no label names the merchant, the merchant is the last line that is
/// neither blank nor boilerplate among those above the first line in which
/// an amount stands; it is empty where every line above it is blank or
/// boilerplate.
pub proof fn lemma_merchant_fallback(ls: Seq<Seq<char>>, flags: Seq<bool>)
    requires
        flags.len() == ls.len(),
    ensures
        ({
            let stop = first_amount_line(ls, flags, 0);
            let r = last_candidate_from(ls, flags, 0, Seq::empty());
            &&& 0 <= stop <= ls.len()
            &&& (forall|j: int| 0 <= j < stop ==> !is_candidate(#[trigger] ls[j])) ==> r
                == Seq::<char>::empty()
            &&& forall|j: int|
                0 <= j < stop && is_candidate(#[trigger] ls[j]) && (forall|k: int|
                    j < k < stop ==> !is_candidate(#[trigger] ls[k])) ==> r == ls[j]
        }),
{
    lemma_last_candidate_from(ls, flags, 0, Seq::empty());
}

/// The last candidate above the first amount line, given the trimmed lines
/// and, for each, whether an amount stands in it.
pub fn merchant_above_amount(ls: &Vec<Vec<char>>, flags: &Vec<bool>) -> (r: Vec<char>)
    requires
        flags.len() == ls.len(),
    ensures
        r@ == last_candidate_from(views(ls@), flags@, 0, Seq::empty()),
{
    let phrases = boilerplate_list();
    let mut kept: Vec<char> = Vec::new();
    let mut i: usize = 0;
    while i < ls.len()
        invariant
            i <= ls.len(),
            flags.len() == ls.len(),
            str_views(phrases@) == boilerplate_phrases(),
            last_candidate_from(views(ls@), flags@, 0, Seq::empty()) == last_candidate_from(
                views(ls@),
                flags@,
                i as int,
                kept@,
            ),
        decreases ls.len() - i,
    {
        assert(views(ls@)[i as int] == ls@[i as int]@);
        let t = &ls[i];
        if t.len() > 0 {
            if flags[i] {
                return kept;
            }
            if !has_any(t, &phrases) {
                kept = slice_of(t, 0, t.len());
                assert(kept@ == t@) by {
                    assert(t@.subrange(0, t.len() as int) == t@);
                }
            }
        }
        i += 1;
    }
    kept
}

/// The merchant that the lines of `text` name when no label does: the last
/// line that is neither blank nor boilerplate above the first line in which
/// an amount stands; empty where there is none.
pub fn extract_merchant_before_amount(text: &str) -> (r: String)
    ensures
        r@ == merchant_before_amount(text@),
{
    let ls = trimmed_lines_of(text);
    let flags = amount_flags_of(&ls);
    let kept = merchant_above_amount(&ls, &flags);
    string_of(&kept)
}

// ---------------------------------------------------------------------
// Date and time
// ---------------------------------------------------------------------

/// The date line of the first layout: label, four-digit year, month, day,
/// then hours, minutes and, where they are given, seconds.
pub const HANA_DATE: &'static str =
    r"거래일시\s+(\d{4})[.\s](\d{2})[.\s](\d{2})\s*(\d{2}):(\d{2}):?(\d{2})?";

/// The date line of the second layout: label, two-digit year, month and day
/// of one or two digits, a mark, then the time.
pub const NAVER_DATE: &'static str =
    r"거래\s*일자\s+(\d{2})[.\s]+(\d{1,2})[.\s]+(\d{1,2})\s*[·\-:]\s*(\d{2}):(\d{2}):?(\d{2})?";

/// The date line of the second layout with a label that recognition has
/// pulled apart, and dots after year and month.
pub const NAVER_DATE_DOTTED: &'static str =
    r"거래\s*일\s*자\s+(\d{2})\.\s*(\d{1,2})\.\s*(\d{1,2})\s*[·\-]\s*(\d{2}):(\d{2}):?(\d{2})?";

/// The date line of the third layout, with seconds where they are given.
/// It is tried first, so that seconds that are given are read.
pub const APP_DATE_SECONDS: &'static str =
    r"거래일\s+(\d{4})[.\s](\d{2})[.\s](\d{2})\s*(\d{2}):(\d{2}):?(\d{2})?";

/// The date line of the third layout, to the minute.
pub const APP_DATE: &'static str = r"거래일\s+(\d{4})[.\s](\d{2})[.\s](\d{2})\s+(\d{2}):(\d{2})";

/// Groups 1 to 5 of a match all took part in it.
pub open spec fn has_date_groups(g: Seq<Option<Seq<char>>>) -> bool {
    group(g, 1).is_some() && group(g, 2).is_some() && group(g, 3).is_some() && group(
        g,
        4,
    ).is_some() && group(g, 5).is_some()
}

/// The time of day of a match in the form `hh:mm:ss`: groups 4 and 5, and
/// group 6 for the seconds, or `00` where the match has none.
pub open spec fn clock_text(g: Seq<Option<Seq<char>>>) -> Seq<char> {
    group(g, 4).unwrap() + seq![':'] + group(g, 5).unwrap() + seq![':'] + (match group(g, 6) {
        Some(t) => t,
        None => seq!['0', '0'],
    })
}

/// The date text of a match whose year has four digits: the groups as they
/// stand, in the form `year-month-day hh:mm:ss`.
pub open spec fn plain_date_text(g: Seq<Option<Seq<char>>>) -> Option<Seq<char>> {
    if has_date_groups(g) {
        Some(
            group(g, 1).unwrap() + seq!['-'] + group(g, 2).unwrap() + seq!['-'] + group(
                g,
                3,
            ).unwrap() + seq![' '] + clock_text(g),
        )
    } else {
        None
    }
}

/// The year that a two-digit year `t` stands for: 2000 and the number; none
/// where `t` is no number, or the sum is beyond `i32`.
pub open spec fn full_year(t: Seq<char>) -> Option<int> {
    match parsed_i32(t) {
        Some(v) if 2000 + v <= i32::MAX => Some(2000 + v),
        _ => None,
    }
}

/// The month or day that `t` stands for; none where `t` is no number.
pub open spec fn month_or_day(t: Seq<char>) -> Option<nat> {
    parsed_unsigned(t, u32::MAX as nat)
}

/// The date text of a match whose year has two digits: the full year, month
/// and day as two digits each, and the time as it stands; none where year,
/// month or day is no number.
pub open spec fn short_year_date_text(g: Seq<Option<Seq<char>>>) -> Option<Seq<char>> {
    if has_date_groups(g) {
        match (
            full_year(group(g, 1).unwrap()),
            month_or_day(group(g, 2).unwrap()),
            month_or_day(group(g, 3).unwrap()),
        ) {
            (Some(y), Some(month), Some(day)) => Some(
                signed_digits(y) + seq!['-'] + zero_padded(month, 2) + seq!['-'] + zero_padded(
                    day,
                    2,
                ) + seq![' '] + clock_text(g),
            ),
            _ => None,
        }
    } else {
        None
    }
}

/// The date text of a search result.
pub open spec fn date_text(m: Option<Seq<Option<Seq<char>>>>, short_year: bool) -> Option<
    Seq<char>,
> {
    match m {
        Some(g) => if short_year {
            short_year_date_text(g)
        } else {
            plain_date_text(g)
        },
        None => None,
    }
}

/// The date that a search result stands for.
pub open spec fn date_of_match(m: Option<Seq<Option<Seq<char>>>>, short_year: bool) -> Option<
    DateTime,
> {
    match date_text(m, short_year) {
        Some(t) => parsed(t, LAYOUT_SECONDS@),
        None => None,
    }
}

/// The first of two search results that is a match.
pub open spec fn or_match(
    a: Option<Seq<Option<Seq<char>>>>,
    b: Option<Seq<Option<Seq<char>>>>,
) -> Option<Seq<Option<Seq<char>>>> {
    if a.is_some() {
        a
    } else {
        b
    }
}

/// The date of a text of the given layout; none for the unknown layout.
pub open spec fn date_in(text: Seq<char>, format: CardFormat) -> Option<DateTime> {
    match format {
        CardFormat::HanaCard => date_of_match(first_match(HANA_DATE@, text), false),
        CardFormat::NaverHyundaiCard => date_of_match(
            or_match(first_match(NAVER_DATE@, text), first_match(NAVER_DATE_DOTTED@, text)),
            true,
        ),
        CardFormat::CardAppScreenshot => date_of_match(
            or_match(first_match(APP_DATE_SECONDS@, text), first_match(APP_DATE@, text)),
            false,
        ),
        CardFormat::Unknown => None,
    }
}

/// What the groups of a search result hold.
pub open spec fn match_view(m: Option<Groups>) -> Option<Seq<Option<Seq<char>>>> {
    match m {
        Some(g) => Some(groups_view(g@)),
        None => None,
    }
}

/// Appends group `i` of `g` to `out`.
fn push_group(out: &mut Vec<char>, g: &Groups, i: usize)
    requires
        group(groups_view(g@), i as int).is_some(),
    ensures
        final(out)@ == old(out)@ + group(groups_view(g@), i as int).unwrap(),
{
    match &g[i] {
        Some(t) => append_str(out, t.as_str()),
        None => {},
    }
}

/// Whether groups 1 to 5 of `g` all took part in the match.
fn date_groups_present(g: &Groups) -> (r: bool)
    ensures
        r == has_date_groups(groups_view(g@)),
{
    g.len() >= 6 && g[1].is_some() && g[2].is_some() && g[3].is_some() && g[4].is_some()
        && g[5].is_some()
}

/// Appends the time of day of `g` to `out`.
fn push_clock(out: &mut Vec<char>, g: &Groups)
    requires
        has_date_groups(groups_view(g@)),
    ensures
        final(out)@ == old(out)@ + clock_text(groups_view(g@)),
{
    let ghost v = groups_view(g@);
    push_group(out, g, 4);
    out.push(':');
    push_group(out, g, 5);
    out.push(':');
    if g.len() > 6 && g[6].is_some() {
        push_group(out, g, 6);
    } else {
        out.push('0');
        out.push('0');
    }
    assert(out@ =~= old(out)@ + clock_text(v));
}

/// The date text of a match whose year has four digits.
pub fn plain_date_text_of(g: &Groups) -> (r: Option<String>)
    ensures
        match r {
            Some(t) => plain_date_text(groups_view(g@)) == Some(t@),
            None => plain_date_text(groups_view(g@)).is_none(),
        },
{
    if !date_groups_present(g) {
        return None;
    }
    let ghost v = groups_view(g@);
    let mut out: Vec<char> = Vec::new();
    push_group(&mut out, g, 1);
    out.push('-');
    push_group(&mut out, g, 2);
    out.push('-');
    push_group(&mut out, g, 3);
    out.push(' ');
    let ghost before = out@;
    push_clock(&mut out, g);
    assert(out@ =~= plain_date_text(v).unwrap()) by {
        assert(before =~= group(v, 1).unwrap() + seq!['-'] + group(v, 2).unwrap() + seq!['-']
            + group(v, 3).unwrap() + seq![' ']);
    }
    Some(string_of(&out))
}

/// The year that the two-digit year `t` stands for.
pub fn full_year_of(t: &str) -> (r: Option<i32>)
    ensures
        match r {
            Some(y) => full_year(t@) == Some(y as int),
            None => full_year(t@).is_none(),
        },
{
    match parse_i32(&to_chars(t)) {
        Some(v) => if v <= i32::MAX - 2000 {
            Some(2000 + v)
        } else {
            None
        },
        None => None,
    }
}

/// The month or day that `t` stands for.
pub fn month_or_day_of(t: &str) -> (r: Option<u32>)
    ensures
        match r {
            Some(v) => month_or_day(t@) == Some(v as nat),
            None => month_or_day(t@).is_none(),
        },
{
    match parse_unsigned(&to_chars(t), 0xffff_ffff) {
        Some(v) => Some(v as u32),
        None => None,
    }
}

/// The date text of a match whose year has two digits.
pub fn short_year_date_text_of(g: &Groups) -> (r: Option<String>)
    ensures
        match r {
            Some(t) => short_year_date_text(groups_view(g@)) == Some(t@),
            None => short_year_date_text(groups_view(g@)).is_none(),
        },
{
    if !date_groups_present(g) {
        return None;
    }
    let ghost v = groups_view(g@);
    let (year, month, day) = match (&g[1], &g[2], &g[3]) {
        (Some(y), Some(m), Some(d)) => (
            full_year_of(y.as_str()),
            month_or_day_of(m.as_str()),
            month_or_day_of(d.as_str()),
        ),
        _ => (None, None, None),
    };
    match (year, month, day) {
        (Some(y), Some(month), Some(day)) => {
            let mut out: Vec<char> = Vec::new();
            push_signed(&mut out, y);
            out.push('-');
            push_padded(&mut out, month as u64, 2);
            out.push('-');
            push_padded(&mut out, day as u64, 2);
            out.push(' ');
            let ghost before = out@;
            push_clock(&mut out, g);
            assert(out@ =~= short_year_date_text(v).unwrap()) by {
                assert(before =~= signed_digits(y as int) + seq!['-'] + zero_padded(
                    month as nat,
                    2,
                ) + seq!['-'] + zero_padded(day as nat, 2) + seq![' ']);
            }
            Some(string_of(&out))
        },
        _ => None,
    }
}

/// The date that a search result `m` stands for: its date text, built as the
/// layout asks, and read as a date.
pub fn date_of(m: &Option<Groups>, short_year: bool, format: CardFormat) -> (r: Result<
    DateTime,
    ParseError,
>)
    ensures
        match r {
            Ok(t) => date_of_match(match_view(*m), short_year) == Some(t) && t.wf(),
            Err(e) => date_of_match(match_view(*m), short_year).is_none() && e
                == ParseError::DateNotFound(format),
        },
{
    let text = match m {
        Some(g) => if short_year {
            short_year_date_text_of(g)
        } else {
            plain_date_text_of(g)
        },
        None => None,
    };
    match text {
        Some(t) => match parse(t.as_str(), LAYOUT_SECONDS) {
            Some(d) => Ok(d),
            None => Err(ParseError::DateNotFound(format)),
        },
        None => Err(ParseError::DateNotFound(format)),
    }
}

// ---------------------------------------------------------------------
// The three layouts
// ---------------------------------------------------------------------

/// The first of two attempts that found something.
pub open spec fn or_else<T>(a: Option<T>, b: Option<T>) -> Option<T> {
    if a.is_some() {
        a
    } else {
        b
    }
}

/// The amount of a text of the given layout. Each layout has its label; a
/// text without it gives its first amount, and in the two layouts that list
/// tax and fee before the total, its first amount above zero before that.
pub open spec fn amount_in_layout(text: Seq<char>, format: CardFormat) -> Option<u64> {
    match format {
        CardFormat::HanaCard => or_else(labeled_amount(text, "승인금액"@), first_amount(text)),
        CardFormat::NaverHyundaiCard => or_else(
            or_else(labeled_amount(text, "금액"@), first_nonzero_amount(text)),
            first_amount(text),
        ),
        CardFormat::CardAppScreenshot => or_else(
            or_else(labeled_amount(text, "공급가액"@), first_nonzero_amount(text)),
            first_amount(text),
        ),
        CardFormat::Unknown => None,
    }
}

/// The merchant of a text of the given layout; empty where nothing names it.
pub open spec fn merchant_in_layout(text: Seq<char>, format: CardFormat) -> Seq<char> {
    match format {
        CardFormat::HanaCard => match text_after_label(text, "가맹점명"@) {
            Some(t) => t,
            None => merchant_before_amount(text),
        },
        CardFormat::NaverHyundaiCard => merchant_before_amount(text),
        CardFormat::CardAppScreenshot => match or_else(
            detail_merchant(text),
            text_after_label(text, "상세 이용내역"@),
        ) {
            Some(t) => t,
            None => merchant_before_amount(text),
        },
        CardFormat::Unknown => Seq::empty(),
    }
}

/// Date, merchant and amount of a text read as one of the three layouts:
/// the date must be found, then the amount; the merchant may be empty.
pub open spec fn extracted_as(text: Seq<char>, format: CardFormat) -> Result<
    (DateTime, Seq<char>, u64),
    ParseError,
> {
    match date_in(text, format) {
        None => Err(ParseError::DateNotFound(format)),
        Some(d) => match amount_in_layout(text, format) {
            None => Err(ParseError::AmountNotFound),
            Some(a) => Ok((d, merchant_in_layout(text, format), a)),
        },
    }
}

/// Date, merchant and amount of a text of unknown layout: what the first of
/// the three layouts gives that reads all of it.
pub open spec fn extracted_any(text: Seq<char>) -> Result<(DateTime, Seq<char>, u64), ParseError> {
    if extracted_as(text, CardFormat::HanaCard).is_ok() {
        extracted_as(text, CardFormat::HanaCard)
    } else if extracted_as(text, CardFormat::NaverHyundaiCard).is_ok() {
        extracted_as(text, CardFormat::NaverHyundaiCard)
    } else if extracted_as(text, CardFormat::CardAppScreenshot).is_ok() {
        extracted_as(text, CardFormat::CardAppScreenshot)
    } else {
        Err(ParseError::UnrecognizedFormat)
    }
}

/// Date, merchant and amount of a text, given its layout.
pub open spec fn extracted(text: Seq<char>, format: CardFormat) -> Result<
    (DateTime, Seq<char>, u64),
    ParseError,
> {
    if format == CardFormat::Unknown {
        extracted_any(text)
    } else {
        extracted_as(text, format)
    }
}

/// `r` is `s`, the merchant taken by what it holds.
pub open spec fn is_extraction(
    r: Result<(DateTime, String, u64), ParseError>,
    s: Result<(DateTime, Seq<char>, u64), ParseError>,
) -> bool {
    match r {
        Ok((d, m, a)) => s == Ok::<(DateTime, Seq<char>, u64), ParseError>((d, m@, a)) && d.wf(),
        Err(e) => s == Err::<(DateTime, Seq<char>, u64), ParseError>(e),
    }
}

/// The first of two search results that is a match.
fn first_of(a: Option<Groups>, text: &str, second: &str) -> (r: Option<Groups>)
    ensures
        match_view(r) == or_match(match_view(a), first_match(second@, text@)),
{
    match a {
        Some(g) => Some(g),
        None => captures(second, text),
    }
}

/// Reads `text` as a receipt of the first layout.
pub fn parse_hana_card(text: &str) -> (r: Result<(DateTime, String, u64), ParseError>)
    ensures
        is_extraction(r, extracted_as(text@, CardFormat::HanaCard)),
{
    let m = captures(HANA_DATE, text);
    let datetime = match date_of(&m, false, CardFormat::HanaCard) {
        Ok(d) => d,
        Err(e) => {
            return Err(e);
        },
    };
    let amount = match extract_amount_after_label(text, "승인금액") {
        Ok(a) => a,
        Err(_) => match extract_first_amount(text) {
            Ok(a) => a,
            Err(e) => {
                return Err(e);
            },
        },
    };
    let merchant = match extract_text_after_label(text, "가맹점명") {
        Some(t) => t,
        None => extract_merchant_before_amount(text),
    };
    Ok((datetime, merchant, amount))
}

/// The amount of a text of the second or third layout, whose label is
/// `label`.
fn amount_with_subtotals(text: &str, label: &str) -> (r: Result<u64, ParseError>)
    ensures
        r == amount_result(
            or_else(
                or_else(labeled_amount(text@, label@), first_nonzero_amount(text@)),
                first_amount(text@),
            ),
        ),
{
    match extract_amount_after_label(text, label) {
        Ok(a) => Ok(a),
        Err(_) => match extract_first_nonzero_amount(text) {
            Ok(a) => Ok(a),
            Err(_) => extract_first_amount(text),
        },
    }
}

/// Reads `text` as a receipt of the second layout.
pub fn parse_naver_hyundai(text: &str) -> (r: Result<(DateTime, String, u64), ParseError>)
    ensures
        is_extraction(r, extracted_as(text@, CardFormat::NaverHyundaiCard)),
{
    let m = first_of(captures(NAVER_DATE, text), text, NAVER_DATE_DOTTED);
    let datetime = match date_of(&m, true, CardFormat::NaverHyundaiCard) {
        Ok(d) => d,
        Err(e) => {
            return Err(e);
        },
    };
    let amount = match amount_with_subtotals(text, "금액") {
        Ok(a) => a,
        Err(e) => {
            return Err(e);
        },
    };
    let merchant = extract_merchant_before_amount(text);
    Ok((datetime, merchant, amount))
}

/// Reads `text` as a receipt of the third layout.
pub fn parse_card_app_screenshot(text: &str) -> (r: Result<(DateTime, String, u64), ParseError>)
    ensures
        is_extraction(r, extracted_as(text@, CardFormat::CardAppScreenshot)),
{
    let m = first_of(captures(APP_DATE_SECONDS, text), text, APP_DATE);
    let datetime = match date_of(&m, false, CardFormat::CardAppScreenshot) {
        Ok(d) => d,
        Err(e) => {
            return Err(e);
        },
    };
    let amount = match amount_with_subtotals(text, "공급가액") {
        Ok(a) => a,
        Err(e) => {
            return Err(e);
        },
    };
    let merchant = match extract_merchant_from_card_detail(text) {
        Some(t) => t,
        None => match extract_text_after_label(text, "상세 이용내역") {
            Some(t) => t,
            None => extract_merchant_before_amount(text),
        },
    };
    Ok((datetime, merchant, amount))
}

/// Reads `text` as each of the three layouts in turn; the first that reads
/// all of it decides.
pub fn parse_fallback(text: &str) -> (r: Result<(DateTime, String, u64), ParseError>)
    ensures
        is_extraction(r, extracted_any(text@)),
{
    match parse_hana_card(text) {
        Ok(v) => Ok(v),
        Err(_) => match parse_naver_hyundai(text) {
            Ok(v) => Ok(v),
            Err(_) => match parse_card_app_screenshot(text) {
                Ok(v) => Ok(v),
                Err(_) => Err(ParseError::UnrecognizedFormat),
            },
        },
    }
}

/// Date, merchant and amount of `text`, read as `format`.
pub fn extract(format: CardFormat, text: &str) -> (r: Result<(DateTime, String, u64), ParseError>)
    ensures
        is_extraction(r, extracted(text@, format)),
{
    match format {
        CardFormat::HanaCard => parse_hana_card(text),
        CardFormat::NaverHyundaiCard => parse_naver_hyundai(text),
        CardFormat::CardAppScreenshot => parse_card_app_screenshot(text),
        CardFormat::Unknown => parse_fallback(text),
    }
}

/// The payment that the recognized text of a receipt states: the layout is
/// told from the text, and date, merchant and amount are read as that layout
/// asks. The record has no expense type and no image yet.
pub fn parse_receipt(filename: &str, raw_text: &str) -> (r: Result<CardTransaction, ParseError>)
    ensures
        match r {
            Ok(t) => {
                &&& extracted(raw_text@, format_of(raw_text@)) == Ok::<
                    (DateTime, Seq<char>, u64),
                    ParseError,
                >((t.datetime, t.merchant@, t.amount))
                &&& t.filename@ == filename@
                &&& t.raw_ocr_text@ == raw_text@
                &&& t.card_format == format_of(raw_text@)
                &&& t.expense_type.is_none()
                &&& t.image_bytes@.len() == 0
                &&& t.wf()
            },
            Err(e) => extracted(raw_text@, format_of(raw_text@)) == Err::<
                (DateTime, Seq<char>, u64),
                ParseError,
            >(e),
        },
{
    let format = detect_format(raw_text);
    match extract(format, raw_text) {
        Ok((datetime, merchant, amount)) => Ok(
            CardTransaction {
                filename: filename.to_owned(),
                datetime,
                merchant,
                amount,
                raw_ocr_text: raw_text.to_owned(),
                card_format: format,
                expense_type: None,
                image_bytes: Vec::new(),
            },
        ),
        Err(e) => Err(e),
    }
}

// ---------------------------------------------------------------------
// Laws
// ---------------------------------------------------------------------

/// An amount written with thousands separators reads back as itself.
pub proof fn lemma_amount_round_trip(amount: u64)
    ensures
        krw_amount(grouped(digits_of(amount as nat))) == Some(amount),
{
    lemma_digits_round_trip(amount as nat);
    lemma_grouped_digits(digits_of(amount as nat));
}

/// A text of digits only, which stands for a number within `i32`, reads as
/// that number.
proof fn lemma_digits_parse(t: Seq<char>)
    requires
        t.len() > 0,
        all_digits(t),
        value_of(t) <= 0x7fff_ffff,
    ensures
        parsed_i32(t) == Some(value_of(t) as int),
        parsed_unsigned(t, u32::MAX as nat) == Some(value_of(t)),
{
    assert(is_digit(t[0]));
}

/// A year of two digits stands for 2000 and its number.
pub proof fn lemma_two_digit_year(v: nat)
    requires
        v < 100,
    ensures
        full_year(zero_padded(v, 2)) == Some(2000 + v as int),
{
    lemma_zero_padded(v, 2);
    lemma_digits_parse(zero_padded(v, 2));
}

/// Where a match has no seconds, its date text is that of the same match
/// with the seconds `00`.
pub proof fn lemma_missing_seconds_are_zero(g: Seq<Option<Seq<char>>>, h: Seq<Option<Seq<char>>>)
    requires
        forall|i: int| 1 <= i <= 5 ==> group(g, i) == group(h, i),
        group(g, 6).is_none(),
        group(h, 6) == Some(seq!['0', '0']),
    ensures
        plain_date_text(g) == plain_date_text(h),
        short_year_date_text(g) == short_year_date_text(h),
{
}

/// One date in the years 2000 to 2099, written with a year of four digits
/// as the first and third layout have it and with a year of two digits as
/// the second has it, month and day with or without a zero in front, is
/// read as the same date.
pub proof fn lemma_layouts_agree(
    year: nat,
    month: nat,
    day: nat,
    plain: Seq<Option<Seq<char>>>,
    short: Seq<Option<Seq<char>>>,
)
    requires
        2000 <= year <= 2099,
        1 <= month <= 12,
        1 <= day <= 31,
        has_date_groups(plain),
        has_date_groups(short),
        group(plain, 1) == Some(digits_of(year)),
        group(plain, 2) == Some(zero_padded(month, 2)),
        group(plain, 3) == Some(zero_padded(day, 2)),
        group(short, 1) == Some(zero_padded((year - 2000) as nat, 2)),
        group(short, 2) == Some(digits_of(month)) || group(short, 2) == Some(
            zero_padded(month, 2),
        ),
        group(short, 3) == Some(digits_of(day)) || group(short, 3) == Some(zero_padded(day, 2)),
        forall|i: int| 4 <= i <= 6 ==> group(plain, i) == group(short, i),
    ensures
        plain_date_text(plain) == short_year_date_text(short),
        date_of_match(Some(plain), false) == date_of_match(Some(short), true),
{
    lemma_two_digit_year((year - 2000) as nat);
    lemma_zero_padded(month, 2);
    lemma_zero_padded(day, 2);
    lemma_digits_round_trip(month);
    lemma_digits_round_trip(day);
    lemma_digits_parse(group(short, 2).unwrap());
    lemma_digits_parse(group(short, 3).unwrap());
    assert(clock_text(plain) == clock_text(short));
}

} // verus!
