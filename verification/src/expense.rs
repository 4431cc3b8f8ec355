//! The expense type that a merchant's name suggests.
//!
//! A fixed table of rules, each a list of keywords: the first rule of which
//! the name holds a keyword decides.

use crate::text::{contains_any, has_any, str_views, to_chars, trim, trimmed};
use vstd::prelude::*;

verus! {

/// An expense type suggested for a merchant.
#[derive(Clone, Debug)]
pub struct ExpenseRecommendation {
    /// The label shown, such as "Taxi".
    pub label: String,
    /// The category of the accounting system.
    pub category: String,
    /// Whether the fee note has two lines, the label and the merchant.
    pub two_line: bool,
}

/// One rule of the table.
pub struct Rule {
    pub keywords: Vec<&'static str>,
    pub category: &'static str,
    pub label: &'static str,
    pub two_line: bool,
}

/// What a rule holds.
pub struct RuleView {
    pub keywords: Seq<Seq<char>>,
    pub category: Seq<char>,
    pub label: Seq<char>,
    pub two_line: bool,
}

impl Rule {
    pub open spec fn view(&self) -> RuleView {
        RuleView {
            keywords: str_views(self.keywords@),
            category: self.category@,
            label: self.label@,
            two_line: self.two_line,
        }
    }
}

/// The number of rules.
pub const RULE_COUNT: usize = 7;

/// Rule `i` of the table.
pub open spec fn rule_at(i: int) -> RuleView {
    if i == 0 {
        RuleView {
            keywords: seq!["파이낸셜"@, "네이버파이낸셜"@],
            category: "办公费(Office expenses)"@,
            label: "Office expense"@,
            two_line: true,
        }
    } else if i == 1 {
        RuleView {
            keywords: seq!["텔레콤"@, "통신"@, "KT"@, "SKT"@, "LGU"@],
            category: "通讯费(Communication service fee)"@,
            label: "Telecom"@,
            two_line: true,
        }
    } else if i == 2 {
        RuleView {
            keywords: seq![
                "흥덕"@,
                "식당"@,
                "레스토랑"@,
                "카페"@,
                "음식"@,
                "투다리"@,
                "치킨"@,
                "피자"@,
            ],
            category: "业务招待(Entertainment expenses)"@,
            label: "Business meal"@,
            two_line: true,
        }
    } else if i == 3 {
        RuleView {
            keywords: seq!["카카오모빌리티"@, "택시"@, "DIDI"@, "Taxi"@, "taxi"@],
            category: "市内交通(Traffic expense in base city)"@,
            label: "Taxi"@,
            two_line: false,
        }
    } else if i == 4 {
        RuleView {
            keywords: seq!["스타한국물류"@, "물류"@, "택배"@, "배송"@, "CJ대한통운"@],
            category: "快递费(Express fee)"@,
            label: "Express"@,
            two_line: false,
        }
    } else if i == 5 {
        RuleView {
            keywords: seq!["하이패스"@, "도로공사"@, "순환도로"@, "하이웨이"@, "톨게이트"@],
            category: "车辆费(Vehicle expense)"@,
            label: "Tallgate(ETC)"@,
            two_line: false,
        }
    } else {
        RuleView {
            keywords: seq!["주유소"@, "에너지"@, "GS칼텍스"@, "현대오일"@],
            category: "车辆费(Vehicle expense)"@,
            label: "Gas"@,
            two_line: false,
        }
    }
}

/// Rule `i` of the table.
pub fn rule(i: usize) -> (r: Rule)
    requires
        i < RULE_COUNT,
    ensures
        r@ == rule_at(i as int),
{
    let r = if i == 0 {
        Rule {
            keywords: vec!["파이낸셜", "네이버파이낸셜"],
            category: "办公费(Office expenses)",
            label: "Office expense",
            two_line: true,
        }
    } else if i == 1 {
        Rule {
            keywords: vec!["텔레콤", "통신", "KT", "SKT", "LGU"],
            category: "通讯费(Communication service fee)",
            label: "Telecom",
            two_line: true,
        }
    } else if i == 2 {
        Rule {
            keywords: vec!["흥덕", "식당", "레스토랑", "카페", "음식", "투다리", "치킨", "피자"],
            category: "业务招待(Entertainment expenses)",
            label: "Business meal",
            two_line: true,
        }
    } else if i == 3 {
        Rule {
            keywords: vec!["카카오모빌리티", "택시", "DIDI", "Taxi", "taxi"],
            category: "市内交通(Traffic expense in base city)",
            label: "Taxi",
            two_line: false,
        }
    } else if i == 4 {
        Rule {
            keywords: vec!["스타한국물류", "물류", "택배", "배송", "CJ대한통운"],
            category: "快递费(Express fee)",
            label: "Express",
            two_line: false,
        }
    } else if i == 5 {
        Rule {
            keywords: vec!["하이패스", "도로공사", "순환도로", "하이웨이", "톨게이트"],
            category: "车辆费(Vehicle expense)",
            label: "Tallgate(ETC)",
            two_line: false,
        }
    } else {
        Rule {
            keywords: vec!["주유소", "에너지", "GS칼텍스", "현대오일"],
            category: "车辆费(Vehicle expense)",
            label: "Gas",
            two_line: false,
        }
    };
    assert(str_views(r.keywords@) =~= rule_at(i as int).keywords);
    r
}

/// The labels that are expense types already, and need no suggestion.
pub open spec fn known_labels() -> Seq<Seq<char>> {
    seq!["Gas"@, "Tallgate"@, "Highpass"@, "Taxi"@, "Express"@, "Telecom"@]
}

/// The labels that are expense types already.
pub fn known_label_list() -> (r: Vec<&'static str>)
    ensures
        str_views(r@) == known_labels(),
{
    let r = vec!["Gas", "Tallgate", "Highpass", "Taxi", "Express", "Telecom"];
    assert(str_views(r@) =~= known_labels());
    r
}

/// The first rule at or after `i` of which `name` holds a keyword; the
/// number of rules where there is none.
pub open spec fn first_rule_from(name: Seq<char>, i: int) -> int
    decreases RULE_COUNT - i,
{
    if i < 0 || i >= RULE_COUNT {
        RULE_COUNT as int
    } else if contains_any(name, rule_at(i).keywords) {
        i
    } else {
        first_rule_from(name, i + 1)
    }
}

/// The rule that decides for a merchant: none where the trimmed name is a
/// known label, or holds no keyword of any rule.
pub open spec fn suggested_rule(merchant: Seq<char>) -> Option<RuleView> {
    let name = trimmed(merchant);
    if known_labels().contains(name) || first_rule_from(name, 0) >= RULE_COUNT {
        None
    } else {
        Some(rule_at(first_rule_from(name, 0)))
    }
}

/// Whether `name` is one of `labels`.
pub fn is_one_of(name: &Vec<char>, labels: &Vec<&'static str>) -> (r: bool)
    ensures
        r == str_views(labels@).contains(name@),
{
    let mut k: usize = 0;
    while k < labels.len()
        invariant
            k <= labels.len(),
            forall|j: int| 0 <= j < k ==> #[trigger] str_views(labels@)[j] != name@,
        decreases labels.len() - k,
    {
        assert(str_views(labels@)[k as int] == labels@[k as int]@);
        let l = to_chars(labels[k]);
        if crate::text::chars_eq(&l, name) {
            return true;
        }
        k += 1;
    }
    false
}

/// The expense type that the name of a merchant suggests, by the first rule
/// of which the name holds a keyword. A name that is an expense type
/// already gets none.
pub fn detect_expense(merchant: &str) -> (r: Option<ExpenseRecommendation>)
    ensures
        match r {
            Some(e) => suggested_rule(merchant@) matches Some(rule) && e.label@ == rule.label
                && e.category@ == rule.category && e.two_line == rule.two_line,
            None => suggested_rule(merchant@).is_none(),
        },
{
    let name = trim(&to_chars(merchant));
    let known = known_label_list();
    if is_one_of(&name, &known) {
        return None;
    }
    let mut i: usize = 0;
    while i < RULE_COUNT
        invariant
            i <= RULE_COUNT,
            name@ == trimmed(merchant@),
            !known_labels().contains(name@),
            first_rule_from(name@, 0) == first_rule_from(name@, i as int),
        decreases RULE_COUNT - i,
    {
        let rule = rule(i);
        if has_any(&name, &rule.keywords) {
            assert(first_rule_from(name@, i as int) == i);
            return Some(
                ExpenseRecommendation {
                    label: rule.label.to_owned(),
                    category: rule.category.to_owned(),
                    two_line: rule.two_line,
                },
            );
        }
        i += 1;
    }
    None
}

/// The fee note that stands in the merchant column of the export: the
/// expense label as it is.
pub fn fee_note_for_csv(expense_label: &str, _merchant: &str) -> (r: String)
    ensures
        r@ == expense_label@,
{
    expense_label.to_owned()
}

/// The labels of the rules, in the order of the table.
pub open spec fn expense_labels() -> Seq<Seq<char>> {
    Seq::new(RULE_COUNT as nat, |i: int| rule_at(i).label)
}

/// All expense labels that can be chosen by hand.
pub fn all_expense_labels() -> (r: &'static [&'static str])
    ensures
        str_views(r@) == expense_labels(),
{
    let r: &'static [&'static str] = &[
        "Office expense",
        "Telecom",
        "Business meal",
        "Taxi",
        "Express",
        "Tallgate(ETC)",
        "Gas",
    ];
    assert(str_views(r@) =~= expense_labels());
    r
}

} // verus!
