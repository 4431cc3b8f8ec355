use card_receipt::datetime::{leap_year, DateTime};

#[test]
fn days_that_exist() {
    assert!(DateTime::new(2026, 1, 31, 0, 0, 0).is_some());
    assert!(DateTime::new(2024, 2, 29, 23, 59, 59).is_some());
    assert!(DateTime::new(2000, 2, 29, 0, 0, 0).is_some());
    assert!(DateTime::new(-262143, 1, 1, 0, 0, 0).is_some());
    assert!(DateTime::new(262142, 12, 31, 0, 0, 0).is_some());
}

#[test]
fn days_that_do_not_exist() {
    assert_eq!(DateTime::new(2026, 2, 29, 0, 0, 0), None);
    assert_eq!(DateTime::new(1900, 2, 29, 0, 0, 0), None);
    assert_eq!(DateTime::new(2026, 4, 31, 0, 0, 0), None);
    assert_eq!(DateTime::new(2026, 0, 1, 0, 0, 0), None);
    assert_eq!(DateTime::new(2026, 13, 1, 0, 0, 0), None);
    assert_eq!(DateTime::new(2026, 1, 0, 0, 0, 0), None);
    assert_eq!(DateTime::new(2026, 1, 1, 24, 0, 0), None);
    assert_eq!(DateTime::new(2026, 1, 1, 0, 60, 0), None);
    assert_eq!(DateTime::new(2026, 1, 1, 0, 0, 60), None);
    assert_eq!(DateTime::new(262143, 1, 1, 0, 0, 0), None);
    assert_eq!(DateTime::new(-262144, 1, 1, 0, 0, 0), None);
}

#[test]
fn validity_agrees_with_chrono() {
    for year in [-5, 0, 1900, 2000, 2023, 2024] {
        for month in 0..14u32 {
            for day in 0..33u32 {
                let ours = DateTime { year, month, day, hour: 1, minute: 2, second: 3 };
                let theirs = chrono::NaiveDate::from_ymd_opt(year, month, day);
                assert_eq!(ours.is_valid(), theirs.is_some(), "{}-{}-{}", year, month, day);
            }
        }
    }
}

#[test]
fn leap_years() {
    assert!(leap_year(2024));
    assert!(leap_year(2000));
    assert!(!leap_year(1900));
    assert!(!leap_year(2026));
    assert!(leap_year(-4));
    assert!(leap_year(0));
}

#[test]
fn earlier_and_later() {
    let a = DateTime::new(2026, 1, 22, 16, 35, 39).unwrap();
    let b = DateTime::new(2026, 1, 22, 16, 35, 40).unwrap();
    let c = DateTime::new(2025, 12, 31, 23, 59, 59).unwrap();
    assert!(a.is_before(&b));
    assert!(!b.is_before(&a));
    assert!(!a.is_before(&a));
    assert!(c.is_before(&a));
    assert!(!a.is_before(&c));
}

#[test]
fn range_of_years_agrees_with_chrono() {
    for (year, month, day) in [(262142, 12, 31), (262143, 1, 1), (-262143, 1, 1), (-262144, 12, 31)] {
        let ours = DateTime { year, month, day, hour: 0, minute: 0, second: 0 };
        let theirs = chrono::NaiveDate::from_ymd_opt(year, month, day);
        assert_eq!(ours.is_valid(), theirs.is_some(), "{}", year);
    }
}
