use kafka_cost::period::YearMonth;

fn ym(year: i32, month: u32) -> YearMonth {
    YearMonth { year, month }
}

#[test]
fn periods_are_read_through_the_first_day() {
    assert_eq!(YearMonth::parse("2025-03"), Some(ym(2025, 3)));
    assert_eq!(YearMonth::parse("2025-01"), Some(ym(2025, 1)));
    assert_eq!(YearMonth::parse("2025-13"), None);
    assert_eq!(YearMonth::parse("garbage"), None);
    assert_eq!(YearMonth::parse(""), None);
}

#[test]
fn months_are_checked_on_construction() {
    assert_eq!(YearMonth::new(2024, 12), Some(ym(2024, 12)));
    assert_eq!(YearMonth::new(2024, 0), None);
    assert_eq!(YearMonth::new(10000, 1), None);
    assert_eq!(YearMonth::new(-1, 1), None);
}

#[test]
fn order_of_months() {
    assert!(ym(2025, 2).is_after(&ym(2025, 1)));
    assert!(ym(2026, 1).is_after(&ym(2025, 12)));
    assert!(!ym(2025, 1).is_after(&ym(2025, 1)));
    assert!(!ym(2024, 12).is_after(&ym(2025, 1)));
}

#[test]
fn days_in_months() {
    assert_eq!(ym(2024, 2).num_days(), 29);
    assert_eq!(ym(2023, 2).num_days(), 28);
    assert_eq!(ym(1900, 2).num_days(), 28);
    assert_eq!(ym(2000, 2).num_days(), 29);
    assert_eq!(ym(2025, 4).num_days(), 30);
    assert_eq!(ym(2025, 12).num_days(), 31);
}

#[test]
fn months_are_written_as_year_dash_month() {
    assert_eq!(ym(2025, 3).to_text(), "2025-03");
    assert_eq!(ym(999, 11).to_text(), "0999-11");
}
