use time::util::{days_in_year, days_in_year_month, is_leap_year, weeks_in_year};

#[test]
fn leap_year_examples() {
    assert!(!is_leap_year(1900));
    assert!(is_leap_year(2000));
    assert!(is_leap_year(2004));
    assert!(!is_leap_year(2005));
    assert!(!is_leap_year(2100));
}

#[test]
fn leap_year_negative_years() {
    assert!(is_leap_year(0));
    assert!(is_leap_year(-4));
    assert!(!is_leap_year(-100));
    assert!(is_leap_year(-400));
    assert!(!is_leap_year(-1));
}

#[test]
fn leap_year_cycle_of_400() {
    for y in [-2001, -400, 0, 1, 1900, 1999, 2000, 2023, 2024] {
        assert_eq!(is_leap_year(y), is_leap_year(y + 400));
    }
}

#[test]
fn days_in_year_examples() {
    assert_eq!(days_in_year(1900), 365);
    assert_eq!(days_in_year(2000), 366);
    assert_eq!(days_in_year(2004), 366);
    assert_eq!(days_in_year(2005), 365);
    assert_eq!(days_in_year(2100), 365);
}

#[test]
fn weeks_in_year_examples() {
    assert_eq!(weeks_in_year(2019), 52);
    assert_eq!(weeks_in_year(2020), 53);
    assert_eq!(weeks_in_year(2015), 53);
    assert_eq!(weeks_in_year(2021), 52);
    assert_eq!(weeks_in_year(2026), 53);
}

#[test]
fn weeks_in_year_extreme_years() {
    let a = weeks_in_year(i32::MAX);
    let b = weeks_in_year(i32::MIN);
    assert!(a == 52 || a == 53);
    assert!(b == 52 || b == 53);
}

#[test]
fn days_in_month_common_and_leap() {
    let common = [31, 28, 31, 30, 31, 30, 31, 31, 30, 31, 30, 31];
    let leap = [31, 29, 31, 30, 31, 30, 31, 31, 30, 31, 30, 31];
    for m in 1..=12u8 {
        assert_eq!(days_in_year_month(2019, m), common[m as usize - 1]);
        assert_eq!(days_in_year_month(2020, m), leap[m as usize - 1]);
    }
    assert_eq!(days_in_year_month(1900, 2), 28);
    assert_eq!(days_in_year_month(2000, 2), 29);
}
