use ledger::date::Date;

#[test]
fn date_accepts_ordinary_days() {
    let date = Date::new(2022, 1, 10).unwrap();
    assert_eq!(date.year, 2022);
    assert_eq!(date.month, 1);
    assert_eq!(date.day, 10);
}

#[test]
fn date_rejects_impossible_days() {
    assert!(Date::new(2022, 2, 30).is_none());
    assert!(Date::new(2022, 4, 31).is_none());
    assert!(Date::new(2022, 13, 1).is_none());
    assert!(Date::new(2022, 0, 1).is_none());
    assert!(Date::new(2022, 1, 0).is_none());
}

#[test]
fn date_knows_leap_years() {
    assert!(Date::new(2020, 2, 29).is_some());
    assert!(Date::new(2021, 2, 29).is_none());
    assert!(Date::new(2100, 2, 29).is_none());
    assert!(Date::new(2000, 2, 29).is_some());
}
