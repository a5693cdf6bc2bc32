use plinko::calendar::{days_in_month, first_weekday_offset, CalDate, CalendarPicker};

#[test]
fn month_lengths() {
    assert_eq!(days_in_month(2024, 2), 29);
    assert_eq!(days_in_month(2023, 2), 28);
    assert_eq!(days_in_month(1900, 2), 28);
    assert_eq!(days_in_month(2000, 2), 29);
    assert_eq!(days_in_month(2023, 4), 30);
    assert_eq!(days_in_month(2023, 12), 31);
}

#[test]
fn first_weekdays() {
    assert_eq!(first_weekday_offset(2024, 1), 0); // Monday
    assert_eq!(first_weekday_offset(2023, 10), 6); // Sunday
    assert_eq!(first_weekday_offset(2025, 5), 3); // Thursday
}

#[test]
fn picker_navigation() {
    let today = CalDate { year: 2024, month: 6, day: 15 };
    let mut p = CalendarPicker::new(None, today);
    assert_eq!((p.nav_year, p.nav_month), (2024, 6));
    let d = CalDate { year: 2023, month: 12, day: 31 };
    p = CalendarPicker::new(Some(d), today);
    assert_eq!((p.nav_year, p.nav_month), (2023, 12));
    p.next_month();
    assert_eq!((p.nav_year, p.nav_month), (2024, 1));
    p.prev_month();
    assert_eq!((p.nav_year, p.nav_month), (2023, 12));
    p.prev_year();
    assert_eq!((p.nav_year, p.nav_month), (2022, 12));
    p.next_year();
    assert_eq!((p.nav_year, p.nav_month), (2023, 12));
    for _ in 0..12 {
        p.next_month();
    }
    assert_eq!((p.nav_year, p.nav_month), (2024, 12));
    p.hovered_today = true;
    p.hovered_day = Some(3);
    p.reset_hover();
    assert!(!p.hovered_today && p.hovered_day.is_none());
    assert_eq!(p.value, Some(d));
}

#[test]
fn navigation_keeps_the_hover_state() {
    let today = CalDate { year: 2024, month: 12, day: 5 };
    let mut p = CalendarPicker::new(None, today);
    p.hovered_clear = true;
    p.hovered_day = Some(3);
    p.next_month();
    p.prev_year();
    p.next_year();
    p.prev_month();
    assert!(p.hovered_clear);
    assert_eq!(p.hovered_day, Some(3));
    assert_eq!((p.nav_year, p.nav_month), (2024, 12));
}
