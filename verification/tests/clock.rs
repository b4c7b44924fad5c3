use ai_credit_status::clock::{usage_window, FIRST_SECOND, LAST_SECOND};

#[test]
fn window_of_a_day_in_may() {
    let window = usage_window(1431648000 + 3661).unwrap();
    assert_eq!(window.start_date, "2015-05-01");
    assert_eq!(window.end_date, "2015-05-15");
    assert_eq!(window.start_time, 1430438400);
    assert_eq!(window.end_time, 1431648000 + 3661);
}

#[test]
fn windows_at_the_turn_of_months_and_years() {
    let cases = [
        (0, "1970-01-01", "1970-01-01", 0),
        (951782400, "2000-02-01", "2000-02-29", 949363200),
        (951868799, "2000-02-01", "2000-02-29", 949363200),
        (951868800, "2000-03-01", "2000-03-01", 951868800),
        (1704067199, "2023-12-01", "2023-12-31", 1701388800),
        (-1, "1969-12-01", "1969-12-31", -2678400),
        (4107542400, "2100-03-01", "2100-03-01", 4107542400),
    ];
    for (now, start, end, start_time) in cases {
        let window = usage_window(now).unwrap();
        assert_eq!(window.start_date, start);
        assert_eq!(window.end_date, end);
        assert_eq!(window.start_time, start_time);
        assert_eq!(window.end_time, now);
        assert!(window.start_time <= now);
    }
}

#[test]
fn windows_end_with_the_calendar() {
    let first = usage_window(FIRST_SECOND).unwrap();
    assert_eq!(first.end_date, "-262143-01-01");
    assert_eq!(first.start_time, FIRST_SECOND);
    let last = usage_window(LAST_SECOND).unwrap();
    assert_eq!(last.start_date, "262142-12-01");
    assert_eq!(last.end_date, "262142-12-31");
    assert_eq!(usage_window(FIRST_SECOND - 1), None);
    assert_eq!(usage_window(LAST_SECOND + 1), None);
    assert_eq!(usage_window(i64::MIN), None);
    assert_eq!(usage_window(i64::MAX), None);
}
