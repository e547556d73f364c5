use signal_message_scheduler::schedule::{
    is_schedulable_date, parse_time_of_day, seconds_until, send_time_text, wait_for_reading,
    wait_seconds, CalendarDate,
    CountdownError, TimeOfDay,
};

fn date(year: i32, month: u32, day: u32) -> CalendarDate {
    CalendarDate { year, month, day }
}

#[test]
fn dates_from_today_on_are_schedulable() {
    let yesterday = date(2024, 3, 9);
    assert!(is_schedulable_date(date(2024, 3, 10), yesterday));
    assert!(is_schedulable_date(date(2025, 1, 1), yesterday));
    assert!(!is_schedulable_date(date(2024, 3, 9), yesterday));
    assert!(!is_schedulable_date(date(2024, 2, 28), yesterday));
    assert!(!is_schedulable_date(date(2023, 12, 31), yesterday));
}

#[test]
fn times_of_day_are_read() {
    assert_eq!(parse_time_of_day("12:00"), Some(TimeOfDay { hour: 12, minute: 0 }));
    assert_eq!(parse_time_of_day("23:59"), Some(TimeOfDay { hour: 23, minute: 59 }));
    assert_eq!(parse_time_of_day("07:05"), Some(TimeOfDay { hour: 7, minute: 5 }));
    assert_eq!(parse_time_of_day("24:00"), None);
    assert_eq!(parse_time_of_day("12:60"), None);
    assert_eq!(parse_time_of_day("noon"), None);
    assert_eq!(parse_time_of_day(""), None);
}

#[test]
fn waiting_time() {
    assert_eq!(wait_seconds(100, 40), Some(60));
    assert_eq!(wait_seconds(100, 100), Some(0));
    assert_eq!(wait_seconds(100, 101), None);
}

#[test]
fn countdown_against_the_clock() {
    assert_eq!(seconds_until(0), Err(CountdownError::TimeHasPassed));
    let far = seconds_until(u64::MAX).expect("far future");
    assert!(far > 0);
}

#[test]
fn wait_for_a_reading() {
    assert_eq!(wait_for_reading(100, Some(40)), Ok(60));
    assert_eq!(wait_for_reading(100, Some(100)), Ok(0));
    assert_eq!(wait_for_reading(100, Some(101)), Err(CountdownError::TimeHasPassed));
    assert_eq!(wait_for_reading(100, None), Err(CountdownError::ClockBeforeEpoch));
}

#[test]
fn send_time_shows_like_chrono() {
    assert_eq!(send_time_text(date(2024, 3, 10), TimeOfDay { hour: 9, minute: 5 }), "2024-03-10 09:05:00");
    assert_eq!(send_time_text(date(7, 1, 2), TimeOfDay { hour: 23, minute: 59 }), "0007-01-02 23:59:00");
    assert_eq!(send_time_text(date(12345, 12, 31), TimeOfDay { hour: 0, minute: 0 }), "+12345-12-31 00:00:00");
    assert_eq!(send_time_text(date(-44, 3, 15), TimeOfDay { hour: 12, minute: 0 }), "-0044-03-15 12:00:00");
}

#[test]
fn times_of_day_as_chrono_reads_them() {
    assert_eq!(parse_time_of_day("9:05"), Some(TimeOfDay { hour: 9, minute: 5 }));
    assert_eq!(parse_time_of_day(" 09: 5"), Some(TimeOfDay { hour: 9, minute: 5 }));
    assert_eq!(parse_time_of_day("\t7:3"), Some(TimeOfDay { hour: 7, minute: 3 }));
    assert_eq!(parse_time_of_day("09 :05"), None);
    assert_eq!(parse_time_of_day("12:00 "), None);
    assert_eq!(parse_time_of_day("123:00"), None);
    assert_eq!(parse_time_of_day("+9:05"), None);
    assert_eq!(parse_time_of_day("12:005"), None);
}
