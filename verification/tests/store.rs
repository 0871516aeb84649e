use habitron::date::DateTime;
use habitron::habit::Habit;
use habitron::store::{load_from_text, render_habits};
use habitron::clock::now;

fn dt(year: u32, month: u32, day: u32, hour: u32, minute: u32, second: u32) -> DateTime {
    DateTime { year, month, day, hour, minute, second }
}

#[test]
fn stale_streak_resets_on_load() {
    let text = "[{\"name\":\"run\",\"streak\":9,\"last_done\":\"2024-03-02T10:00:00\"}]";
    let today = dt(2024, 3, 5, 8, 0, 0);
    let habits = load_from_text(text, today);
    assert_eq!(habits.len(), 1);
    assert_eq!(habits[0].streak, 0);
    // the timestamp itself is kept
    assert_eq!(habits[0].last_done, dt(2024, 3, 2, 10, 0, 0));
}

#[test]
fn one_day_gap_keeps_streak() {
    let text = "[{\"name\":\"run\",\"streak\":9,\"last_done\":\"2024-03-04T10:00:00\"}]";
    let today = dt(2024, 3, 5, 8, 0, 0);
    let habits = load_from_text(text, today);
    assert_eq!(habits[0].streak, 9);
}

#[test]
fn decay_counts_days_across_month_boundary() {
    // The day distance here is true elapsed calendar days, not a
    // difference of day-of-month numbers: that choice is deliberate, so
    // a month boundary neither resets a fresh streak nor underflows.
    // January 31st to February 1st is one day apart: kept.
    let text = "[{\"name\":\"run\",\"streak\":5,\"last_done\":\"2024-01-31T23:00:00\"}]";
    let habits = load_from_text(text, dt(2024, 2, 1, 1, 0, 0));
    assert_eq!(habits[0].streak, 5);
    // January 31st to February 2nd is two days apart: reset.
    let habits = load_from_text(text, dt(2024, 2, 2, 1, 0, 0));
    assert_eq!(habits[0].streak, 0);
}

#[test]
fn decay_counts_days_across_year_boundary() {
    let text = "[{\"name\":\"run\",\"streak\":5,\"last_done\":\"2023-12-31T23:00:00\"}]";
    let habits = load_from_text(text, dt(2024, 1, 1, 1, 0, 0));
    assert_eq!(habits[0].streak, 5);
    let habits = load_from_text(text, dt(2024, 1, 2, 1, 0, 0));
    assert_eq!(habits[0].streak, 0);
}

#[test]
fn future_timestamp_is_not_decayed() {
    let text = "[{\"name\":\"run\",\"streak\":5,\"last_done\":\"2024-03-09T10:00:00\"}]";
    let habits = load_from_text(text, dt(2024, 3, 5, 8, 0, 0));
    assert_eq!(habits[0].streak, 5);
}

#[test]
fn unparsable_text_loads_as_empty() {
    let today = dt(2024, 3, 5, 8, 0, 0);
    assert!(load_from_text("", today).is_empty());
    assert!(load_from_text("{\"name\":\"x\"}", today).is_empty());
    assert!(load_from_text("[{\"streak\":0}]", today).is_empty());
}

#[test]
fn save_after_load_keeps_content() {
    // A fresh enough record survives load and decay untouched, so the
    // text written back is the text read.
    let text = "[{\"name\":\"read\",\"streak\":3,\"last_done\":\"2024-03-05T07:00:00\"},{\"name\":\"run\",\"streak\":1,\"last_done\":\"2024-03-04T21:15:30\"}]";
    let today = dt(2024, 3, 5, 8, 0, 0);
    let habits = load_from_text(text, today);
    let written = render_habits(&habits).unwrap();
    assert_eq!(written, text);
}

#[test]
fn render_refuses_out_of_range_timestamp() {
    let habits = vec![Habit {
        name: String::from("x"),
        streak: 0,
        last_done: dt(2024, 13, 1, 0, 0, 0),
    }];
    assert!(render_habits(&habits).is_none());
}

#[test]
fn day_numbers_count_from_year_zero() {
    assert_eq!(habitron::date::day_number_x(&dt(0, 1, 1, 0, 0, 0)), 0);
    assert_eq!(habitron::date::day_number_x(&dt(0, 1, 2, 0, 0, 0)), 1);
    // year 0 counts as a leap year, so a full year is 366 days
    assert_eq!(habitron::date::day_number_x(&dt(1, 1, 1, 0, 0, 0)), 366);
    // four full centuries of the Gregorian cycle
    assert_eq!(habitron::date::day_number_x(&dt(400, 1, 1, 0, 0, 0)), 146097);
}

#[test]
fn current_time_is_a_valid_timestamp() {
    let t = now();
    assert!(1 <= t.month && t.month <= 12);
    assert!(1 <= t.day && t.day <= 31);
    assert!(t.year <= 9999);
    assert!(t.hour <= 23 && t.minute <= 59 && t.second <= 59);
}
