use habitron::date::DateTime;
use habitron::habit::Habit;
use habitron::ops::{add_habit, complete_habit, CompleteOutcome};
use habitron::listing::list_lines;

fn dt(year: u32, month: u32, day: u32, hour: u32, minute: u32, second: u32) -> DateTime {
    DateTime { year, month, day, hour, minute, second }
}

#[test]
fn add_new_habit_appends_with_zero_streak() {
    let mut habits: Vec<Habit> = Vec::new();
    let now = dt(2024, 3, 5, 7, 8, 9);
    let added = add_habit(&mut habits, String::from("read"), now);
    assert!(added);
    assert_eq!(habits.len(), 1);
    assert_eq!(habits[0].name, "read");
    assert_eq!(habits[0].streak, 0);
    assert_eq!(habits[0].last_done, now);
}

#[test]
fn add_existing_name_changes_nothing() {
    let mut habits: Vec<Habit> = Vec::new();
    let t1 = dt(2024, 3, 5, 7, 0, 0);
    let t2 = dt(2024, 3, 6, 9, 30, 0);
    assert!(add_habit(&mut habits, String::from("x"), t1));
    let added_again = add_habit(&mut habits, String::from("x"), t2);
    assert!(!added_again);
    assert_eq!(habits.len(), 1);
    assert_eq!(habits[0].name, "x");
    assert_eq!(habits[0].streak, 0);
    assert_eq!(habits[0].last_done, t1);
}

#[test]
fn complete_on_new_day_increments_any_streak() {
    let mut habits = vec![Habit {
        name: String::from("run"),
        streak: 41,
        last_done: dt(2024, 3, 4, 22, 0, 0),
    }];
    let now = dt(2024, 3, 5, 6, 0, 0);
    let out = complete_habit(&mut habits, &String::from("run"), now);
    assert_eq!(out, CompleteOutcome::Incremented { streak: 42 });
    assert_eq!(habits[0].streak, 42);
    assert_eq!(habits[0].last_done, now);
}

#[test]
fn complete_twice_same_day_counts_once() {
    let mut habits: Vec<Habit> = Vec::new();
    let morning = dt(2024, 3, 5, 8, 0, 0);
    let evening = dt(2024, 3, 5, 20, 0, 0);
    add_habit(&mut habits, String::from("read"), morning);
    let first = complete_habit(&mut habits, &String::from("read"), morning);
    assert_eq!(first, CompleteOutcome::Incremented { streak: 1 });
    let second = complete_habit(&mut habits, &String::from("read"), evening);
    assert_eq!(second, CompleteOutcome::AlreadyDoneToday);
    assert_eq!(habits[0].streak, 1);
    assert_eq!(habits[0].last_done, morning);
}

#[test]
fn complete_with_zero_streak_counts_even_same_day() {
    // A streak of 0 always counts, even when last_done is today.
    let mut habits = vec![Habit {
        name: String::from("stretch"),
        streak: 0,
        last_done: dt(2024, 3, 5, 8, 0, 0),
    }];
    let now = dt(2024, 3, 5, 9, 0, 0);
    let out = complete_habit(&mut habits, &String::from("stretch"), now);
    assert_eq!(out, CompleteOutcome::Incremented { streak: 1 });
    assert_eq!(habits[0].last_done, now);
}

#[test]
fn complete_unknown_name_changes_nothing() {
    let mut habits = vec![Habit {
        name: String::from("run"),
        streak: 3,
        last_done: dt(2024, 3, 4, 22, 0, 0),
    }];
    let now = dt(2024, 3, 5, 6, 0, 0);
    let out = complete_habit(&mut habits, &String::from("swim"), now);
    assert_eq!(out, CompleteOutcome::NotFound);
    assert_eq!(habits.len(), 1);
    assert_eq!(habits[0].name, "run");
    assert_eq!(habits[0].streak, 3);
    assert_eq!(habits[0].last_done, dt(2024, 3, 4, 22, 0, 0));
}

#[test]
fn scenario_read_through_two_days() {
    let mut habits: Vec<Habit> = Vec::new();
    let day_one = dt(2024, 3, 5, 8, 0, 0);
    assert!(add_habit(&mut habits, String::from("read"), day_one));

    let lines = list_lines(&habits);
    assert_eq!(lines.len(), 1);
    assert_eq!(lines[0], "Habit: read, Streak: 0, Last done: 2024-03-05 08:00:00");

    let first = complete_habit(&mut habits, &String::from("read"), day_one);
    assert_eq!(first, CompleteOutcome::Incremented { streak: 1 });

    let later = dt(2024, 3, 5, 21, 0, 0);
    let second = complete_habit(&mut habits, &String::from("read"), later);
    assert_eq!(second, CompleteOutcome::AlreadyDoneToday);
    assert_eq!(habits[0].streak, 1);

    let day_two = dt(2024, 3, 6, 7, 30, 0);
    let third = complete_habit(&mut habits, &String::from("read"), day_two);
    assert_eq!(third, CompleteOutcome::Incremented { streak: 2 });
    assert_eq!(habits[0].streak, 2);
}

#[test]
fn scenario_duplicate_add_keeps_one_record() {
    let mut habits: Vec<Habit> = Vec::new();
    let now = dt(2024, 3, 5, 8, 0, 0);
    assert!(add_habit(&mut habits, String::from("x"), now));
    assert!(!add_habit(&mut habits, String::from("x"), now));
    assert_eq!(habits.len(), 1);
    assert_eq!(habits[0].name, "x");
}
