use habitron::date::DateTime;
use habitron::habit::Habit;
use habitron::command::{run_command, Command, Report};

fn dt(year: u32, month: u32, day: u32, hour: u32, minute: u32, second: u32) -> DateTime {
    DateTime { year, month, day, hour, minute, second }
}

#[test]
fn add_command_reports_added_then_already_exists() {
    let mut habits: Vec<Habit> = Vec::new();
    let now = dt(2024, 3, 5, 8, 0, 0);
    let rep = run_command(&mut habits, Command::Add { name: String::from("read") }, now);
    assert!(matches!(rep, Report::Added { name } if name == "read"));
    let rep = run_command(&mut habits, Command::Add { name: String::from("read") }, now);
    assert!(matches!(rep, Report::AlreadyExists));
    assert_eq!(habits.len(), 1);
}

#[test]
fn done_command_reports_each_outcome() {
    let mut habits: Vec<Habit> = Vec::new();
    let now = dt(2024, 3, 5, 8, 0, 0);
    run_command(&mut habits, Command::Add { name: String::from("read") }, now);

    let rep = run_command(&mut habits, Command::Done { name: String::from("read") }, now);
    assert!(matches!(rep, Report::Completed { name, streak: 1 } if name == "read"));

    let rep = run_command(&mut habits, Command::Done { name: String::from("read") }, now);
    assert!(matches!(rep, Report::AlreadyDoneToday { name } if name == "read"));

    let rep = run_command(&mut habits, Command::Done { name: String::from("swim") }, now);
    assert!(matches!(rep, Report::NotFound));
}

#[test]
fn list_command_reports_lines_in_storage_order() {
    let mut habits: Vec<Habit> = Vec::new();
    let now = dt(2024, 3, 5, 8, 0, 0);

    let rep = run_command(&mut habits, Command::List, now);
    assert!(matches!(rep, Report::NoHabits));

    run_command(&mut habits, Command::Add { name: String::from("b") }, now);
    run_command(&mut habits, Command::Add { name: String::from("a") }, now);
    let rep = run_command(&mut habits, Command::List, now);
    match rep {
        Report::Listing { lines } => {
            assert_eq!(lines.len(), 2);
            assert_eq!(lines[0], "Habit: b, Streak: 0, Last done: 2024-03-05 08:00:00");
            assert_eq!(lines[1], "Habit: a, Streak: 0, Last done: 2024-03-05 08:00:00");
        }
        _ => panic!("expected a listing"),
    }
}
