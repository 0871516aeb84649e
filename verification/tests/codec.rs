use habitron::date::DateTime;
use habitron::habit::Habit;
use habitron::codec::parse_habits;
use habitron::store::render_habits;

fn dt(year: u32, month: u32, day: u32, hour: u32, minute: u32, second: u32) -> DateTime {
    DateTime { year, month, day, hour, minute, second }
}

fn habit(name: &str, streak: u32, last_done: DateTime) -> Habit {
    Habit { name: String::from(name), streak, last_done }
}

#[test]
fn renders_one_habit_exactly() {
    let habits = vec![habit("read", 2, dt(2024, 3, 5, 7, 8, 9))];
    let text = render_habits(&habits).unwrap();
    assert_eq!(text, "[{\"name\":\"read\",\"streak\":2,\"last_done\":\"2024-03-05T07:08:09\"}]");
}

#[test]
fn renders_empty_collection_as_empty_array() {
    let habits: Vec<Habit> = Vec::new();
    assert_eq!(render_habits(&habits).unwrap(), "[]");
}

#[test]
fn escapes_quote_backslash_and_control() {
    let habits = vec![habit("a\"b\\c\nd", 0, dt(2024, 1, 1, 0, 0, 0))];
    let text = render_habits(&habits).unwrap();
    assert_eq!(
        text,
        "[{\"name\":\"a\\\"b\\\\c\\u000ad\",\"streak\":0,\"last_done\":\"2024-01-01T00:00:00\"}]"
    );
}

#[test]
fn parses_what_it_renders() {
    let habits = vec![
        habit("read", 2, dt(2024, 3, 5, 7, 8, 9)),
        habit("quo\"te\\slash\tend", 4294967295, dt(2000, 2, 29, 23, 59, 59)),
        habit("", 0, dt(0, 1, 1, 0, 0, 0)),
    ];
    let text = render_habits(&habits).unwrap();
    let back = parse_habits(&text).unwrap();
    assert_eq!(back.len(), habits.len());
    for (a, b) in habits.iter().zip(back.iter()) {
        assert_eq!(a.name, b.name);
        assert_eq!(a.streak, b.streak);
        assert_eq!(a.last_done, b.last_done);
    }
}

#[test]
fn parses_empty_array() {
    let parsed = parse_habits("[]").unwrap();
    assert!(parsed.is_empty());
}

#[test]
fn parses_short_escapes_and_unicode_escapes() {
    let text = "[{\"name\":\"a\\tb\\u0041\\/\",\"streak\":0,\"last_done\":\"2024-01-01T00:00:00\"}]";
    let parsed = parse_habits(text).unwrap();
    assert_eq!(parsed[0].name, "a\tbA/");
}

#[test]
fn rejects_malformed_text() {
    assert!(parse_habits("").is_none());
    assert!(parse_habits("not json").is_none());
    assert!(parse_habits("[").is_none());
    assert!(parse_habits("[}").is_none());
    assert!(parse_habits("[{\"name\":\"x\"}]").is_none());
    // trailing content after the array
    assert!(parse_habits("[] ").is_none());
    // whitespace inside the array is not part of the stored format
    assert!(parse_habits("[ ]").is_none());
}

#[test]
fn rejects_bad_numbers() {
    // leading zero
    let t = "[{\"name\":\"x\",\"streak\":01,\"last_done\":\"2024-01-01T00:00:00\"}]";
    assert!(parse_habits(t).is_none());
    // beyond the unsigned 32-bit range
    let t = "[{\"name\":\"x\",\"streak\":4294967296,\"last_done\":\"2024-01-01T00:00:00\"}]";
    assert!(parse_habits(t).is_none());
    // the largest streak is accepted
    let t = "[{\"name\":\"x\",\"streak\":4294967295,\"last_done\":\"2024-01-01T00:00:00\"}]";
    assert_eq!(parse_habits(t).unwrap()[0].streak, 4294967295);
}

#[test]
fn rejects_impossible_dates() {
    let t = "[{\"name\":\"x\",\"streak\":0,\"last_done\":\"2021-02-30T00:00:00\"}]";
    assert!(parse_habits(t).is_none());
    let t = "[{\"name\":\"x\",\"streak\":0,\"last_done\":\"2021-13-01T00:00:00\"}]";
    assert!(parse_habits(t).is_none());
    let t = "[{\"name\":\"x\",\"streak\":0,\"last_done\":\"2021-01-01T24:00:00\"}]";
    assert!(parse_habits(t).is_none());
    // leap day of a leap year is fine
    let t = "[{\"name\":\"x\",\"streak\":0,\"last_done\":\"2024-02-29T00:00:00\"}]";
    assert!(parse_habits(t).is_some());
    // but not of a century year that is no leap year
    let t = "[{\"name\":\"x\",\"streak\":0,\"last_done\":\"1900-02-29T00:00:00\"}]";
    assert!(parse_habits(t).is_none());
}

#[test]
fn rejects_unescaped_control_and_bad_escapes() {
    let t = "[{\"name\":\"a\u{1}b\",\"streak\":0,\"last_done\":\"2024-01-01T00:00:00\"}]";
    assert!(parse_habits(t).is_none());
    let t = "[{\"name\":\"a\\qb\",\"streak\":0,\"last_done\":\"2024-01-01T00:00:00\"}]";
    assert!(parse_habits(t).is_none());
    let t = "[{\"name\":\"a\\u00\",\"streak\":0,\"last_done\":\"2024-01-01T00:00:00\"}]";
    assert!(parse_habits(t).is_none());
}
