//! The list operation: one line per habit, in storage order.

use vstd::prelude::*;
use crate::date::DateTime;
use crate::habit::{Habit, HabitData, views_of, all_dates_valid};
use crate::codec::{dec_chars, pad2, pad4, push_char, push_pad2, push_u32, digit_char_x};

verus! {

/// A timestamp as shown to the user: like its stored form, but with a
/// space between date and time.
pub open spec fn shown_datetime_chars(t: DateTime) -> Seq<char> {
    pad4(t.year as int) + seq!['-'] + pad2(t.month as int) + seq!['-'] + pad2(t.day as int)
        + seq![' '] + pad2(t.hour as int) + seq![':'] + pad2(t.minute as int) + seq![':'] + pad2(
        t.second as int,
    )
}

/// The listing line for one habit: its name, streak and last completion.
pub open spec fn line_chars(h: HabitData) -> Seq<char> {
    "Habit: "@ + h.name + ", Streak: "@ + dec_chars(h.streak as int) + ", Last done: "@
        + shown_datetime_chars(h.last_done)
}

/// Builds the listing line for one habit.
fn habit_line(h: &Habit) -> (line: String)
    requires
        h.last_done.valid(),
    ensures
        line@ == line_chars(h@),
{
    let t = &h.last_done;
    let mut out = String::new();
    out.append("Habit: ");
    out.append(h.name.as_str());
    out.append(", Streak: ");
    push_u32(&mut out, h.streak);
    out.append(", Last done: ");
    push_char(&mut out, digit_char_x(t.year / 1000));
    push_char(&mut out, digit_char_x((t.year / 100) % 10));
    push_char(&mut out, digit_char_x((t.year / 10) % 10));
    push_char(&mut out, digit_char_x(t.year % 10));
    push_char(&mut out, '-');
    push_pad2(&mut out, t.month);
    push_char(&mut out, '-');
    push_pad2(&mut out, t.day);
    push_char(&mut out, ' ');
    push_pad2(&mut out, t.hour);
    push_char(&mut out, ':');
    push_pad2(&mut out, t.minute);
    push_char(&mut out, ':');
    push_pad2(&mut out, t.second);
    proof {
        assert(out@ =~= line_chars(h@));
    }
    out
}

/// The listing lines for the whole collection, in storage order.
pub fn list_lines(habits: &Vec<Habit>) -> (lines: Vec<String>)
    requires
        all_dates_valid(views_of(habits@)),
    ensures
        lines@.len() == habits@.len(),
        forall|k: int| 0 <= k < habits@.len() ==> (#[trigger] lines@[k])@ == line_chars(
            views_of(habits@)[k],
        ),
{
    let mut lines: Vec<String> = Vec::new();
    let mut i: usize = 0;
    while i < habits.len()
        invariant
            i <= habits.len(),
            lines@.len() == i,
            all_dates_valid(views_of(habits@)),
            forall|k: int| 0 <= k < i ==> (#[trigger] lines@[k])@ == line_chars(
                views_of(habits@)[k],
            ),
        decreases habits.len() - i,
    {
        assert(views_of(habits@)[i as int] == habits@[i as int]@);
        lines.push(habit_line(&habits[i]));
        i += 1;
    }
    lines
}

} // verus!
