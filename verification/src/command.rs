//! The command dispatcher: one invocation's intent, routed to the
//! matching operation, with the outcome to report.

use vstd::prelude::*;
use crate::date::DateTime;
use crate::habit::{Habit, views_of, all_dates_valid, all_streaks_below_max};
use crate::ops::{
    add_habit,
    complete_habit,
    spec_add,
    spec_complete,
    has_name,
    CompleteOutcome,
};
use crate::listing::{list_lines, line_chars};

verus! {

/// One invocation's intent.
pub enum Command {
    Add { name: String },
    Done { name: String },
    List,
}

/// The outcome to report to the user.
pub enum Report {
    /// A habit of the carried name was created.
    Added { name: String },
    /// A habit of that name already exists; nothing changed.
    AlreadyExists,
    /// The habit was completed and its streak now has the carried value.
    Completed { name: String, streak: u32 },
    /// The habit was already done on this calendar date.
    AlreadyDoneToday { name: String },
    /// No habit of that name exists.
    NotFound,
    /// One line per habit, in storage order.
    Listing { lines: Vec<String> },
    /// The collection is empty.
    NoHabits,
}

/// Routes one command to its operation and reports the outcome.
pub fn run_command(habits: &mut Vec<Habit>, cmd: Command, now: DateTime) -> (rep: Report)
    requires
        all_streaks_below_max(views_of(old(habits)@)),
        all_dates_valid(views_of(old(habits)@)),
    ensures
        cmd matches Command::Add { name } ==> {
            &&& views_of(final(habits)@) == spec_add(views_of(old(habits)@), name@, now)
            &&& (has_name(views_of(old(habits)@), name@) ==> rep == Report::AlreadyExists
                && final(habits)@ == old(habits)@)
            &&& (!has_name(views_of(old(habits)@), name@) ==> (rep matches Report::Added {
                name: n,
            } && n@ == name@))
        },
        cmd matches Command::Done { name } ==> {
            &&& views_of(final(habits)@) == spec_complete(views_of(old(habits)@), name@, now).0
            &&& (spec_complete(views_of(old(habits)@), name@, now).1 is NotFound ==> rep
                == Report::NotFound)
            &&& (spec_complete(views_of(old(habits)@), name@, now).1 matches
                CompleteOutcome::Incremented { streak } ==> (rep matches Report::Completed {
                name: n,
                streak: k,
            } && n@ == name@ && k == streak))
            &&& (spec_complete(views_of(old(habits)@), name@, now).1 is AlreadyDoneToday ==> (rep
                matches Report::AlreadyDoneToday { name: n } && n@ == name@))
        },
        cmd is List ==> {
            &&& final(habits)@ == old(habits)@
            &&& (old(habits)@.len() == 0 ==> rep == Report::NoHabits)
            &&& (old(habits)@.len() > 0 ==> (rep matches Report::Listing { lines }
                && lines@.len() == old(habits)@.len() && (forall|k: int|
                0 <= k < old(habits)@.len() ==> (#[trigger] lines@[k])@ == line_chars(
                    views_of(old(habits)@)[k],
                ))))
        },
{
    match cmd {
        Command::Add { name } => {
            let kept = name.clone();
            if add_habit(habits, name, now) {
                Report::Added { name: kept }
            } else {
                Report::AlreadyExists
            }
        },
        Command::Done { name } => {
            match complete_habit(habits, &name, now) {
                CompleteOutcome::Incremented { streak } => Report::Completed { name, streak },
                CompleteOutcome::AlreadyDoneToday => Report::AlreadyDoneToday { name },
                CompleteOutcome::NotFound => Report::NotFound,
            }
        },
        Command::List => {
            if habits.len() == 0 {
                Report::NoHabits
            } else {
                Report::Listing { lines: list_lines(habits) }
            }
        },
    }
}

} // verus!
