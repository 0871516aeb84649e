//! The three habit operations and the decay pass, with their rules.
//!
//! Each executable operation is pinned to a spec function that states the
//! whole effect: `add_habit` to [`spec_add`], `complete_habit` to
//! [`spec_complete`], and the decay pass to [`spec_decay`].

use vstd::prelude::*;
use crate::date::{DateTime, day_number_x};
use crate::habit::{Habit, HabitData, views_of, all_dates_valid, all_streaks_below_max};

verus! {

/// Outcome of marking a habit as done.
#[derive(Clone, Copy, PartialEq, Eq, Structural, Debug)]
pub enum CompleteOutcome {
    /// The streak grew to the carried value and `last_done` moved to now.
    Incremented { streak: u32 },
    /// The habit was already done on this calendar date; nothing changed.
    AlreadyDoneToday,
    /// No habit of that name exists; nothing changed.
    NotFound,
}

/// Some habit in `hs` bears `name`.
pub open spec fn has_name(hs: Seq<HabitData>, name: Seq<char>) -> bool {
    exists|i: int| 0 <= i < hs.len() && (#[trigger] hs[i]).name == name
}

/// Position of the first habit bearing `name` (meaningful when one exists).
pub open spec fn first_with_name(hs: Seq<HabitData>, name: Seq<char>) -> int
    decreases hs.len(),
{
    if hs.len() == 0 {
        0
    } else if hs[0].name == name {
        0
    } else {
        1 + first_with_name(hs.skip(1), name)
    }
}

/// When a habit bearing the name exists, `first_with_name` points at the
/// earliest such habit.
pub proof fn lemma_first_with_name(hs: Seq<HabitData>, name: Seq<char>)
    requires
        has_name(hs, name),
    ensures
        0 <= first_with_name(hs, name) < hs.len(),
        hs[first_with_name(hs, name)].name == name,
        forall|j: int| 0 <= j < first_with_name(hs, name) ==> (#[trigger] hs[j]).name != name,
    decreases hs.len(),
{
    if hs.len() == 0 {
    } else if hs[0].name == name {
    } else {
        let tail = hs.skip(1);
        assert(has_name(tail, name)) by {
            let i = choose|i: int| 0 <= i < hs.len() && (#[trigger] hs[i]).name == name;
            assert(tail[i - 1] == hs[i]);
        }
        lemma_first_with_name(tail, name);
        assert forall|j: int| 0 <= j < first_with_name(hs, name) implies (#[trigger] hs[j]).name
            != name by {
            if j > 0 {
                assert(tail[j - 1] == hs[j]);
            }
        }
    }
}

/// The effect of the add operation: append a fresh habit with streak 0
/// unless the name is already taken, in which case nothing changes.
pub open spec fn spec_add(hs: Seq<HabitData>, name: Seq<char>, now: DateTime) -> Seq<HabitData> {
    if has_name(hs, name) {
        hs
    } else {
        hs.push(HabitData { name, streak: 0, last_done: now })
    }
}

/// The completion rule for a single habit: it counts when the last
/// completion fell on another calendar date, or when the streak is 0.
pub open spec fn counts_today(h: HabitData, now: DateTime) -> bool {
    !h.last_done.same_calendar_date(now) || h.streak == 0
}

/// The effect of the done operation on the collection, paired with the
/// reported outcome.
pub open spec fn spec_complete(hs: Seq<HabitData>, name: Seq<char>, now: DateTime) -> (Seq<
    HabitData,
>, CompleteOutcome) {
    if !has_name(hs, name) {
        (hs, CompleteOutcome::NotFound)
    } else {
        let i = first_with_name(hs, name);
        let h = hs[i];
        if counts_today(h, now) {
            (
                hs.update(i, HabitData { name: h.name, streak: (h.streak + 1) as u32, last_done: now }),
                CompleteOutcome::Incremented { streak: (h.streak + 1) as u32 },
            )
        } else {
            (hs, CompleteOutcome::AlreadyDoneToday)
        }
    }
}

/// The decay rule for a single habit: the streak falls to 0 when the last
/// completion lies more than one day in the past, by day number.
pub open spec fn spec_decay_one(h: HabitData, today: DateTime) -> HabitData {
    if h.last_done.day_number() + 1 < today.day_number() {
        HabitData { name: h.name, streak: 0, last_done: h.last_done }
    } else {
        h
    }
}

/// The decay pass applied to every habit, in place.
pub open spec fn spec_decay(hs: Seq<HabitData>, today: DateTime) -> Seq<HabitData> {
    hs.map_values(|h: HabitData| spec_decay_one(h, today))
}

/// Register a habit under `name` unless one of that name already exists.
/// Returns whether a habit was added.
pub fn add_habit(habits: &mut Vec<Habit>, name: String, now: DateTime) -> (added: bool)
    ensures
        views_of(final(habits)@) == spec_add(views_of(old(habits)@), name@, now),
        added == !has_name(views_of(old(habits)@), name@),
        added ==> final(habits)@.len() == old(habits)@.len() + 1
            && final(habits)@[old(habits)@.len() as int]@ == (HabitData {
            name: name@,
            streak: 0,
            last_done: now,
        }),
        !added ==> final(habits)@ == old(habits)@,
{
    let ghost orig = views_of(habits@);
    let mut i: usize = 0;
    while i < habits.len()
        invariant
            i <= habits.len(),
            orig == views_of(habits@),
            forall|j: int| 0 <= j < i ==> (#[trigger] orig[j]).name != name@,
        decreases habits.len() - i,
    {
        assert(orig[i as int] == habits@[i as int]@);
        if habits[i].name == name {
            assert(has_name(orig, name@));
            return false;
        }
        i += 1;
    }
    assert(!has_name(orig, name@));
    let habit = Habit { name, streak: 0, last_done: now };
    habits.push(habit);
    proof {
        assert(views_of(habits@) =~= spec_add(orig, name@, now));
    }
    true
}

/// Mark the habit bearing `name` as done now, applying the completion
/// rule, and report the outcome.
pub fn complete_habit(habits: &mut Vec<Habit>, name: &String, now: DateTime) -> (out:
    CompleteOutcome)
    requires
        all_streaks_below_max(views_of(old(habits)@)),
    ensures
        (views_of(final(habits)@), out) == spec_complete(views_of(old(habits)@), name@, now),
        out is NotFound <==> !has_name(views_of(old(habits)@), name@),
        out is NotFound ==> final(habits)@ == old(habits)@,
        out is AlreadyDoneToday ==> final(habits)@ == old(habits)@,
        ({
            let hs = views_of(old(habits)@);
            has_name(hs, name@) && counts_today(hs[first_with_name(hs, name@)], now) ==> out == (
            CompleteOutcome::Incremented {
                streak: (hs[first_with_name(hs, name@)].streak + 1) as u32,
            })
        }),
{
    let ghost orig = views_of(habits@);
    let mut i: usize = 0;
    while i < habits.len()
        invariant
            i <= habits.len(),
            habits@ == old(habits)@,
            orig == views_of(habits@),
            all_streaks_below_max(orig),
            forall|j: int| 0 <= j < i ==> (#[trigger] orig[j]).name != name@,
        decreases habits.len() - i,
    {
        assert(orig[i as int] == habits@[i as int]@);
        if habits[i].name == *name {
            proof {
                assert(has_name(orig, name@));
                lemma_first_with_name(orig, name@);
                assert(first_with_name(orig, name@) == i);
            }
            let h = &habits[i];
            let same_day = h.last_done.year == now.year && h.last_done.month == now.month
                && h.last_done.day == now.day;
            if !same_day || h.streak == 0 {
                let new_streak = habits[i].streak + 1;
                let old_name = habits[i].name.clone();
                habits.set(
                    i,
                    Habit { name: old_name, streak: new_streak, last_done: now },
                );
                proof {
                    assert(views_of(habits@) =~= spec_complete(orig, name@, now).0);
                }
                return CompleteOutcome::Incremented { streak: new_streak };
            } else {
                return CompleteOutcome::AlreadyDoneToday;
            }
        }
        i += 1;
    }
    assert(!has_name(orig, name@));
    CompleteOutcome::NotFound
}

/// Apply the decay rule to every habit: streaks whose last completion
/// lies more than one day in the past fall to 0.
pub fn apply_decay(habits: &mut Vec<Habit>, today: DateTime)
    requires
        all_dates_valid(views_of(old(habits)@)),
        today.valid(),
    ensures
        views_of(final(habits)@) == spec_decay(views_of(old(habits)@), today),
        final(habits)@.len() == old(habits)@.len(),
{
    let ghost orig = views_of(habits@);
    let today_n = day_number_x(&today);
    let mut i: usize = 0;
    while i < habits.len()
        invariant
            i <= habits.len(),
            habits@.len() == orig.len(),
            all_dates_valid(orig),
            today.valid(),
            today_n == today.day_number(),
            forall|j: int| i <= j < orig.len() ==> #[trigger] habits@[j]@ == orig[j],
            forall|j: int| 0 <= j < i ==> #[trigger] habits@[j]@ == spec_decay_one(orig[j], today),
        decreases habits.len() - i,
    {
        assert(habits@[i as int]@ == orig[i as int]);
        let last_n = day_number_x(&habits[i].last_done);
        if last_n + 1 < today_n {
            let old_name = habits[i].name.clone();
            let old_last = habits[i].last_done;
            habits.set(i, Habit { name: old_name, streak: 0, last_done: old_last });
        }
        i += 1;
    }
    proof {
        assert(views_of(habits@) =~= spec_decay(orig, today));
    }
}

} // verus!
