//! The habit record and its mathematical view.

use vstd::prelude::*;
use crate::date::DateTime;

verus! {

/// A named habit with its current streak and last completion time.
///
/// Within a stored collection names are unique; uniqueness is enforced
/// when a habit is created, and no operation renames or removes one.
pub struct Habit {
    pub name: String,
    pub streak: u32,
    pub last_done: DateTime,
}

/// The mathematical value of a [`Habit`]: the name as a character
/// sequence beside the plain fields.
#[verifier::ext_equal]
pub ghost struct HabitData {
    pub name: Seq<char>,
    pub streak: u32,
    pub last_done: DateTime,
}

impl View for Habit {
    type V = HabitData;

    open spec fn view(&self) -> HabitData {
        HabitData { name: self.name@, streak: self.streak, last_done: self.last_done }
    }
}

/// The views of every habit in a sequence, in order.
pub open spec fn views_of(hs: Seq<Habit>) -> Seq<HabitData> {
    hs.map_values(|h: Habit| h@)
}

/// Every timestamp in the collection is a real calendar date.
pub open spec fn all_dates_valid(hs: Seq<HabitData>) -> bool {
    forall|i: int| 0 <= i < hs.len() ==> (#[trigger] hs[i]).last_done.valid()
}

/// Every streak still has room to grow by one.
pub open spec fn all_streaks_below_max(hs: Seq<HabitData>) -> bool {
    forall|i: int| 0 <= i < hs.len() ==> (#[trigger] hs[i]).streak < u32::MAX
}

/// No two habits share a name.
pub open spec fn names_unique(hs: Seq<HabitData>) -> bool {
    forall|i: int, j: int| 0 <= i < j < hs.len() ==> (#[trigger] hs[i]).name != (#[trigger] hs[j]).name
}

} // verus!
