//! Loading and rendering the whole collection, as the backing file
//! holds it.
//!
//! The caller reads and writes the file itself and hands the text in
//! and out; text that does not parse loads as the empty collection, and
//! the decay pass runs on every load before any command.
//!
//! The whole collection is the unit of persistence: every run rewrites
//! the file's text in full. Known limitations of that scheme, kept on
//! purpose: two processes running at once end with the later writer's
//! text (last write wins), and a write cut short can leave text that
//! the next load treats as empty.

use vstd::prelude::*;
use crate::date::{DateTime, valid_x};
use crate::habit::{Habit, views_of, all_dates_valid};
use crate::codec::{spec_loaded, habits_chars, parse_habits, habits_to_json};
use crate::ops::{spec_decay, spec_decay_one, apply_decay};

verus! {

/// Loads a collection from the backing file's text. Unparsable text
/// yields the empty collection; the decay pass then resets every streak
/// whose last completion lies more than one day before `today`.
pub fn load_from_text(text: &str, today: DateTime) -> (habits: Vec<Habit>)
    requires
        today.valid(),
    ensures
        views_of(habits@) == spec_decay(spec_loaded(text@), today),
        all_dates_valid(views_of(habits@)),
        forall|k: int| 0 <= k < habits@.len() ==> ((#[trigger] spec_loaded(text@)[k]).last_done.day_number()
            + 1 < today.day_number() ==> views_of(habits@)[k].streak == 0),
{
    let mut habits = match parse_habits(text) {
        Some(v) => v,
        None => Vec::new(),
    };
    proof {
        crate::laws::lemma_loaded_dates_valid(text@);
        assert(views_of(habits@) =~= spec_loaded(text@));
    }
    apply_decay(&mut habits, today);
    proof {
        let loaded = spec_loaded(text@);
        assert forall|k: int| 0 <= k < habits@.len() implies (#[trigger] views_of(
            habits@,
        )[k]).last_done.valid() by {
            assert(views_of(habits@)[k] == spec_decay_one(loaded[k], today));
        }
        assert forall|k: int|
            0 <= k < habits@.len() && (#[trigger] loaded[k]).last_done.day_number() + 1
                < today.day_number() implies views_of(habits@)[k].streak == 0 by {
            assert(views_of(habits@)[k] == spec_decay_one(loaded[k], today));
        }
    }
    habits
}

/// Renders the collection as the text to write back to the backing
/// file. Yields nothing exactly when some timestamp is out of the
/// model's range, which no operation of this library produces.
pub fn render_habits(habits: &Vec<Habit>) -> (r: Option<String>)
    ensures
        r is Some <==> all_dates_valid(views_of(habits@)),
        r matches Some(text) ==> text@ == habits_chars(views_of(habits@)),
{
    let mut i: usize = 0;
    while i < habits.len()
        invariant
            i <= habits.len(),
            forall|k: int| 0 <= k < i ==> (#[trigger] views_of(habits@)[k]).last_done.valid(),
        decreases habits.len() - i,
    {
        assert(views_of(habits@)[i as int] == habits@[i as int]@);
        if !valid_x(&habits[i].last_done) {
            assert(!all_dates_valid(views_of(habits@)));
            return None;
        }
        i += 1;
    }
    Some(habits_to_json(habits))
}

} // verus!
