//! Habyt: a verified habit-tracking data layer.
//!
//! The crate models habits and their progress logs, validates the strings
//! that describe them, keeps both collections in stores with monotonically
//! increasing identifiers, and renders the stores to a text form that parses
//! back to an equal store.

use vstd::prelude::*;

pub mod models;
pub mod persist;
pub mod store;

pub use models::habit::DeletedHabit;
pub use models::habit::Difficulty;
pub use models::habit::Habit;
pub use models::habit::HabitId;
pub use models::habit::Kind;
pub use models::habit::Streak;
pub use models::habit_draft::HabitDraft;
pub use models::habit_log::Date;
pub use models::habit_log::HabitLog;
pub use models::habit_name::HabitName;
pub use models::habit_patch::HabitPatch;
pub use models::habit_unit::HabitUnit;
pub use models::quantum::Quantum;
pub use models::validation_error::ValidationError;
pub use persist::habit_store_from_text;
pub use persist::habit_store_to_text;
pub use persist::log_store_from_text;
pub use persist::log_store_to_text;
pub use store::HabitLogStore;
pub use store::HabitStore;

verus! {

/// The cap on the length of a note, in characters.
pub const NOTES_MAX_CHARS: usize = 280;

} // verus!
