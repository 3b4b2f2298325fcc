use vstd::prelude::*;

use crate::models::habit::Difficulty;
use crate::models::habit::HabitId;
use crate::models::habit::HabitView;
use crate::models::habit::Kind;
use crate::models::habit::Streak;
use crate::models::habit::built_habit;
use crate::models::habit::notes_valid;
use crate::models::habit_name::HabitName;
use crate::models::habit_name::name_error_message;
use crate::models::habit_name::name_valid;
use crate::models::habit_unit::HabitUnit;
use crate::models::habit_unit::unit_valid;
use crate::models::quantum::Quantum;
use crate::models::validation_error::ValidationError;

verus! {

/// The mathematical model of a draft.
pub ghost struct DraftView {
    pub name: Seq<char>,
    pub quantum: u64,
    pub unit: Seq<char>,
    pub streak: Option<Streak>,
    pub difficulty: Option<Difficulty>,
    pub kind: Option<Kind>,
    pub notes: Option<Seq<char>>,
}

impl DraftView {
    /// A well-formed draft carries no note longer than the cap, so creating
    /// a habit from it cannot fail.
    pub open spec fn wf(self) -> bool {
        match self.notes {
            Some(n) => notes_valid(n),
            None => true,
        }
    }
}

/// The habit a store builds when it creates from draft `d` under
/// identifier `id`.
pub open spec fn habit_of_draft(id: HabitId, d: DraftView) -> HabitView {
    built_habit(id, d.name, d.quantum, d.unit, d.streak, d.difficulty, d.kind, d.notes)
}

/// Unsaved habit content, used to create a new habit.
#[derive(PartialEq, Debug, Clone)]
pub struct HabitDraft {
    pub name: HabitName,
    pub quantum: Quantum,
    pub unit: HabitUnit,
    pub streak: Option<Streak>,
    pub difficulty: Option<Difficulty>,
    pub kind: Option<Kind>,
    pub notes: Option<String>,
}

impl View for HabitDraft {
    type V = DraftView;

    open spec fn view(&self) -> DraftView {
        DraftView {
            name: self.name@,
            quantum: self.quantum.bits,
            unit: self.unit@,
            streak: self.streak,
            difficulty: self.difficulty,
            kind: self.kind,
            notes: self.notes.deep_view(),
        }
    }
}

impl HabitDraft {
    /// Builds a draft from a raw name and unit, with no classification and
    /// no note. Fails with the name's own diagnostic when the name is
    /// invalid, then with the unit's when the unit is.
    pub fn new(name: String, quantum: Quantum, unit: String) -> (r: Result<
        HabitDraft,
        ValidationError,
    >)
        ensures
            r is Ok <==> name_valid(name@) && unit_valid(unit@),
            r matches Ok(d) ==> d@ == (DraftView {
                name: name@,
                quantum: quantum.bits,
                unit: unit@,
                streak: None,
                difficulty: None,
                kind: None,
                notes: None,
            }),
            r matches Err(e) ==> e@ == (if !name_valid(name@) {
                name_error_message(name@)
            } else {
                "Habit's unit cannot be longer than 15 characters!"@
            }),
    {
        let name = match HabitName::new(name) {
            Ok(n) => n,
            Err(e) => {
                return Err(e);
            },
        };
        let unit = match HabitUnit::new(unit) {
            Ok(u) => u,
            Err(e) => {
                return Err(e);
            },
        };
        Ok(
            HabitDraft {
                name,
                quantum,
                unit,
                streak: None,
                difficulty: None,
                kind: None,
                notes: None,
            },
        )
    }

    /// Builds a draft from every field. Fails as `new` does on the name and
    /// unit, and with the note diagnostic on a note over the cap, so the
    /// draft it returns is well-formed.
    pub fn from(
        name: String,
        quantum: Quantum,
        unit: String,
        streak: Option<Streak>,
        difficulty: Option<Difficulty>,
        kind: Option<Kind>,
        notes: Option<String>,
    ) -> (r: Result<HabitDraft, ValidationError>)
        ensures
            r is Ok <==> name_valid(name@) && unit_valid(unit@) && (match notes.deep_view() {
                Some(n) => notes_valid(n),
                None => true,
            }),
            r matches Ok(d) ==> d@ == (DraftView {
                name: name@,
                quantum: quantum.bits,
                unit: unit@,
                streak,
                difficulty,
                kind,
                notes: notes.deep_view(),
            }),
            r matches Ok(d) ==> d@.wf(),
            r matches Err(e) ==> e@ == (if !name_valid(name@) {
                name_error_message(name@)
            } else if !unit_valid(unit@) {
                "Habit's unit cannot be longer than 15 characters!"@
            } else {
                "Habit's note cannot be longer than 280 characters!"@
            }),
    {
        let name = match HabitName::new(name) {
            Ok(n) => n,
            Err(e) => {
                return Err(e);
            },
        };
        let unit = match HabitUnit::new(unit) {
            Ok(u) => u,
            Err(e) => {
                return Err(e);
            },
        };
        match &notes {
            Some(n) => {
                if n.as_str().unicode_len() > crate::NOTES_MAX_CHARS {
                    return Err(
                        ValidationError::new("Habit's note cannot be longer than 280 characters!"),
                    );
                }
            },
            None => {},
        }
        Ok(HabitDraft { name, quantum, unit, streak, difficulty, kind, notes })
    }
}

} // verus!
