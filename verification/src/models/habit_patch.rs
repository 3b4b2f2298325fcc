use vstd::prelude::*;

use crate::models::habit::Difficulty;
use crate::models::habit::Kind;
use crate::models::habit::Streak;
use crate::models::habit::notes_valid;
use crate::models::habit_name::HabitName;
use crate::models::habit_name::name_error_message;
use crate::models::habit_name::name_valid;
use crate::models::habit_unit::HabitUnit;
use crate::models::habit_unit::unit_valid;
use crate::models::quantum::Quantum;
use crate::models::validation_error::ValidationError;

verus! {

/// The mathematical model of a patch.
pub ghost struct PatchView {
    pub name: Option<Seq<char>>,
    pub quantum: Option<u64>,
    pub unit: Option<Seq<char>>,
    pub streak: Option<Streak>,
    pub difficulty: Option<Difficulty>,
    pub kind: Option<Kind>,
    pub notes: Option<Seq<char>>,
}

impl PatchView {
    /// A well-formed patch carries no note longer than the cap.
    pub open spec fn wf(self) -> bool {
        match self.notes {
            Some(n) => notes_valid(n),
            None => true,
        }
    }
}

/// A partial update: only the present fields overwrite a habit's.
#[derive(PartialEq, Debug, Clone)]
pub struct HabitPatch {
    pub name: Option<HabitName>,
    pub quantum: Option<Quantum>,
    pub unit: Option<HabitUnit>,
    pub streak: Option<Streak>,
    pub difficulty: Option<Difficulty>,
    pub kind: Option<Kind>,
    pub notes: Option<String>,
}

pub open spec fn quantum_bits_view(q: Option<Quantum>) -> Option<u64> {
    match q {
        Some(v) => Some(v.bits),
        None => None,
    }
}

impl View for HabitPatch {
    type V = PatchView;

    open spec fn view(&self) -> PatchView {
        PatchView {
            name: self.name.deep_view(),
            quantum: quantum_bits_view(self.quantum),
            unit: self.unit.deep_view(),
            streak: self.streak,
            difficulty: self.difficulty,
            kind: self.kind,
            notes: self.notes.deep_view(),
        }
    }
}

impl HabitPatch {
    /// Builds a patch from raw command input. An empty name or unit string
    /// means the field is absent from the patch; a non-empty one must be
    /// valid. The quantum is always present. A note over the cap is a
    /// validation error, so the patch it returns is well-formed.
    pub fn from(
        name: String,
        quantum: Quantum,
        unit: String,
        streak: Option<Streak>,
        difficulty: Option<Difficulty>,
        kind: Option<Kind>,
        notes: Option<String>,
    ) -> (r: Result<HabitPatch, ValidationError>)
        ensures
            r is Ok <==> (name@.len() == 0 || name_valid(name@)) && (unit@.len() == 0
                || unit_valid(unit@)) && (match notes.deep_view() {
                Some(n) => notes_valid(n),
                None => true,
            }),
            r matches Ok(p) ==> p@ == (PatchView {
                name: if name@.len() == 0 {
                    None
                } else {
                    Some(name@)
                },
                quantum: Some(quantum.bits),
                unit: if unit@.len() == 0 {
                    None
                } else {
                    Some(unit@)
                },
                streak,
                difficulty,
                kind,
                notes: notes.deep_view(),
            }),
            r matches Ok(p) ==> p@.wf(),
            r matches Err(e) ==> e@ == (if name@.len() > 0 && !name_valid(name@) {
                name_error_message(name@)
            } else if unit@.len() > 0 && !unit_valid(unit@) {
                "Habit's unit cannot be longer than 15 characters!"@
            } else {
                "Habit's note cannot be longer than 280 characters!"@
            }),
    {
        let name = if name.as_str().is_empty() {
            None
        } else {
            match HabitName::new(name) {
                Ok(n) => Some(n),
                Err(e) => {
                    return Err(e);
                },
            }
        };
        let unit = if unit.as_str().is_empty() {
            None
        } else {
            match HabitUnit::new(unit) {
                Ok(u) => Some(u),
                Err(e) => {
                    return Err(e);
                },
            }
        };
        match &notes {
            Some(n) => {
                if n.as_str().unicode_len() > crate::NOTES_MAX_CHARS {
                    return Err(
                        ValidationError::new("Habit's note cannot be longer than 280 characters!"),
                    );
                }
            },
            None => {},
        }
        Ok(HabitPatch { name, quantum: Some(quantum), unit, streak, difficulty, kind, notes })
    }
}

} // verus!
