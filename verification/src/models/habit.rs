use vstd::prelude::*;

use crate::models::habit_name::HabitName;
use crate::models::habit_unit::HabitUnit;
use crate::models::quantum::Quantum;
use crate::models::quantum::bits_sign_positive;
use crate::models::validation_error::ValidationError;
use crate::NOTES_MAX_CHARS;

verus! {

/// The identifier a store assigns to a habit.
pub type HabitId = u32;

/// A note is valid when it has at most `NOTES_MAX_CHARS` characters.
pub open spec fn notes_valid(s: Seq<char>) -> bool {
    s.len() <= NOTES_MAX_CHARS
}

/// How often the habit recurs.
#[derive(PartialEq, Eq, Structural, Debug, Copy, Clone, Hash)]
pub enum Streak {
    Daily,
    Weekly,
    Monthly,
}

impl Streak {
    /// The display label of the variant.
    pub fn to_string(&self) -> (s: &str)
        ensures
            *self is Daily ==> s@ == "Daily"@,
            *self is Weekly ==> s@ == "Weekly"@,
            *self is Monthly ==> s@ == "Monthly"@,
    {
        match *self {
            Streak::Daily => "Daily",
            Streak::Weekly => "Weekly",
            Streak::Monthly => "Monthly",
        }
    }
}

/// How demanding the habit is.
#[derive(PartialEq, Eq, Structural, Debug, Copy, Clone, Hash)]
pub enum Difficulty {
    Trivial,
    Easy,
    Medium,
    Hard,
}

impl Difficulty {
    /// The display label of the variant.
    pub fn to_string(&self) -> (s: &str)
        ensures
            *self is Trivial ==> s@ == "Trivial"@,
            *self is Easy ==> s@ == "Easy"@,
            *self is Medium ==> s@ == "Medium"@,
            *self is Hard ==> s@ == "Hard"@,
    {
        match *self {
            Difficulty::Trivial => "Trivial",
            Difficulty::Easy => "Easy",
            Difficulty::Medium => "Medium",
            Difficulty::Hard => "Hard",
        }
    }
}

/// Whether the habit is one to build up or one to cut down.
#[derive(PartialEq, Eq, Structural, Debug, Copy, Clone, Hash)]
pub enum Kind {
    Positive,
    Negative,
}

impl Kind {
    /// The display label of the variant.
    pub fn to_string(&self) -> (s: &str)
        ensures
            *self is Positive ==> s@ == "Positive"@,
            *self is Negative ==> s@ == "Negative"@,
    {
        match *self {
            Kind::Positive => "Positive",
            Kind::Negative => "Negative",
        }
    }
}

/// The mathematical model of a habit: every field as a plain value.
pub ghost struct HabitView {
    pub id: HabitId,
    pub name: Seq<char>,
    pub quantum: u64,
    pub unit: Seq<char>,
    pub notes: Seq<char>,
    pub streak: Streak,
    pub difficulty: Difficulty,
    pub kind: Kind,
    pub active: bool,
}

/// A tracked recurring goal.
#[derive(PartialEq, Debug, Clone)]
pub struct Habit {
    pub id: HabitId,
    pub name: HabitName,
    pub quantum: Quantum,
    pub unit: HabitUnit,
    pub notes: String,
    pub streak: Streak,
    pub difficulty: Difficulty,
    pub kind: Kind,
    pub active: bool,
}

impl View for Habit {
    type V = HabitView;

    open spec fn view(&self) -> HabitView {
        HabitView {
            id: self.id,
            name: self.name@,
            quantum: self.quantum.bits,
            unit: self.unit@,
            notes: self.notes@,
            streak: self.streak,
            difficulty: self.difficulty,
            kind: self.kind,
            active: self.active,
        }
    }
}

impl DeepView for Habit {
    type V = HabitView;

    open spec fn deep_view(&self) -> HabitView {
        self.view()
    }
}

/// A non-positive or NaN goal is stored as zero.
pub open spec fn coerced_quantum(bits: u64) -> u64 {
    if bits_sign_positive(bits) {
        bits
    } else {
        0
    }
}

/// An empty unit is replaced by the literal "unit".
pub open spec fn defaulted_unit(u: Seq<char>) -> Seq<char> {
    if u.len() == 0 {
        "unit"@
    } else {
        u
    }
}

pub open spec fn default_streak(s: Option<Streak>) -> Streak {
    match s {
        Some(v) => v,
        None => Streak::Daily,
    }
}

pub open spec fn default_difficulty(d: Option<Difficulty>) -> Difficulty {
    match d {
        Some(v) => v,
        None => Difficulty::Easy,
    }
}

pub open spec fn default_kind(k: Option<Kind>) -> Kind {
    match k {
        Some(v) => v,
        None => Kind::Positive,
    }
}

pub open spec fn notes_or_empty(n: Option<Seq<char>>) -> Seq<char> {
    match n {
        Some(s) => s,
        None => Seq::empty(),
    }
}

/// The habit that construction builds from the given parts, after coercing
/// the quantum, defaulting the unit and the optional classification fields,
/// and activating it.
pub open spec fn built_habit(
    id: HabitId,
    name: Seq<char>,
    quantum: u64,
    unit: Seq<char>,
    streak: Option<Streak>,
    difficulty: Option<Difficulty>,
    kind: Option<Kind>,
    notes: Option<Seq<char>>,
) -> HabitView {
    HabitView {
        id,
        name,
        quantum: coerced_quantum(quantum),
        unit: defaulted_unit(unit),
        notes: notes_or_empty(notes),
        streak: default_streak(streak),
        difficulty: default_difficulty(difficulty),
        kind: default_kind(kind),
        active: true,
    }
}

impl Habit {
    /// Builds a habit from validated parts. A non-positive or NaN quantum is
    /// stored as zero; an empty unit becomes "unit"; absent classification
    /// fields take their defaults; the habit starts active. A note longer
    /// than `NOTES_MAX_CHARS` characters is a validation error.
    pub fn new(
        id: HabitId,
        name: HabitName,
        quantum: Quantum,
        unit: HabitUnit,
        streak: Option<Streak>,
        difficulty: Option<Difficulty>,
        kind: Option<Kind>,
        notes: Option<String>,
    ) -> (r: Result<Habit, ValidationError>)
        ensures
            r is Ok <==> notes_valid(notes_or_empty(notes.deep_view())),
            r matches Ok(h) ==> h@ == built_habit(
                id,
                name@,
                quantum.bits,
                unit@,
                streak,
                difficulty,
                kind,
                notes.deep_view(),
            ),
            r matches Err(e) ==> e@ == "Habit's note cannot be longer than 280 characters!"@,
    {
        let notes_str: String = match notes {
            Some(n) => {
                if n.as_str().unicode_len() > NOTES_MAX_CHARS {
                    return Err(
                        ValidationError::new("Habit's note cannot be longer than 280 characters!"),
                    );
                }
                n
            },
            None => String::new(),
        };
        let unit = if unit.0.as_str().is_empty() {
            HabitUnit("unit".to_owned())
        } else {
            unit
        };
        let quantum = if quantum.is_sign_positive() {
            quantum
        } else {
            Quantum::zero()
        };
        let streak = match streak {
            Some(s) => s,
            None => Streak::Daily,
        };
        let difficulty = match difficulty {
            Some(d) => d,
            None => Difficulty::Easy,
        };
        let kind = match kind {
            Some(k) => k,
            None => Kind::Positive,
        };
        Ok(Habit { id, name, quantum, unit, notes: notes_str, streak, difficulty, kind, active: true })
    }

    pub fn streak(&self) -> (r: &Streak)
        ensures
            *r == self.streak,
    {
        &self.streak
    }

    pub fn kind(&self) -> (r: &Kind)
        ensures
            *r == self.kind,
    {
        &self.kind
    }

    pub fn difficulty(&self) -> (r: &Difficulty)
        ensures
            *r == self.difficulty,
    {
        &self.difficulty
    }

    pub fn is_easy(&self) -> (r: bool)
        ensures
            r == (self.difficulty is Easy),
    {
        match self.difficulty {
            Difficulty::Easy => true,
            _ => false,
        }
    }

    pub fn is_positive(&self) -> (r: bool)
        ensures
            r == (self.kind is Positive),
    {
        match self.kind {
            Kind::Positive => true,
            Kind::Negative => false,
        }
    }

    pub fn is_negative(&self) -> (r: bool)
        ensures
            r == (self.kind is Negative),
    {
        !self.is_positive()
    }

    /// Marks the habit active; every other field is untouched.
    pub fn activate(&mut self)
        ensures
            final(self)@ == (HabitView { active: true, ..old(self)@ }),
    {
        self.active = true
    }

    /// Marks the habit inactive; every other field is untouched.
    pub fn deactivate(&mut self)
        ensures
            final(self)@ == (HabitView { active: false, ..old(self)@ }),
    {
        self.active = false
    }

    /// Flips the active flag; every other field is untouched.
    pub fn toggle(&mut self)
        ensures
            final(self)@ == (HabitView { active: !old(self).active, ..old(self)@ }),
    {
        self.active = !self.active
    }
}

/// A habit removed from a store, handed back to the caller.
#[derive(PartialEq, Debug)]
pub struct DeletedHabit(pub Habit);

impl View for DeletedHabit {
    type V = HabitView;

    open spec fn view(&self) -> HabitView {
        self.0@
    }
}

} // verus!
