use vstd::prelude::*;

use crate::models::validation_error::ValidationError;

verus! {

/// A habit unit is valid when it has at most fifteen characters. The empty
/// unit is valid here; building a habit replaces it with the literal "unit".
pub open spec fn unit_valid(s: Seq<char>) -> bool {
    s.len() <= 15
}

/// A validated measurement unit. Its view is the wrapped character sequence.
#[derive(PartialEq, Debug, Clone, Hash, Eq)]
pub struct HabitUnit(pub String);

impl View for HabitUnit {
    type V = Seq<char>;

    open spec fn view(&self) -> Seq<char> {
        self.0@
    }
}

impl DeepView for HabitUnit {
    type V = Seq<char>;

    open spec fn deep_view(&self) -> Seq<char> {
        self.0@
    }
}

impl HabitUnit {
    /// Validates and wraps a measurement unit of at most fifteen characters.
    pub fn new(unit: String) -> (r: Result<HabitUnit, ValidationError>)
        ensures
            r is Ok <==> unit_valid(unit@),
            r matches Ok(u) ==> u@ == unit@,
            r matches Err(e) ==> e@ == "Habit's unit cannot be longer than 15 characters!"@,
    {
        if unit.as_str().unicode_len() > 15 {
            Err(ValidationError::new("Habit's unit cannot be longer than 15 characters!"))
        } else {
            Ok(HabitUnit(unit))
        }
    }
}

} // verus!
