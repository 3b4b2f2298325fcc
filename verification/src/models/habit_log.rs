use vstd::prelude::*;

use crate::models::habit::HabitId;
use crate::models::habit::notes_valid;
use crate::models::quantum::Quantum;
use crate::models::validation_error::ValidationError;

verus! {

/// A calendar date as plain values.
#[derive(PartialEq, Eq, Structural, Debug, Copy, Clone, Hash)]
pub struct Date {
    pub year: i32,
    pub month: u8,
    pub day: u8,
}

/// The month and day lie in calendar range.
pub open spec fn date_in_calendar_range(d: Date) -> bool {
    &&& 1 <= d.month <= 12
    &&& 1 <= d.day <= 31
}

/// Relies on chrono's `Local::now` and the `Datelike` accessors of the naive
/// date it carries, for the current local calendar date; chrono keeps month
/// and day in calendar range. The result depends on the clock, so nothing
/// more is promised of it.
#[verifier::external_body]
fn today_local() -> (d: Date)
    ensures
        date_in_calendar_range(d),
{
    let now = chrono::Local::now().date_naive();
    Date {
        year: chrono::Datelike::year(&now),
        month: chrono::Datelike::month(&now) as u8,
        day: chrono::Datelike::day(&now) as u8,
    }
}

/// The mathematical model of a log entry.
pub ghost struct LogView {
    pub id: HabitId,
    pub quantum: u64,
    pub notes: Seq<char>,
    pub date: Date,
}

/// A dated record of actual progress against a habit. `id` references the
/// habit, not the entry: the log store assigns entry identifiers itself.
#[derive(PartialEq, Debug, Clone)]
pub struct HabitLog {
    pub id: HabitId,
    pub quantum: Quantum,
    pub notes: String,
    pub date: Date,
}

impl View for HabitLog {
    type V = LogView;

    open spec fn view(&self) -> LogView {
        LogView { id: self.id, quantum: self.quantum.bits, notes: self.notes@, date: self.date }
    }
}

impl DeepView for HabitLog {
    type V = LogView;

    open spec fn deep_view(&self) -> LogView {
        self.view()
    }
}

impl HabitLog {
    /// Builds a log entry against habit `id`, dated with the given calendar
    /// date. A note over the cap is a validation error.
    pub fn with_date(id: HabitId, quantum: Quantum, notes: Option<String>, date: Date) -> (r:
        Result<HabitLog, ValidationError>)
        ensures
            r is Ok <==> (match notes.deep_view() {
                Some(n) => notes_valid(n),
                None => true,
            }),
            r matches Ok(l) ==> l@ == (LogView {
                id,
                quantum: quantum.bits,
                notes: match notes.deep_view() {
                    Some(n) => n,
                    None => Seq::empty(),
                },
                date,
            }),
            r matches Err(e) ==> e@ == "Log's note cannot be longer than 280 characters!"@,
    {
        let notes_str: String = match notes {
            Some(n) => {
                if n.as_str().unicode_len() > crate::NOTES_MAX_CHARS {
                    return Err(
                        ValidationError::new("Log's note cannot be longer than 280 characters!"),
                    );
                }
                n
            },
            None => String::new(),
        };
        Ok(HabitLog { id, quantum, notes: notes_str, date })
    }

    /// Builds a log entry dated with the current local calendar date. The
    /// date depends on the clock: only its calendar range is known.
    pub fn new(id: HabitId, quantum: Quantum, notes: Option<String>) -> (r: Result<
        HabitLog,
        ValidationError,
    >)
        ensures
            r is Ok <==> (match notes.deep_view() {
                Some(n) => notes_valid(n),
                None => true,
            }),
            r matches Ok(l) ==> l@.id == id && l@.quantum == quantum.bits && l@.notes == (match notes
                .deep_view() {
                Some(n) => n,
                None => Seq::<char>::empty(),
            }) && date_in_calendar_range(l@.date),
            r matches Err(e) ==> e@ == "Log's note cannot be longer than 280 characters!"@,
    {
        let date = today_local();
        HabitLog::with_date(id, quantum, notes, date)
    }
}

} // verus!
