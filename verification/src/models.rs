pub mod habit;
pub mod habit_draft;
pub mod habit_log;
pub mod habit_name;
pub mod habit_patch;
pub mod habit_unit;
pub mod quantum;
pub mod validation_error;
