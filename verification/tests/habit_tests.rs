use habyt::Difficulty;
use habyt::Habit;
use habyt::HabitName;
use habyt::HabitUnit;
use habyt::Kind;
use habyt::Quantum;
use habyt::Streak;

fn parts() -> (HabitName, Quantum, HabitUnit) {
    (
        HabitName::new("read".to_string()).unwrap(),
        Quantum::from_bits(25.0f64.to_bits()),
        HabitUnit::new("pages".to_string()).unwrap(),
    )
}

#[test]
fn habit_defaults_apply_when_fields_are_absent() {
    let (name, quantum, unit) = parts();
    let h = Habit::new(1, name, quantum, unit, None, None, None, None).unwrap();
    assert_eq!(h.streak, Streak::Daily);
    assert_eq!(h.difficulty, Difficulty::Easy);
    assert_eq!(h.kind, Kind::Positive);
    assert!(h.active);
    assert_eq!(h.notes, "");
}

#[test]
fn empty_unit_becomes_the_literal_unit() {
    let (name, quantum, _) = parts();
    let empty_unit = HabitUnit::new("".to_string()).unwrap();
    let h = Habit::new(1, name, quantum, empty_unit, None, None, None, None).unwrap();
    assert_eq!(h.unit.0, "unit");
}

#[test]
fn negative_quantum_is_stored_as_zero() {
    let (name, _, unit) = parts();
    let q = Quantum::from_bits((-3.5f64).to_bits());
    let h = Habit::new(1, name, q, unit, None, None, None, None).unwrap();
    assert_eq!(h.quantum.bits, 0);
}

#[test]
fn positive_quantum_is_kept_exactly() {
    let (name, _, unit) = parts();
    let q = Quantum::from_bits(700.25f64.to_bits());
    let h = Habit::new(1, name, q, unit, None, None, None, None).unwrap();
    assert_eq!(h.quantum.bits, 700.25f64.to_bits());
}

#[test]
fn oversized_note_is_a_validation_error() {
    let (name, quantum, unit) = parts();
    let r = Habit::new(1, name, quantum, unit, None, None, None, Some("n".repeat(281)));
    let e = r.unwrap_err();
    assert_eq!(e.message(), "Habit's note cannot be longer than 280 characters!");
}

#[test]
fn note_of_exactly_280_chars_is_accepted() {
    let (name, quantum, unit) = parts();
    let r = Habit::new(1, name, quantum, unit, None, None, None, Some("n".repeat(280)));
    assert_eq!(r.unwrap().notes, "n".repeat(280));
}

#[test]
fn activate_deactivate_and_toggle_flip_only_the_flag() {
    let (name, quantum, unit) = parts();
    let mut h = Habit::new(1, name, quantum, unit, None, None, None, None).unwrap();
    h.deactivate();
    assert!(!h.active);
    h.activate();
    assert!(h.active);
    h.toggle();
    assert!(!h.active);
    h.toggle();
    assert!(h.active);
    assert_eq!(h.name.0, "read");
}

#[test]
fn classification_accessors_expose_the_fields() {
    let (name, quantum, unit) = parts();
    let h = Habit::new(
        1,
        name,
        quantum,
        unit,
        Some(Streak::Weekly),
        Some(Difficulty::Hard),
        Some(Kind::Negative),
        None,
    )
    .unwrap();
    assert_eq!(*h.streak(), Streak::Weekly);
    assert_eq!(*h.difficulty(), Difficulty::Hard);
    assert_eq!(*h.kind(), Kind::Negative);
    assert!(!h.is_easy());
    assert!(!h.is_positive());
    assert!(h.is_negative());
}

#[test]
fn enum_labels_render_by_name() {
    assert_eq!(Streak::Daily.to_string(), "Daily");
    assert_eq!(Streak::Weekly.to_string(), "Weekly");
    assert_eq!(Streak::Monthly.to_string(), "Monthly");
    assert_eq!(Difficulty::Trivial.to_string(), "Trivial");
    assert_eq!(Difficulty::Easy.to_string(), "Easy");
    assert_eq!(Difficulty::Medium.to_string(), "Medium");
    assert_eq!(Difficulty::Hard.to_string(), "Hard");
    assert_eq!(Kind::Positive.to_string(), "Positive");
    assert_eq!(Kind::Negative.to_string(), "Negative");
}
