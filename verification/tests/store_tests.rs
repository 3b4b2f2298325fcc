use habyt::HabitDraft;
use habyt::HabitName;
use habyt::HabitPatch;
use habyt::HabitStore;
use habyt::HabitUnit;
use habyt::Quantum;

fn draft(name: &str, quantum: f64, unit: &str) -> HabitDraft {
    HabitDraft::new(name.to_string(), Quantum::from_bits(quantum.to_bits()), unit.to_string())
        .unwrap()
}

fn empty_patch() -> HabitPatch {
    HabitPatch {
        name: None,
        quantum: None,
        unit: None,
        streak: None,
        difficulty: None,
        kind: None,
        notes: None,
    }
}

#[test]
fn can_create_habit_with_provided_details() {
    let draft = draft("reading every day", 700.0, "pages");
    let mut habit_store = HabitStore::new();

    let habit_id = habit_store.create(draft.clone());

    let habit = habit_store.get(habit_id).expect("Failed to retrieve habit.");
    assert_eq!(habit.name, draft.name);
    assert_eq!(habit.quantum, draft.quantum);
    assert_eq!(habit.unit, draft.unit);
}

#[test]
fn can_delete_habit_with_provided_id() {
    let draft = draft("reading every day", 700.0, "pages");
    let mut habit_store = HabitStore::new();
    let habit_id = habit_store.create(draft.clone());

    let deleted_habit = habit_store.delete(habit_id).expect("There was no habit to delete.");

    assert_eq!(deleted_habit.0.id, habit_id);
    assert_eq!(habit_store.get(habit_id), None);
}

#[test]
fn deleting_a_habit_that_does_not_exist_returns_none() {
    let mut habit_store = HabitStore::new();

    let deleted_habit = habit_store.delete(417);

    assert_eq!(deleted_habit, None);
}

#[test]
fn listing_habits_of_an_empty_store_returns_an_empty_collection() {
    let habit_store = HabitStore::new();

    let habits = habit_store.list();

    assert!(habits.is_empty())
}

#[test]
fn created_ids_start_at_one_and_increase() {
    let mut store = HabitStore::new();
    let id1 = store.create(draft("run", 1.0, "km"));
    let id2 = store.create(draft("swim", 2.0, "laps"));
    assert_eq!(id1, 1);
    assert_eq!(id2, 2);
}

#[test]
fn deletion_never_reuses_an_id() {
    let mut store = HabitStore::new();
    let id1 = store.create(draft("run", 1.0, "km"));
    store.delete(id1).unwrap();
    let id2 = store.create(draft("swim", 2.0, "laps"));
    assert!(id2 > id1);
    assert_eq!(store.get(id1), None);
}

#[test]
fn listing_returns_every_current_habit() {
    let mut store = HabitStore::new();
    store.create(draft("run", 1.0, "km"));
    store.create(draft("swim", 2.0, "laps"));
    let habits = store.list();
    assert_eq!(habits.len(), 2);
    assert_eq!(habits[0].name.0, "run");
    assert_eq!(habits[1].name.0, "swim");
}

#[test]
fn update_with_only_quantum_changes_only_quantum() {
    let mut store = HabitStore::new();
    let id = store.create(draft("reading", 700.0, "pages"));

    let patch = HabitPatch {
        quantum: Some(Quantum::from_bits(650.0f64.to_bits())),
        ..empty_patch()
    };
    assert_eq!(store.update(id, patch), Some(()));

    let habit = store.get(id).unwrap();
    assert_eq!(habit.quantum.bits, 650.0f64.to_bits());
    assert_eq!(habit.name.0, "reading");
    assert_eq!(habit.unit.0, "pages");
    assert_eq!(habit.notes, "");
}

#[test]
fn update_with_nonpositive_quantum_keeps_the_stored_quantum() {
    let mut store = HabitStore::new();
    let id = store.create(draft("reading", 700.0, "pages"));

    let zero = HabitPatch { quantum: Some(Quantum::from_bits(0.0f64.to_bits())), ..empty_patch() };
    assert_eq!(store.update(id, zero), Some(()));
    assert_eq!(store.get(id).unwrap().quantum.bits, 700.0f64.to_bits());

    let negative = HabitPatch {
        quantum: Some(Quantum::from_bits((-5.0f64).to_bits())),
        ..empty_patch()
    };
    assert_eq!(store.update(id, negative), Some(()));
    assert_eq!(store.get(id).unwrap().quantum.bits, 700.0f64.to_bits());
}

#[test]
fn update_with_empty_name_in_patch_keeps_the_stored_name() {
    let mut store = HabitStore::new();
    let id = store.create(draft("reading", 700.0, "pages"));

    let patch = HabitPatch { name: Some(HabitName("".to_string())), ..empty_patch() };
    assert_eq!(store.update(id, patch), Some(()));
    assert_eq!(store.get(id).unwrap().name.0, "reading");
}

#[test]
fn update_of_an_absent_id_is_a_noop_signal() {
    let mut store = HabitStore::new();
    let patch = empty_patch();
    assert_eq!(store.update(9, patch), None);
}

#[test]
fn update_applies_name_and_unit_when_present() {
    let mut store = HabitStore::new();
    let id = store.create(draft("reading", 700.0, "pages"));
    let patch = HabitPatch {
        name: Some(HabitName::new("writing".to_string()).unwrap()),
        unit: Some(HabitUnit::new("words".to_string()).unwrap()),
        ..empty_patch()
    };
    assert_eq!(store.update(id, patch), Some(()));
    let habit = store.get(id).unwrap();
    assert_eq!(habit.name.0, "writing");
    assert_eq!(habit.unit.0, "words");
    assert_eq!(habit.quantum.bits, 700.0f64.to_bits());
}

#[test]
fn draft_construction_rejects_invalid_name_and_unit() {
    let bad_name = HabitDraft::new(
        "way too many words in this name".to_string(),
        Quantum::from_bits(1.0f64.to_bits()),
        "km".to_string(),
    );
    assert!(bad_name.is_err());
    let bad_unit = HabitDraft::new(
        "run".to_string(),
        Quantum::from_bits(1.0f64.to_bits()),
        "a".repeat(16),
    );
    assert!(bad_unit.is_err());
}

#[test]
fn full_draft_rejects_an_oversized_note() {
    let r = HabitDraft::from(
        "run".to_string(),
        Quantum::from_bits(1.0f64.to_bits()),
        "km".to_string(),
        None,
        None,
        None,
        Some("n".repeat(281)),
    );
    assert_eq!(r.unwrap_err().message(), "Habit's note cannot be longer than 280 characters!");
}

#[test]
fn patch_from_treats_empty_strings_as_absent() {
    let p = HabitPatch::from(
        "".to_string(),
        Quantum::from_bits(3.0f64.to_bits()),
        "".to_string(),
        None,
        None,
        None,
        None,
    )
    .unwrap();
    assert_eq!(p.name, None);
    assert_eq!(p.unit, None);
    assert_eq!(p.quantum, Some(Quantum::from_bits(3.0f64.to_bits())));
}

#[test]
fn patch_from_rejects_an_invalid_nonempty_name() {
    let p = HabitPatch::from(
        "one two three four five".to_string(),
        Quantum::from_bits(3.0f64.to_bits()),
        "".to_string(),
        None,
        None,
        None,
        None,
    );
    assert!(p.is_err());
}
