use habyt::habit_store_from_text;
use habyt::habit_store_to_text;
use habyt::log_store_from_text;
use habyt::log_store_to_text;
use habyt::Date;
use habyt::Difficulty;
use habyt::HabitDraft;
use habyt::HabitLog;
use habyt::HabitLogStore;
use habyt::HabitStore;
use habyt::Kind;
use habyt::Quantum;
use habyt::Streak;

fn populated_store() -> HabitStore {
    let mut store = HabitStore::new();
    let draft = HabitDraft::from(
        "write daily".to_string(),
        Quantum::from_bits(750.5f64.to_bits()),
        "words".to_string(),
        Some(Streak::Weekly),
        Some(Difficulty::Hard),
        Some(Kind::Negative),
        Some("a note with\nnewlines and 0123456789abcdef digits".to_string()),
    )
    .unwrap();
    store.create(draft);
    store.create(HabitDraft::new(
        "run".to_string(),
        Quantum::from_bits(5.0f64.to_bits()),
        "km".to_string(),
    )
    .unwrap());
    store
}

#[test]
fn habit_store_round_trips_through_its_text() {
    let store = populated_store();
    let text = habit_store_to_text(&store);
    let reloaded = habit_store_from_text(&text).expect("rendered text must parse");

    let habit = reloaded.get(1).unwrap();
    assert_eq!(habit.name.0, "write daily");
    assert_eq!(habit.quantum.bits, 750.5f64.to_bits());
    assert_eq!(habit.unit.0, "words");
    assert_eq!(habit.streak, Streak::Weekly);
    assert_eq!(habit.difficulty, Difficulty::Hard);
    assert_eq!(habit.kind, Kind::Negative);
    assert_eq!(habit.notes, "a note with\nnewlines and 0123456789abcdef digits");
    assert!(habit.active);
    assert_eq!(reloaded.get(2).unwrap().name.0, "run");
    assert_eq!(reloaded.list().len(), 2);

    assert_eq!(habit_store_to_text(&reloaded), text);
}

#[test]
fn reloaded_store_keeps_issuing_fresh_ids() {
    let store = populated_store();
    let text = habit_store_to_text(&store);
    let mut reloaded = habit_store_from_text(&text).unwrap();
    let id = reloaded.create(HabitDraft::new(
        "swim".to_string(),
        Quantum::from_bits(1.0f64.to_bits()),
        "laps".to_string(),
    )
    .unwrap());
    assert_eq!(id, 3);
}

#[test]
fn empty_habit_store_round_trips() {
    let store = HabitStore::new();
    let text = habit_store_to_text(&store);
    let reloaded = habit_store_from_text(&text).unwrap();
    assert!(reloaded.list().is_empty());
}

#[test]
fn log_store_round_trips_through_its_text() {
    let mut store = HabitLogStore::new();
    let d1 = Date { year: 2024, month: 2, day: 29 };
    let d2 = Date { year: 1969, month: 12, day: 31 };
    store.add(
        HabitLog::with_date(1, Quantum::from_bits(10.0f64.to_bits()), Some("pb".to_string()), d1)
            .unwrap(),
    );
    store.add(HabitLog::with_date(2, Quantum::from_bits(0.5f64.to_bits()), None, d2).unwrap());

    let text = log_store_to_text(&store);
    let reloaded = log_store_from_text(&text).expect("rendered text must parse");

    let first = reloaded.get(1).unwrap();
    assert_eq!(first.id, 1);
    assert_eq!(first.quantum.bits, 10.0f64.to_bits());
    assert_eq!(first.notes, "pb");
    assert_eq!(first.date, d1);
    let second = reloaded.get(2).unwrap();
    assert_eq!(second.id, 2);
    assert_eq!(second.date, d2);

    assert_eq!(log_store_to_text(&reloaded), text);
}

#[test]
fn empty_log_store_round_trips() {
    let store = HabitLogStore::new();
    let text = log_store_to_text(&store);
    let reloaded = log_store_from_text(&text).unwrap();
    assert!(reloaded.list().is_empty());
}

#[test]
fn malformed_text_does_not_parse() {
    assert!(habit_store_from_text("").is_none());
    assert!(habit_store_from_text("not a store").is_none());
    assert!(log_store_from_text("0000").is_none());
}

#[test]
fn trailing_garbage_does_not_parse() {
    let store = populated_store();
    let mut text = habit_store_to_text(&store);
    text.push_str("00");
    assert!(habit_store_from_text(&text).is_none());
}

#[test]
fn truncated_text_does_not_parse() {
    let store = populated_store();
    let text = habit_store_to_text(&store);
    let truncated: String = text.chars().take(text.chars().count() - 3).collect();
    assert!(habit_store_from_text(&truncated).is_none());
}
