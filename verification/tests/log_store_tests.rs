use habyt::Date;
use habyt::HabitLog;
use habyt::HabitLogStore;
use habyt::Quantum;

fn log_on(id: u32, quantum: f64, date: Date) -> HabitLog {
    HabitLog::with_date(id, Quantum::from_bits(quantum.to_bits()), None, date).unwrap()
}

fn day(d: u8) -> Date {
    Date { year: 2024, month: 3, day: d }
}

#[test]
fn adding_entries_yields_increasing_entry_ids() {
    let mut store = HabitLogStore::new();
    let e1 = store.add(log_on(1, 10.0, day(1)));
    let e2 = store.add(log_on(1, 20.0, day(2)));
    assert_eq!(e1, 1);
    assert_eq!(e2, 2);
}

#[test]
fn get_returns_the_entry_under_its_entry_id() {
    let mut store = HabitLogStore::new();
    let e1 = store.add(log_on(7, 10.0, day(1)));
    let entry = store.get(e1).unwrap();
    assert_eq!(entry.id, 7);
    assert_eq!(entry.quantum.bits, 10.0f64.to_bits());
    assert_eq!(store.get(99), None);
}

#[test]
fn listing_returns_every_entry() {
    let mut store = HabitLogStore::new();
    store.add(log_on(1, 10.0, day(1)));
    store.add(log_on(2, 5.0, day(3)));
    let entries = store.list();
    assert_eq!(entries.len(), 2);
    assert_eq!(entries[0].id, 1);
    assert_eq!(entries[1].id, 2);
}

#[test]
fn grouping_by_habit_collects_dated_pairs_per_habit() {
    let mut store = HabitLogStore::new();
    let d1 = day(1);
    let d2 = day(2);
    let d3 = day(3);
    store.add(log_on(1, 10.0, d1));
    store.add(log_on(1, 20.0, d2));
    store.add(log_on(2, 5.0, d3));

    let grouped = store.get_log_by_habit();

    assert_eq!(grouped.len(), 2);
    assert_eq!(grouped[0].0, 1);
    assert_eq!(
        grouped[0].1,
        vec![
            (d1, Quantum::from_bits(10.0f64.to_bits())),
            (d2, Quantum::from_bits(20.0f64.to_bits())),
        ]
    );
    assert_eq!(grouped[1].0, 2);
    assert_eq!(grouped[1].1, vec![(d3, Quantum::from_bits(5.0f64.to_bits()))]);
}

#[test]
fn grouping_an_empty_log_store_yields_no_groups() {
    let store = HabitLogStore::new();
    assert!(store.get_log_by_habit().is_empty());
}

#[test]
fn new_log_entry_is_dated_with_a_calendar_date() {
    let log = HabitLog::new(1, Quantum::from_bits(2.0f64.to_bits()), None).unwrap();
    assert!((1..=12).contains(&log.date.month));
    assert!((1..=31).contains(&log.date.day));
    assert_eq!(log.notes, "");
}

#[test]
fn log_entry_rejects_an_oversized_note() {
    let r = HabitLog::with_date(1, Quantum::from_bits(2.0f64.to_bits()), Some("n".repeat(281)), day(1));
    assert_eq!(r.unwrap_err().message(), "Log's note cannot be longer than 280 characters!");
}

#[test]
fn log_entry_keeps_a_note_within_the_cap() {
    let l = HabitLog::with_date(1, Quantum::from_bits(2.0f64.to_bits()), Some("ok".to_string()), day(1))
        .unwrap();
    assert_eq!(l.notes, "ok");
}
