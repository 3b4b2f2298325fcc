use habyt::HabitUnit;

#[test]
fn creating_a_unit_with_more_than_15chars_should_fail() {
    let new_unit = HabitUnit::new("a".repeat(16));
    assert!(new_unit.is_err())
}

#[test]
fn unit_of_at_most_fifteen_chars_is_preserved() {
    let unit = HabitUnit::new("words".to_string()).unwrap();
    assert_eq!(unit.0, "words");
    let fifteen = HabitUnit::new("a".repeat(15)).unwrap();
    assert_eq!(fifteen.0, "a".repeat(15));
}

#[test]
fn empty_unit_is_valid_at_the_value_level() {
    let unit = HabitUnit::new("".to_string()).unwrap();
    assert_eq!(unit.0, "");
}

#[test]
fn unit_error_message_names_the_rule() {
    let e = HabitUnit::new("a".repeat(16)).unwrap_err();
    assert_eq!(e.message(), "Habit's unit cannot be longer than 15 characters!");
}
