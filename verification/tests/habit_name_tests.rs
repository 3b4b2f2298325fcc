use habyt::HabitName;

#[test]
fn creating_an_empty_name_should_fail() {
    let new_name = HabitName::new("".to_string());
    assert!(new_name.is_err())
}

#[test]
fn creating_a_name_with_more_than_three_words_should_fail() {
    let new_name = HabitName::new("habit name has more than four words".to_string());
    assert!(new_name.is_err())
}

#[test]
fn creating_a_name_with_more_than_50chars_should_fail() {
    let new_name = HabitName::new("a".repeat(51));
    assert!(new_name.is_err())
}

#[test]
fn valid_name_is_preserved_exactly() {
    let name = HabitName::new("drink more water".to_string()).unwrap();
    assert_eq!(name.0, "drink more water");
}

#[test]
fn name_of_exactly_fifty_chars_is_valid() {
    let s = "a".repeat(50);
    let name = HabitName::new(s.clone()).unwrap();
    assert_eq!(name.0, s);
}

#[test]
fn name_with_exactly_three_words_is_valid() {
    assert!(HabitName::new("one two three".to_string()).is_ok());
}

#[test]
fn name_error_messages_name_the_rule() {
    let empty = HabitName::new("".to_string()).unwrap_err();
    assert_eq!(empty.message(), "Habit's Name cannot be empty!");
    let wordy = HabitName::new("one two three four".to_string()).unwrap_err();
    assert_eq!(wordy.message(), "Habit's name cannot have more than 3 words!!");
    let long = HabitName::new("a".repeat(60)).unwrap_err();
    assert_eq!(long.message(), "Habit's name cannot be longer than 50 characters!");
}
