use roulette::choice::{join_choices, ChoiceLabel};

#[test]
fn first_choice_is_shown_alone() {
    let mut label = ChoiceLabel::new();
    assert_eq!(label.on_choice("Apple".to_string()), "Apple");
    assert_eq!(label.selected, vec!["Apple".to_string()]);
}

#[test]
fn later_choices_are_joined_with_comma_and_space() {
    let mut label = ChoiceLabel::new();
    label.on_choice("Apple".to_string());
    label.on_choice("Pear".to_string());
    assert_eq!(label.on_choice("Plum".to_string()), "Apple, Pear, Plum");
    assert_eq!(label.selected.len(), 3);
}

#[test]
fn clearing_forgets_every_choice() {
    let mut label = ChoiceLabel::new();
    label.on_choice("Apple".to_string());
    label.on_choice("Pear".to_string());
    label.on_clear_choices();
    assert!(label.selected.is_empty());
    assert_eq!(label.on_choice("Fig".to_string()), "Fig");
}

#[test]
fn empty_choice_still_takes_a_separator() {
    let mut label = ChoiceLabel::new();
    label.on_choice("".to_string());
    assert_eq!(label.on_choice("B".to_string()), ", B");
}

#[test]
fn joining_nothing_gives_empty_text() {
    assert_eq!(join_choices(&Vec::new()), "");
    assert_eq!(join_choices(&vec!["one".to_string()]), "one");
    assert_eq!(join_choices(&vec!["a".to_string(), "b".to_string()]), "a, b");
}
