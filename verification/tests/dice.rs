use byog::dice::{roll_dice, roll_dice_total, roll_die, validate_fa_icon};
use byog::engine::EngineError;

#[test]
fn dice_roll_die_stays_within_range() {
    for _ in 0..100 {
        let value = roll_die(6).expect("roll d6");
        assert!((1..=6).contains(&value));
    }
}

#[test]
fn dice_roll_dice_returns_requested_count_within_range() {
    let values = roll_dice(5, 20).expect("roll 5d20");
    assert_eq!(values.len(), 5);
    assert!(values.iter().all(|value| (1..=20).contains(value)));
}

#[test]
fn dice_roll_dice_total_stays_in_expected_range() {
    for _ in 0..100 {
        let total = roll_dice_total(3, 6).expect("roll 3d6");
        assert!((3..=18).contains(&total));
    }
}

#[test]
fn dice_rejects_invalid_die_shapes() {
    assert!(roll_die(0).is_err());
    assert!(roll_dice(0, 6).is_err());
    assert!(roll_dice(1, 0).is_err());
}

#[test]
fn one_sided_dice_always_roll_one() {
    assert_eq!(roll_die(1).unwrap(), 1);
    assert_eq!(roll_dice(4, 1).unwrap(), vec![1, 1, 1, 1]);
    assert_eq!(roll_dice_total(7, 1).unwrap(), 7);
}

fn message(r: Result<impl std::fmt::Debug, EngineError>) -> String {
    match r {
        Err(EngineError::Validation(m)) => m,
        other => panic!("expected a validation error, got {:?}", other.map(|_| ()).is_ok()),
    }
}

#[test]
fn dice_errors_name_the_problem() {
    assert_eq!(message(roll_dice_total(0, 6)), "Must roll at least 1 die");
    assert_eq!(message(roll_dice(3, 0)), "Dice must have at least 1 side");
    assert_eq!(message(roll_die(0)), "Dice must have at least 1 side");
}

#[test]
fn invalid_icon_message_quotes_the_icon() {
    assert_eq!(
        message(validate_fa_icon("Fa-\"Skull")),
        "invalid Font Awesome icon: \"Fa-\\\"Skull\". Expected format: \"fa-<name>\" or \"fa-(solid|regular|brands) fa-<name>\""
    );
}

#[test]
fn valid_fa_icons() {
    assert!(validate_fa_icon("fa-skull").is_ok());
    assert!(validate_fa_icon("fa-dice-d20").is_ok());
    assert!(validate_fa_icon("fa-solid fa-skull").is_ok());
    assert!(validate_fa_icon("fa-regular fa-star").is_ok());
    assert!(validate_fa_icon("fa-brands fa-github").is_ok());
}

#[test]
fn rejects_empty_icon() {
    assert!(validate_fa_icon("").is_err());
}

#[test]
fn rejects_uppercase_icon() {
    assert!(validate_fa_icon("Fa-Skull").is_err());
}

#[test]
fn rejects_non_fa_icon_system() {
    assert!(validate_fa_icon("mdi-sword-cross").is_err());
}

#[test]
fn rejects_underscore_separator() {
    assert!(validate_fa_icon("fa_heart").is_err());
}

#[test]
fn rejects_malformed_style_prefix() {
    assert!(validate_fa_icon("fa-duotone fa-skull").is_err());
}

#[test]
fn rejects_style_without_icon() {
    assert!(validate_fa_icon("fa-solid").is_err());
    assert!(validate_fa_icon("fa-regular").is_err());
    assert!(validate_fa_icon("fa-brands").is_err());
    assert!(validate_fa_icon("fa-solid ").is_err());
}

#[test]
fn sum_rolls_adds_every_roll() {
    assert_eq!(byog::dice::sum_rolls(&vec![3, 1, 6, 2]), 12);
    assert_eq!(byog::dice::sum_rolls(&Vec::new()), 0);
}
