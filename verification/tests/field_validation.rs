use wizard_battle::game::Game;
use wizard_battle::outcome::FatalError;
use wizard_battle::validate::{letters_after_first, name_is_valid};

#[test]
fn total_teams_from_one_to_ten() {
    assert_eq!(Game::validate_total_teams(0), Err(FatalError::InvalidInput));
    assert_eq!(Game::validate_total_teams(1), Ok(1));
    assert_eq!(Game::validate_total_teams(5), Ok(5));
    assert_eq!(Game::validate_total_teams(10), Ok(10));
    assert_eq!(Game::validate_total_teams(11), Err(FatalError::InvalidInput));
    assert_eq!(Game::validate_total_teams(u64::MAX), Err(FatalError::InvalidInput));
}

#[test]
fn total_players_from_team_count_to_hundred() {
    assert_eq!(Game::validate_total_players(3, 2), Err(FatalError::InvalidInput));
    assert_eq!(Game::validate_total_players(3, 3), Ok(3));
    assert_eq!(Game::validate_total_players(3, 100), Ok(100));
    assert_eq!(Game::validate_total_players(3, 101), Err(FatalError::InvalidInput));
    assert_eq!(Game::validate_total_players(1, 0), Err(FatalError::InvalidInput));
    assert_eq!(Game::validate_total_players(0, 0), Ok(0));
    assert_eq!(Game::validate_total_players(101, 101), Err(FatalError::InvalidInput));
}

fn name(text: &str) -> Result<String, FatalError> {
    Game::validate_name(text.to_string())
}

#[test]
fn name_of_letters_with_a_capital_first() {
    assert_eq!(name("Merlin"), Ok("Merlin".to_string()));
    assert_eq!(name("Ab"), Ok("Ab".to_string()));
    assert_eq!(name("AB"), Ok("AB".to_string()));
    assert_eq!(name("Zz"), Ok("Zz".to_string()));
}

#[test]
fn name_length_from_two_to_twenty_bytes() {
    assert_eq!(name(""), Err(FatalError::InvalidInput));
    assert_eq!(name("A"), Err(FatalError::InvalidInput));
    assert_eq!(name("Abcdefghijklmnopqrst"), Ok("Abcdefghijklmnopqrst".to_string()));
    assert_eq!(name("Abcdefghijklmnopqrstu"), Err(FatalError::InvalidInput));
}

#[test]
fn name_length_counts_bytes_not_characters() {
    // Eleven characters in twenty-one bytes.
    let long = "A\u{e9}\u{e9}\u{e9}\u{e9}\u{e9}\u{e9}\u{e9}\u{e9}\u{e9}\u{e9}";
    assert_eq!(long.len(), 21);
    assert_eq!(name(long), Err(FatalError::InvalidInput));
    // Ten characters in nineteen bytes.
    let short = "A\u{e9}\u{e9}\u{e9}\u{e9}\u{e9}\u{e9}\u{e9}\u{e9}\u{e9}";
    assert_eq!(short.len(), 19);
    assert_eq!(name(short), Ok(short.to_string()));
}

#[test]
fn name_must_begin_with_a_capital_from_a_to_z() {
    assert_eq!(name("merlin"), Err(FatalError::InvalidInput));
    assert_eq!(name("1Merlin"), Err(FatalError::InvalidInput));
    assert_eq!(name(" Merlin"), Err(FatalError::InvalidInput));
    assert_eq!(name("\u{c9}lan"), Err(FatalError::InvalidInput));
    assert_eq!(name("@b"), Err(FatalError::InvalidInput));
    assert_eq!(name("[b"), Err(FatalError::InvalidInput));
}

#[test]
fn name_goes_on_with_alphabetic_characters_only() {
    assert_eq!(name("A1"), Err(FatalError::InvalidInput));
    assert_eq!(name("Mer lin"), Err(FatalError::InvalidInput));
    assert_eq!(name("Mer_lin"), Err(FatalError::InvalidInput));
    assert_eq!(name("Merlin!"), Err(FatalError::InvalidInput));
    assert_eq!(name("S_0"), Err(FatalError::InvalidInput));
    assert_eq!(name("Merl1n"), Err(FatalError::InvalidInput));
}

#[test]
fn name_may_go_on_with_letters_of_any_alphabet() {
    assert_eq!(name("Ren\u{e9}"), Ok("Ren\u{e9}".to_string()));
    assert_eq!(name("A\u{4eac}"), Ok("A\u{4eac}".to_string()));
    assert_eq!(name("A\u{1f49d}"), Err(FatalError::InvalidInput));
}

#[test]
fn team_number_below_the_team_count() {
    assert_eq!(Game::validate_team_number(3, 0), Ok(0));
    assert_eq!(Game::validate_team_number(3, 2), Ok(2));
    assert_eq!(Game::validate_team_number(3, 3), Err(FatalError::InvalidInput));
    assert_eq!(Game::validate_team_number(0, 0), Err(FatalError::InvalidInput));
}

#[test]
fn power_up_to_thousand() {
    assert_eq!(Game::validate_power(0), Ok(0));
    assert_eq!(Game::validate_power(1), Ok(1));
    assert_eq!(Game::validate_power(1000), Ok(1000));
    assert_eq!(Game::validate_power(1001), Err(FatalError::InvalidInput));
    assert_eq!(Game::validate_power(u64::MAX), Err(FatalError::InvalidInput));
}

fn visibility(text: &str) -> Result<bool, FatalError> {
    Game::validate_visibility(text.to_string())
}

#[test]
fn visibility_is_one_of_two_words() {
    assert_eq!(visibility("True"), Ok(true));
    assert_eq!(visibility("False"), Ok(false));
    assert_eq!(visibility("true"), Err(FatalError::InvalidInput));
    assert_eq!(visibility("false"), Err(FatalError::InvalidInput));
    assert_eq!(visibility("TRUE"), Err(FatalError::InvalidInput));
    assert_eq!(visibility(""), Err(FatalError::InvalidInput));
    assert_eq!(visibility("True "), Err(FatalError::InvalidInput));
    assert_eq!(visibility("1"), Err(FatalError::InvalidInput));
}

#[test]
fn fatal_error_message() {
    assert_eq!(FatalError::InvalidInput.message(), "Invalid inputs");
}

#[test]
fn name_is_valid_weighs_length_first_character_and_the_rest() {
    assert!(name_is_valid(2, 'A', true));
    assert!(name_is_valid(20, 'Z', true));
    assert!(!name_is_valid(1, 'A', true));
    assert!(!name_is_valid(0, 'A', true));
    assert!(!name_is_valid(21, 'A', true));
    assert!(!name_is_valid(5, 'a', true));
    assert!(!name_is_valid(5, '@', true));
    assert!(!name_is_valid(5, '[', true));
    assert!(!name_is_valid(5, 'A', false));
}

#[test]
fn letters_after_first_looks_past_the_first_character() {
    assert!(letters_after_first(""));
    assert!(letters_after_first("1"));
    assert!(letters_after_first("1abc"));
    assert!(letters_after_first("Merlin"));
    assert!(letters_after_first("M\u{e9}\u{4eac}"));
    assert!(!letters_after_first("M1"));
    assert!(!letters_after_first("Mer lin"));
    assert!(!letters_after_first("Merlin_"));
    assert!(!letters_after_first("ab\u{1f49d}"));
}
