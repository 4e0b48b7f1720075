use wizard_battle::outcome::Warning;
use wizard_battle::player::Player;
use wizard_battle::roster::{Roster, MAX_PLAYERS};

fn player(name: &str, team_number: u64, power: u64, is_visible: bool) -> Player {
    Player::new(name.to_string(), team_number, power, is_visible)
}

fn roster(players: Vec<Player>) -> Roster {
    let mut roster = Roster::new();
    for p in players {
        roster.insert(p);
    }
    roster
}

#[test]
fn new_roster_is_empty() {
    let r = Roster::new();
    assert_eq!(r.len(), 0);
    assert!(r.get("Aa").is_none());
    assert_eq!(MAX_PLAYERS, 100);
}

#[test]
fn insert_files_a_player_under_its_name() {
    let r = roster(vec![player("Aa", 0, 10, true), player("Bb", 1, 20, false)]);
    assert_eq!(r.len(), 2);
    assert_eq!(r.get("Aa"), Some(&player("Aa", 0, 10, true)));
    assert_eq!(r.get("Bb"), Some(&player("Bb", 1, 20, false)));
    assert_eq!(r.get("Cc"), None);
    assert_eq!(r.get("aa"), None);
}

#[test]
fn insert_replaces_a_player_of_the_same_name() {
    let r = roster(vec![
        player("Aa", 0, 10, true),
        player("Bb", 1, 20, false),
        player("Aa", 1, 99, false),
    ]);
    assert_eq!(r.len(), 2);
    assert_eq!(r.get("Aa"), Some(&player("Aa", 1, 99, false)));
    assert_eq!(r.get("Bb"), Some(&player("Bb", 1, 20, false)));
}

#[test]
fn remove_takes_a_player_out() {
    let mut r = roster(vec![
        player("Aa", 0, 10, true),
        player("Bb", 1, 20, false),
        player("Cc", 0, 30, true),
    ]);
    assert_eq!(r.remove("Bb"), Some(player("Bb", 1, 20, false)));
    assert_eq!(r.len(), 2);
    assert_eq!(r.get("Bb"), None);
    assert_eq!(r.get("Aa"), Some(&player("Aa", 0, 10, true)));
    assert_eq!(r.get("Cc"), Some(&player("Cc", 0, 30, true)));
    assert_eq!(r.remove("Bb"), None);
    assert_eq!(r.len(), 2);
}

#[test]
fn attack_between_two_names() {
    let mut r = roster(vec![player("Aa", 0, 300, true), player("Bb", 1, 100, true)]);
    assert_eq!(r.attack("Aa", "Bb"), Some(Ok(())));
    assert_eq!(r.get("Aa").unwrap().power, 500);
    assert_eq!(r.get("Bb").unwrap().power, 0);
    assert_eq!(r.attack("Bb", "Aa"), Some(Err(Warning::PlayerFrozen)));
    assert_eq!(r.get("Aa").unwrap().power, 500);
    assert_eq!(r.get("Bb").unwrap().power, 0);
}

#[test]
fn attack_on_itself_is_a_tie() {
    let mut r = roster(vec![player("Aa", 0, 300, true), player("Bb", 1, 100, true)]);
    assert_eq!(r.attack("Aa", "Aa"), Some(Ok(())));
    assert_eq!(r.get("Aa"), Some(&player("Aa", 0, 0, true)));
    assert_eq!(r.get("Bb"), Some(&player("Bb", 1, 100, true)));
    assert_eq!(r.len(), 2);
}

#[test]
fn attack_on_itself_while_hidden_is_refused() {
    let mut r = roster(vec![player("Aa", 0, 300, false)]);
    assert_eq!(r.attack("Aa", "Aa"), Some(Err(Warning::CannotPlay)));
    assert_eq!(r.get("Aa"), Some(&player("Aa", 0, 300, false)));
}

#[test]
fn attack_with_an_unknown_name_does_nothing() {
    let mut r = roster(vec![player("Aa", 0, 300, true), player("Bb", 1, 100, true)]);
    assert_eq!(r.attack("Aa", "Zz"), None);
    assert_eq!(r.attack("Zz", "Aa"), None);
    assert_eq!(r.attack("Zz", "Yy"), None);
    assert_eq!(r.get("Aa").unwrap().power, 300);
    assert_eq!(r.get("Bb").unwrap().power, 100);
}

#[test]
fn heal_between_two_names() {
    let mut r = roster(vec![player("Aa", 0, 401, true), player("Bb", 0, 10, true)]);
    assert_eq!(r.heal("Aa", "Bb"), Some(Ok(())));
    assert_eq!(r.get("Aa").unwrap().power, 201);
    assert_eq!(r.get("Bb").unwrap().power, 211);
}

#[test]
fn heal_of_itself_changes_nothing() {
    let mut r = roster(vec![player("Aa", 0, 401, true), player("Bb", 0, 10, true)]);
    assert_eq!(r.heal("Aa", "Aa"), Some(Err(Warning::CannotHealSelf)));
    assert_eq!(r.get("Aa"), Some(&player("Aa", 0, 401, true)));
    assert_eq!(r.get("Bb"), Some(&player("Bb", 0, 10, true)));
}

#[test]
fn heal_with_an_unknown_name_does_nothing() {
    let mut r = roster(vec![player("Aa", 0, 401, true)]);
    assert_eq!(r.heal("Aa", "Zz"), None);
    assert_eq!(r.heal("Zz", "Aa"), None);
    assert_eq!(r.get("Aa").unwrap().power, 401);
}

#[test]
fn flip_visibility_by_name() {
    let mut r = roster(vec![player("Aa", 0, 5, true), player("Bb", 0, 0, true)]);
    assert_eq!(r.flip_visibility("Aa"), Some(Ok(())));
    assert_eq!(r.get("Aa"), Some(&player("Aa", 0, 5, false)));
    assert_eq!(r.flip_visibility("Bb"), Some(Err(Warning::PlayerFrozen)));
    assert_eq!(r.get("Bb"), Some(&player("Bb", 0, 0, true)));
    assert_eq!(r.flip_visibility("Zz"), None);
}

#[test]
fn replace_pair_swaps_two_players_for_one() {
    let mut r = roster(vec![
        player("Aa", 1, 600, true),
        player("Bb", 1, 700, true),
        player("Cc", 0, 5, true),
    ]);
    r.replace_pair("Aa", "Bb", player("S_0", 1, 1000, true));
    assert_eq!(r.len(), 2);
    assert_eq!(r.get("Aa"), None);
    assert_eq!(r.get("Bb"), None);
    assert_eq!(r.get("S_0"), Some(&player("S_0", 1, 1000, true)));
    assert_eq!(r.get("Cc"), Some(&player("Cc", 0, 5, true)));
}

#[test]
fn replace_pair_overwrites_a_player_of_the_new_name() {
    let mut r = roster(vec![
        player("Aa", 1, 1, true),
        player("Bb", 1, 2, true),
        player("S_0", 0, 3, false),
    ]);
    r.replace_pair("Aa", "Bb", player("S_0", 1, 3, true));
    assert_eq!(r.len(), 1);
    assert_eq!(r.get("S_0"), Some(&player("S_0", 1, 3, true)));
}

#[test]
fn team_totals_add_up_each_team() {
    let r = roster(vec![
        player("Aa", 0, 10, true),
        player("Bb", 2, 20, false),
        player("Cc", 0, 30, true),
        player("Dd", 2, 1000, true),
    ]);
    assert_eq!(r.team_totals(3), vec![40, 0, 1020]);
    assert_eq!(Roster::new().team_totals(2), vec![0, 0]);
    assert_eq!(Roster::new().team_totals(0), Vec::<u64>::new());
}

#[test]
fn team_totals_of_a_full_roster() {
    let mut r = Roster::new();
    for i in 0..100u32 {
        let a = (b'a' + (i / 26) as u8) as char;
        let b = (b'a' + (i % 26) as u8) as char;
        r.insert(player(&format!("P{}{}", a, b), 0, 1000, true));
    }
    assert_eq!(r.len(), 100);
    assert_eq!(r.team_totals(1), vec![100_000]);
}
