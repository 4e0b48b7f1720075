use wizard_battle::outcome::Warning;
use wizard_battle::player::{add_capped, Player, MAX_POWER};

fn player(name: &str, team_number: u64, power: u64, is_visible: bool) -> Player {
    Player::new(name.to_string(), team_number, power, is_visible)
}

#[test]
fn new_player_keeps_its_fields() {
    let p = Player::new("Merlin".to_string(), 3, 250, false);
    assert_eq!(p.name, "Merlin");
    assert_eq!(p.team_number, 3);
    assert_eq!(p.power, 250);
    assert!(!p.is_visible);
}

#[test]
fn clone_copies_every_field() {
    let p = player("Merlin", 3, 250, false);
    let q = p.clone();
    assert_eq!(p, q);
    assert!(p.equal(&q));
}

#[test]
fn equal_compares_every_field() {
    let p = player("Merlin", 1, 10, true);
    assert!(p.equal(&player("Merlin", 1, 10, true)));
    assert!(!p.equal(&player("Morgana", 1, 10, true)));
    assert!(!p.equal(&player("Merlin", 2, 10, true)));
    assert!(!p.equal(&player("Merlin", 1, 11, true)));
    assert!(!p.equal(&player("Merlin", 1, 10, false)));
}

#[test]
fn add_capped_adds_below_the_cap_and_stops_at_it() {
    assert_eq!(MAX_POWER, 1000);
    assert_eq!(add_capped(0, 0), 0);
    assert_eq!(add_capped(10, 201), 211);
    assert_eq!(add_capped(999, 1), 1000);
    assert_eq!(add_capped(600, 700), 1000);
    assert_eq!(add_capped(1000, 0), 1000);
    assert_eq!(add_capped(u64::MAX, u64::MAX), 1000);
}

#[test]
fn attack_stronger_attacker_gains_its_lead() {
    let mut a = player("Aa", 0, 300, true);
    let mut b = player("Bb", 1, 100, true);
    assert_eq!(a.attack(&mut b), Ok(()));
    assert_eq!(a, player("Aa", 0, 500, true));
    assert_eq!(b, player("Bb", 1, 0, true));
}

#[test]
fn attack_weaker_attacker_is_frozen() {
    let mut a = player("Aa", 0, 100, true);
    let mut b = player("Bb", 1, 300, true);
    assert_eq!(a.attack(&mut b), Ok(()));
    assert_eq!(a.power, 0);
    assert_eq!(b.power, 500);
}

#[test]
fn attack_tie_freezes_both() {
    let mut a = player("Aa", 0, 500, true);
    let mut b = player("Bb", 1, 500, true);
    assert_eq!(a.attack(&mut b), Ok(()));
    assert_eq!(a.power, 0);
    assert_eq!(b.power, 0);
}

#[test]
fn attack_gain_stops_at_the_cap() {
    let mut a = player("Aa", 0, 900, true);
    let mut b = player("Bb", 1, 100, true);
    assert_eq!(a.attack(&mut b), Ok(()));
    assert_eq!(a.power, 1000);
    assert_eq!(b.power, 0);

    let mut c = player("Cc", 0, 1, true);
    let mut d = player("Dd", 1, 1000, true);
    assert_eq!(c.attack(&mut d), Ok(()));
    assert_eq!(c.power, 0);
    assert_eq!(d.power, 1000);
}

#[test]
fn attack_on_frozen_visible_target_doubles_the_attacker() {
    let mut a = player("Aa", 0, 300, true);
    let mut b = player("Bb", 1, 0, true);
    assert_eq!(a.attack(&mut b), Ok(()));
    assert_eq!(a.power, 600);
    assert_eq!(b.power, 0);
}

#[test]
fn attack_on_hidden_target_wastes_the_attackers_power() {
    let mut a = player("Aa", 0, 300, true);
    let mut b = player("Bb", 1, 100, false);
    assert_eq!(a.attack(&mut b), Ok(()));
    assert_eq!(a, player("Aa", 0, 0, true));
    assert_eq!(b, player("Bb", 1, 100, false));
}

#[test]
fn attack_by_hidden_player_is_refused() {
    let mut a = player("Aa", 0, 300, false);
    let mut b = player("Bb", 1, 100, true);
    assert_eq!(a.attack(&mut b), Err(Warning::CannotPlay));
    assert_eq!(a, player("Aa", 0, 300, false));
    assert_eq!(b, player("Bb", 1, 100, true));
}

#[test]
fn attack_by_frozen_player_is_refused() {
    let mut a = player("Aa", 0, 0, true);
    let mut b = player("Bb", 1, 100, true);
    assert_eq!(a.attack(&mut b), Err(Warning::PlayerFrozen));
    assert_eq!(a.power, 0);
    assert_eq!(b.power, 100);
}

#[test]
fn attack_by_hidden_frozen_player_cannot_play() {
    let mut a = player("Aa", 0, 0, false);
    let mut b = player("Bb", 1, 100, true);
    assert_eq!(a.attack(&mut b), Err(Warning::CannotPlay));
}

#[test]
fn attack_mirrored_gives_the_same_powers() {
    let mut a = player("Aa", 0, 420, true);
    let mut b = player("Bb", 1, 77, true);
    assert_eq!(a.attack(&mut b), Ok(()));
    let mut c = player("Aa", 0, 420, true);
    let mut d = player("Bb", 1, 77, true);
    assert_eq!(d.attack(&mut c), Ok(()));
    assert_eq!(a.power, c.power);
    assert_eq!(b.power, d.power);
    assert_eq!(a.power, 763);
    assert_eq!(b.power, 0);
}

#[test]
fn heal_gives_half_rounded_up() {
    let mut a = player("Aa", 0, 401, true);
    let mut b = player("Bb", 0, 10, true);
    assert_eq!(a.heal(&mut b), Ok(()));
    assert_eq!(a, player("Aa", 0, 201, true));
    assert_eq!(b, player("Bb", 0, 211, true));
}

#[test]
fn heal_with_even_power_halves_exactly() {
    let mut a = player("Aa", 2, 400, true);
    let mut b = player("Bb", 2, 0, false);
    assert_eq!(a.heal(&mut b), Ok(()));
    assert_eq!(a.power, 200);
    assert_eq!(b.power, 200);
    assert!(!b.is_visible);
}

#[test]
fn heal_with_one_point_keeps_it_and_gives_one() {
    let mut a = player("Aa", 0, 1, true);
    let mut b = player("Bb", 0, 5, true);
    assert_eq!(a.heal(&mut b), Ok(()));
    assert_eq!(a.power, 1);
    assert_eq!(b.power, 6);
}

#[test]
fn heal_stops_at_the_cap() {
    let mut a = player("Aa", 0, 1000, true);
    let mut b = player("Bb", 0, 700, true);
    assert_eq!(a.heal(&mut b), Ok(()));
    assert_eq!(a.power, 500);
    assert_eq!(b.power, 1000);
}

#[test]
fn heal_by_hidden_player_is_refused() {
    let mut a = player("Aa", 0, 401, false);
    let mut b = player("Bb", 0, 10, true);
    assert_eq!(a.heal(&mut b), Err(Warning::CannotPlay));
    assert_eq!(a.power, 401);
    assert_eq!(b.power, 10);
}

#[test]
fn heal_by_frozen_player_is_refused() {
    let mut a = player("Aa", 0, 0, true);
    let mut b = player("Bb", 0, 10, true);
    assert_eq!(a.heal(&mut b), Err(Warning::PlayerFrozen));
    assert_eq!(a.power, 0);
    assert_eq!(b.power, 10);
}

#[test]
fn heal_across_teams_is_refused() {
    let mut a = player("Aa", 0, 401, true);
    let mut b = player("Bb", 1, 10, true);
    assert_eq!(a.heal(&mut b), Err(Warning::DifferentTeam));
    assert_eq!(a.power, 401);
    assert_eq!(b.power, 10);
}

#[test]
fn heal_of_an_equal_record_is_healing_itself() {
    let mut a = player("Aa", 0, 401, true);
    let mut b = player("Aa", 0, 401, true);
    assert_eq!(a.heal(&mut b), Err(Warning::CannotHealSelf));
    assert_eq!(a.power, 401);
    assert_eq!(b.power, 401);
}

#[test]
fn heal_checks_the_team_before_the_identity() {
    let mut a = player("Aa", 0, 0, false);
    let mut b = player("Aa", 0, 0, false);
    assert_eq!(a.heal(&mut b), Err(Warning::CannotPlay));
    let mut c = player("Aa", 0, 0, true);
    let mut d = player("Aa", 0, 0, true);
    assert_eq!(c.heal(&mut d), Err(Warning::PlayerFrozen));
}

#[test]
fn flip_visibility_toggles() {
    let mut a = player("Aa", 0, 5, true);
    assert_eq!(a.flip_visibility(), Ok(()));
    assert_eq!(a, player("Aa", 0, 5, false));
    assert_eq!(a.flip_visibility(), Ok(()));
    assert_eq!(a, player("Aa", 0, 5, true));
}

#[test]
fn flip_visibility_of_frozen_player_is_refused() {
    let mut a = player("Aa", 0, 0, true);
    assert_eq!(a.flip_visibility(), Err(Warning::PlayerFrozen));
    assert_eq!(a, player("Aa", 0, 0, true));
    let mut b = player("Bb", 0, 0, false);
    assert_eq!(b.flip_visibility(), Err(Warning::PlayerFrozen));
    assert!(!b.is_visible);
}

#[test]
fn powers_stay_in_range_under_every_move() {
    let powers = [0u64, 1, 2, 499, 500, 501, 999, 1000];
    for &x in powers.iter() {
        for &y in powers.iter() {
            for &visible in [true, false].iter() {
                let mut a = player("Aa", 0, x, true);
                let mut b = player("Bb", 0, y, visible);
                let _ = a.attack(&mut b);
                assert!(a.power <= 1000 && b.power <= 1000);
                let mut c = player("Cc", 0, x, true);
                let mut d = player("Dd", 0, y, visible);
                let _ = c.heal(&mut d);
                assert!(c.power <= 1000 && d.power <= 1000);
            }
        }
    }
}

#[test]
fn warning_messages() {
    assert_eq!(Warning::CannotPlay.message(), "This player can't play");
    assert_eq!(Warning::PlayerFrozen.message(), "This player is frozen");
    assert_eq!(Warning::DifferentTeam.message(), "Both players should be from the same team");
    assert_eq!(Warning::CannotHealSelf.message(), "The player cannot heal itself");
    assert_eq!(
        Warning::CannotSuperSelf.message(),
        "The player cannot do super action with itself"
    );
}
