//! One combatant and the three moves it can make on its own: attack, heal
//! and flip visibility.

use crate::outcome::Warning;
use vstd::prelude::*;

verus! {

/// No player ever holds more power than this.
pub const MAX_POWER: u64 = 1000;

/// One combatant. A player with no power is frozen; a player that is not
/// visible is hidden.
#[derive(Debug, PartialEq, Eq)]
pub struct Player {
    pub name: String,
    pub team_number: u64,
    pub power: u64,
    pub is_visible: bool,
}

/// What a player is, as plain mathematical data.
pub ghost struct PlayerView {
    pub name: Seq<char>,
    pub team_number: nat,
    pub power: nat,
    pub is_visible: bool,
}

impl View for Player {
    type V = PlayerView;

    open spec fn view(&self) -> PlayerView {
        PlayerView {
            name: self.name@,
            team_number: self.team_number as nat,
            power: self.power as nat,
            is_visible: self.is_visible,
        }
    }
}

impl PlayerView {
    /// The power lies within the allowed range.
    pub open spec fn well_formed(self) -> bool {
        self.power <= MAX_POWER
    }

    /// The same player with another amount of power.
    pub open spec fn with_power(self, power: nat) -> PlayerView {
        PlayerView { power, ..self }
    }

    /// The same player with its visibility toggled.
    pub open spec fn flipped(self) -> PlayerView {
        PlayerView { is_visible: !self.is_visible, ..self }
    }

    /// Why this player may not take the acting side of a move, if it may not:
    /// a hidden player cannot play, and a visible one must not be frozen.
    pub open spec fn refusal_to_act(self) -> Option<Warning> {
        if !self.is_visible {
            Some(Warning::CannotPlay)
        } else if self.power == 0 {
            Some(Warning::PlayerFrozen)
        } else {
            None
        }
    }
}

/// `amount`, cut off at the greatest power a player can hold.
pub open spec fn capped(amount: nat) -> nat {
    if amount >= MAX_POWER {
        MAX_POWER as nat
    } else {
        amount
    }
}

/// The power a side is left with after a duel between two visible players:
/// the stronger side gains its lead over the rival, up to the cap, and any
/// other side, a tied one included, loses everything.
pub open spec fn power_after_duel(own: nat, rival: nat) -> nat {
    if own > rival {
        capped((own + own - rival) as nat)
    } else {
        0
    }
}

/// The warning that an attack by `attacker` raises, if any. The target has
/// no say in it.
pub open spec fn attack_refusal(attacker: PlayerView) -> Option<Warning> {
    attacker.refusal_to_act()
}

/// The attacker once it has attacked `target`. A refused attack changes
/// nothing; an attack on a hidden target costs the attacker all its power.
pub open spec fn attacker_after(attacker: PlayerView, target: PlayerView) -> PlayerView {
    if attack_refusal(attacker) is Some {
        attacker
    } else if !target.is_visible {
        attacker.with_power(0)
    } else {
        attacker.with_power(power_after_duel(attacker.power, target.power))
    }
}

/// The target once `attacker` has attacked it. Only a duel, an accepted
/// attack on a visible target, touches it.
pub open spec fn target_after(attacker: PlayerView, target: PlayerView) -> PlayerView {
    if attack_refusal(attacker) is Some || !target.is_visible {
        target
    } else {
        target.with_power(power_after_duel(target.power, attacker.power))
    }
}

/// Half of `power`, rounded up: what a healer gives away and keeps.
pub open spec fn heal_points(power: nat) -> nat {
    (power + 1) / 2
}

/// The warning that `healer` healing `target` raises, if any. Two records
/// that agree in every field count as the same player.
pub open spec fn heal_refusal(healer: PlayerView, target: PlayerView) -> Option<Warning> {
    if healer.refusal_to_act() is Some {
        healer.refusal_to_act()
    } else if healer.team_number != target.team_number {
        Some(Warning::DifferentTeam)
    } else if healer == target {
        Some(Warning::CannotHealSelf)
    } else {
        None
    }
}

/// The healer once it has healed `target`: it keeps half its power, rounded up.
pub open spec fn healer_after(healer: PlayerView, target: PlayerView) -> PlayerView {
    if heal_refusal(healer, target) is Some {
        healer
    } else {
        healer.with_power(heal_points(healer.power))
    }
}

/// The target once `healer` has healed it: it gains what the healer kept,
/// up to the cap.
pub open spec fn healed_after(healer: PlayerView, target: PlayerView) -> PlayerView {
    if heal_refusal(healer, target) is Some {
        target
    } else {
        target.with_power(capped(target.power + heal_points(healer.power)))
    }
}

/// The warning that flipping the visibility of `player` raises, if any.
pub open spec fn flip_refusal(player: PlayerView) -> Option<Warning> {
    if player.power == 0 {
        Some(Warning::PlayerFrozen)
    } else {
        None
    }
}

/// The player once it has tried to flip its visibility.
pub open spec fn flipped_after(player: PlayerView) -> PlayerView {
    if flip_refusal(player) is Some {
        player
    } else {
        player.flipped()
    }
}

/// A move's result: the warning it raised, or nothing.
pub open spec fn verdict(refusal: Option<Warning>) -> Result<(), Warning> {
    match refusal {
        Some(w) => Err(w),
        None => Ok(()),
    }
}

/// No move takes a player's power out of the allowed range, whether the
/// move is accepted or refused.
pub proof fn lemma_moves_keep_power_in_range(one: PlayerView, other: PlayerView)
    requires
        one.well_formed(),
        other.well_formed(),
    ensures
        attacker_after(one, other).well_formed(),
        target_after(one, other).well_formed(),
        healer_after(one, other).well_formed(),
        healed_after(one, other).well_formed(),
        flipped_after(one).well_formed(),
{
}

/// An accepted attack on a visible target goes by the comparison of the two
/// powers alone: the stronger side gains its lead, up to the cap, and the
/// weaker is frozen; on an exact tie both are frozen. Nothing but the two
/// powers changes.
pub proof fn lemma_duel_outcome(attacker: PlayerView, target: PlayerView)
    requires
        attack_refusal(attacker) is None,
        target.is_visible,
    ensures
        attacker.power > target.power ==> attacker_after(attacker, target).power == capped(
            (2 * attacker.power - target.power) as nat,
        ) && target_after(attacker, target).power == 0,
        attacker.power < target.power ==> attacker_after(attacker, target).power == 0
            && target_after(attacker, target).power == capped(
            (2 * target.power - attacker.power) as nat,
        ),
        attacker.power == target.power ==> attacker_after(attacker, target).power == 0
            && target_after(attacker, target).power == 0,
        attacker_after(attacker, target) == attacker.with_power(
            attacker_after(attacker, target).power,
        ),
        target_after(attacker, target) == target.with_power(target_after(attacker, target).power),
{
}

/// Between two players that can both act, it does not matter to the powers
/// who attacks whom: each side ends with the same power either way.
pub proof fn lemma_duel_is_mirrored(one: PlayerView, other: PlayerView)
    requires
        attack_refusal(one) is None,
        attack_refusal(other) is None,
    ensures
        attacker_after(one, other).power == target_after(other, one).power,
        target_after(one, other).power == attacker_after(other, one).power,
{
}

/// Whether a duel between powers `one` and `other` leaves the two sides
/// with as much power together as they had before, up to the cap: the
/// stronger side has exactly twice the power of the weaker, or the total is
/// at the cap both before and after.
pub open spec fn duel_keeps_total(one: nat, other: nat) -> bool {
    let strong = if one >= other { one } else { other };
    let weak = if one >= other { other } else { one };
    if strong == weak {
        strong == 0
    } else {
        strong == 2 * weak || (strong + weak >= MAX_POWER && 2 * strong - weak >= MAX_POWER)
    }
}

/// The powers that a duel leaves add up to the capped sum of the powers
/// before it in the cases that `duel_keeps_total` names, and in no other.
pub proof fn lemma_duel_total(one: nat, other: nat)
    ensures
        power_after_duel(one, other) + power_after_duel(other, one) == capped(one + other)
            <==> duel_keeps_total(one, other),
{
}

/// A heal that is accepted leaves the healer with half its power, rounded
/// up, and never with none.
pub proof fn lemma_heal_halves(healer: PlayerView, target: PlayerView)
    requires
        heal_refusal(healer, target) is None,
    ensures
        2 * healer_after(healer, target).power == healer.power || 2 * healer_after(
            healer,
            target,
        ).power == healer.power + 1,
        healer_after(healer, target).power > 0,
        healed_after(healer, target).power == capped(
            target.power + healer_after(healer, target).power,
        ),
{
}

/// A player never heals itself: a heal between a record and itself is
/// always refused, and changes nothing.
pub proof fn lemma_no_self_heal(player: PlayerView)
    ensures
        heal_refusal(player, player) is Some,
        healer_after(player, player) == player,
        healed_after(player, player) == player,
        player.refusal_to_act() is None ==> heal_refusal(player, player) == Some(
            Warning::CannotHealSelf,
        ),
{
}

/// Flipping the visibility twice gives the player back as it was.
pub proof fn lemma_flip_twice(player: PlayerView)
    ensures
        flipped_after(flipped_after(player)) == player,
{
}

/// `gain` added to `base`, cut off at the cap, for any two numbers.
pub fn add_capped(base: u64, gain: u64) -> (sum: u64)
    ensures
        sum == capped((base + gain) as nat),
{
    if base >= MAX_POWER || gain >= MAX_POWER - base {
        MAX_POWER
    } else {
        base + gain
    }
}

impl Clone for Player {
    fn clone(&self) -> (copy: Player)
        ensures
            copy == *self,
    {
        Player {
            name: self.name.clone(),
            team_number: self.team_number,
            power: self.power,
            is_visible: self.is_visible,
        }
    }
}

impl Player {
    pub fn new(name: String, team_number: u64, power: u64, is_visible: bool) -> (player: Player)
        ensures
            player.name == name,
            player.team_number == team_number,
            player.power == power,
            player.is_visible == is_visible,
    {
        Player { name, team_number, power, is_visible }
    }

    /// Whether the two records agree in every field.
    pub fn equal(&self, other: &Player) -> (same: bool)
        ensures
            same == (self@ == other@),
    {
        self.name == other.name && self.team_number == other.team_number && self.power
            == other.power && self.is_visible == other.is_visible
    }

    /// Attacks `other`. A hidden or frozen attacker is refused and nothing
    /// changes. An attack on a hidden target wastes all the attacker's
    /// power. Otherwise the two duel: the stronger gains its lead and the
    /// other is frozen, and on a tie both are.
    pub fn attack(&mut self, other: &mut Player) -> (result: Result<(), Warning>)
        ensures
            result == verdict(attack_refusal(old(self)@)),
            final(self)@ == attacker_after(old(self)@, old(other)@),
            final(other)@ == target_after(old(self)@, old(other)@),
    {
        if !self.is_visible {
            return Err(Warning::CannotPlay);
        }
        if self.power == 0 {
            return Err(Warning::PlayerFrozen);
        }
        if !other.is_visible {
            self.power = 0;
            return Ok(());
        }
        if self.power > other.power {
            self.power = add_capped(self.power, self.power - other.power);
            other.power = 0;
        } else if self.power < other.power {
            other.power = add_capped(other.power, other.power - self.power);
            self.power = 0;
        } else {
            self.power = 0;
            other.power = 0;
        }
        Ok(())
    }

    /// Heals `other`, a different player of the same team: the healer keeps
    /// half its power, rounded up, and the target gains as much. A refused
    /// heal changes nothing.
    pub fn heal(&mut self, other: &mut Player) -> (result: Result<(), Warning>)
        ensures
            result == verdict(heal_refusal(old(self)@, old(other)@)),
            final(self)@ == healer_after(old(self)@, old(other)@),
            final(other)@ == healed_after(old(self)@, old(other)@),
    {
        if !self.is_visible {
            return Err(Warning::CannotPlay);
        }
        if self.power == 0 {
            return Err(Warning::PlayerFrozen);
        }
        if self.team_number != other.team_number {
            return Err(Warning::DifferentTeam);
        }
        if self.equal(other) {
            return Err(Warning::CannotHealSelf);
        }
        let points: u64 = self.power / 2 + self.power % 2;
        self.power = points;
        other.power = add_capped(other.power, points);
        Ok(())
    }

    /// Shows a hidden player and hides a visible one, unless it is frozen.
    pub fn flip_visibility(&mut self) -> (result: Result<(), Warning>)
        ensures
            result == verdict(flip_refusal(old(self)@)),
            final(self)@ == flipped_after(old(self)@),
    {
        if self.power == 0 {
            return Err(Warning::PlayerFrozen);
        }
        self.is_visible = !self.is_visible;
        Ok(())
    }
}

} // verus!
