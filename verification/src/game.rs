//! A game in progress: its teams, its players, the warnings raised so far,
//! and how each command changes them.

use crate::command::{command_of, parse_command, Command, CommandView};
use crate::outcome::{FatalError, Warning};
use crate::player::{
    add_capped, attack_refusal, capped, flip_refusal, flipped_after, heal_refusal, Player,
    PlayerView, MAX_POWER,
};
use crate::roster::{
    after_attack, after_heal, after_merge, keyed_by_name, team_power, Roster, MAX_PLAYERS,
};
use crate::text::{append_decimal, decimal_digits, lemma_decimal_round_trip};
use vstd::prelude::*;
use vstd::string::StringExecFns;

verus! {

/// What a game is, as plain mathematical data.
pub ghost struct GameView {
    /// The names of the teams. A team's number is its place in this list.
    pub teams: Seq<Seq<char>>,
    /// The players, each under its name.
    pub players: Map<Seq<char>, PlayerView>,
    /// The warnings raised so far, oldest first.
    pub warnings: Seq<Warning>,
    /// How many pairs of players have been merged so far.
    pub merges: nat,
}

/// The name given to the player that the merge number `merges`, counted from
/// zero, brings forth.
pub open spec fn merged_name(merges: nat) -> Seq<char> {
    "S_"@ + decimal_digits(merges)
}

/// The warning that merging `actor` with `target` raises, if any.
pub open spec fn merge_refusal(actor: PlayerView, target: PlayerView) -> Option<Warning> {
    if actor.refusal_to_act() is Some {
        actor.refusal_to_act()
    } else if actor.team_number != target.team_number {
        Some(Warning::DifferentTeam)
    } else if actor.name == target.name {
        Some(Warning::CannotSuperSelf)
    } else {
        None
    }
}

/// The player that merging `actor` with `target` brings forth as merge
/// number `merges`: visible, on the actor's team, with the power of both up
/// to the cap.
pub open spec fn merged_player(actor: PlayerView, target: PlayerView, merges: nat) -> PlayerView {
    PlayerView {
        name: merged_name(merges),
        team_number: actor.team_number,
        power: capped(actor.power + target.power),
        is_visible: true,
    }
}

impl GameView {
    /// A game that has just been set up with these teams and players.
    pub open spec fn fresh(teams: Seq<Seq<char>>, players: Map<Seq<char>, PlayerView>) -> GameView {
        GameView { teams, players, warnings: Seq::empty(), merges: 0 }
    }

    /// The game is sound: every player is filed under its name, belongs to
    /// one of the teams and holds no more than the greatest power, and the
    /// players and the merges together number no more than the most players
    /// that a game can start with.
    pub open spec fn well_formed(self) -> bool {
        &&& keyed_by_name(self.players)
        &&& self.players.dom().len() + self.merges <= MAX_PLAYERS
        &&& forall|name: Seq<char>| #[trigger]
            self.players.dom().contains(name) ==> {
                &&& self.players[name].power <= MAX_POWER
                &&& self.players[name].team_number < self.teams.len()
            }
    }

    /// Whether a player called `name` is in the game.
    pub open spec fn knows(self, name: Seq<char>) -> bool {
        self.players.dom().contains(name)
    }

    /// The same game with other players.
    pub open spec fn with_players(self, players: Map<Seq<char>, PlayerView>) -> GameView {
        GameView { players, ..self }
    }

    /// The same game with one more warning, if there is one to add.
    pub open spec fn warned(self, refusal: Option<Warning>) -> GameView {
        match refusal {
            Some(warning) => GameView { warnings: self.warnings.push(warning), ..self },
            None => self,
        }
    }

    /// The game once the player called `actor` has tried to merge with the
    /// one called `target`. A refused merge only leaves its warning.
    pub open spec fn after_super(self, actor: Seq<char>, target: Seq<char>) -> GameView {
        let refusal = merge_refusal(self.players[actor], self.players[target]);
        if refusal is Some {
            self.warned(refusal)
        } else {
            GameView {
                players: after_merge(
                    self.players,
                    actor,
                    target,
                    merged_player(self.players[actor], self.players[target], self.merges),
                ),
                merges: self.merges + 1,
                ..self
            }
        }
    }

    /// The game once `command`, whose names are all known, has been obeyed.
    /// A command that breaks a rule changes no player and leaves a warning.
    pub open spec fn after(self, command: CommandView) -> GameView {
        match command {
            CommandView::Attack { actor, target } => self.with_players(
                after_attack(self.players, actor, target),
            ).warned(attack_refusal(self.players[actor])),
            CommandView::Heal { actor, target } => self.with_players(
                after_heal(self.players, actor, target),
            ).warned(heal_refusal(self.players[actor], self.players[target])),
            CommandView::FlipVisibility { actor } => self.with_players(
                self.players.insert(actor, flipped_after(self.players[actor])),
            ).warned(flip_refusal(self.players[actor])),
            CommandView::Super { actor, target } => self.after_super(actor, target),
        }
    }

    /// The game once `command` has been obeyed, or the fatal error that the
    /// command is if it names a player that is not in the game.
    pub open spec fn obey(self, command: CommandView) -> Result<GameView, FatalError> {
        if self.knows(command.actor()) && self.knows(command.target()) {
            Ok(self.after(command))
        } else {
            Err(FatalError::InvalidInput)
        }
    }

    /// The game once the command in `line` has been obeyed, or the fatal
    /// error that the line is: one that spells no command, or one that names
    /// a player that is not in the game.
    pub open spec fn step(self, line: Seq<char>) -> Result<GameView, FatalError> {
        match command_of(line) {
            Some(command) => self.obey(command),
            None => Err(FatalError::InvalidInput),
        }
    }
}

/// The game once the commands in `lines` have been obeyed one after the
/// other, or the fatal error that the first bad line is.
pub open spec fn play(game: GameView, lines: Seq<Seq<char>>) -> Result<GameView, FatalError>
    decreases lines.len(),
{
    if lines.len() == 0 {
        Ok(game)
    } else {
        match play(game, lines.drop_last()) {
            Ok(sooner) => sooner.step(lines.last()),
            Err(error) => Err(error),
        }
    }
}

/// Every command keeps a sound game sound. In particular no player ever
/// comes to hold more than the greatest power.
pub proof fn lemma_command_keeps_well_formed(game: GameView, command: CommandView)
    requires
        game.well_formed(),
        game.obey(command) is Ok,
    ensures
        game.after(command).well_formed(),
{
    if command is Super && merge_refusal(
        game.players[command.actor()],
        game.players[command.target()],
    ) is None {
        // Two players leave and at most one name is new.
        let left = game.players.remove(command.actor()).remove(command.target());
        assert(left.dom().len() == game.players.dom().len() - 2);
    } else {
        // The same names as before.
        assert(game.after(command).players.dom() =~= game.players.dom());
    }
}

/// Every line that is obeyed keeps a sound game sound.
pub proof fn lemma_step_keeps_well_formed(game: GameView, line: Seq<char>)
    requires
        game.well_formed(),
        game.step(line) is Ok,
    ensures
        game.step(line)->Ok_0.well_formed(),
{
    lemma_command_keeps_well_formed(game, command_of(line)->0);
}

/// A whole row of commands keeps a sound game sound.
pub proof fn lemma_play_keeps_well_formed(game: GameView, lines: Seq<Seq<char>>)
    requires
        game.well_formed(),
        play(game, lines) is Ok,
    ensures
        play(game, lines)->Ok_0.well_formed(),
    decreases lines.len(),
{
    if lines.len() > 0 {
        lemma_play_keeps_well_formed(game, lines.drop_last());
        lemma_step_keeps_well_formed(play(game, lines.drop_last())->Ok_0, lines.last());
    }
}

/// A command that raises a warning changes nothing else: the players and
/// the number of merges stay as they were, and the warning comes last. A
/// command that raises none leaves the warnings as they were.
pub proof fn lemma_warning_means_no_change(game: GameView, command: CommandView)
    requires
        keyed_by_name(game.players),
        game.obey(command) is Ok,
    ensures
        game.after(command).teams == game.teams,
        game.after(command).warnings == game.warnings || (exists|warning: Warning|
            game.after(command) == game.warned(Some(warning))),
{
    let next = game.after(command);
    if next.warnings != game.warnings {
        assert(next.players =~= game.players);
        assert(next == game.warned(Some(next.warnings.last())));
    }
}

/// A player that can act and tries to heal itself is told that it cannot
/// heal itself, and nothing else changes.
pub proof fn lemma_self_heal(game: GameView, name: Seq<char>)
    requires
        game.knows(name),
        game.players[name].refusal_to_act() is None,
    ensures
        game.obey(CommandView::Heal { actor: name, target: name }) == Ok::<GameView, FatalError>(
            game.warned(Some(Warning::CannotHealSelf)),
        ),
{
    let next = game.after(CommandView::Heal { actor: name, target: name });
    assert(next.players =~= game.players);
}

/// Whoever tries to heal itself changes no player, whatever the warning.
pub proof fn lemma_self_heal_changes_no_player(game: GameView, name: Seq<char>)
    requires
        game.knows(name),
    ensures
        game.after(CommandView::Heal { actor: name, target: name }).players == game.players,
        game.after(CommandView::Heal { actor: name, target: name }).warnings.len()
            == game.warnings.len() + 1,
{
    assert(after_heal(game.players, name, name) =~= game.players);
}

/// A player that is not frozen and flips its visibility twice leaves the
/// game exactly as it was.
pub proof fn lemma_flip_twice_restores(game: GameView, name: Seq<char>)
    requires
        game.knows(name),
        game.players[name].power > 0,
    ensures
        game.after(CommandView::FlipVisibility { actor: name }).after(
            CommandView::FlipVisibility { actor: name },
        ) == game,
{
    let once = game.after(CommandView::FlipVisibility { actor: name });
    let twice = once.after(CommandView::FlipVisibility { actor: name });
    assert(twice.players =~= game.players);
}

/// An accepted merge takes both players out and brings in the merged one
/// under the name that belongs to the number of merges before it. That
/// number then goes up by one, so that no such name is given twice.
pub proof fn lemma_merge_takes_next_name(game: GameView, actor: Seq<char>, target: Seq<char>)
    requires
        keyed_by_name(game.players),
        game.knows(actor),
        game.knows(target),
        merge_refusal(game.players[actor], game.players[target]) is None,
    ensures
        game.after_super(actor, target).merges == game.merges + 1,
        game.after_super(actor, target).warnings == game.warnings,
        game.after_super(actor, target).knows(merged_name(game.merges)),
        game.after_super(actor, target).players[merged_name(game.merges)] == merged_player(
            game.players[actor],
            game.players[target],
            game.merges,
        ),
        actor != merged_name(game.merges) ==> !game.after_super(actor, target).knows(actor),
        target != merged_name(game.merges) ==> !game.after_super(actor, target).knows(target),
        forall|other: Seq<char>|
            #![trigger game.knows(other)]
            other != actor && other != target && other != merged_name(game.merges) ==> (
            game.after_super(actor, target).knows(other) <==> game.knows(other)),
        forall|other: Seq<char>|
            #![trigger game.players[other]]
            other != actor && other != target && other != merged_name(game.merges) && game.knows(
                other,
            ) ==> game.after_super(actor, target).players[other] == game.players[other],
{
}

/// Merges of different numbers bring forth players of different names.
pub proof fn lemma_merged_names_differ(one: nat, other: nat)
    requires
        one != other,
    ensures
        merged_name(one) != merged_name(other),
{
    lemma_decimal_round_trip(one);
    lemma_decimal_round_trip(other);
    let prefix = "S_"@;
    if merged_name(one) == merged_name(other) {
        assert(merged_name(one).subrange(prefix.len() as int, merged_name(one).len() as int)
            == decimal_digits(one));
        assert(merged_name(other).subrange(prefix.len() as int, merged_name(other).len() as int)
            == decimal_digits(other));
    }
}

/// A game in progress.
pub struct Game {
    teams: Vec<String>,
    players: Roster,
    warnings: Vec<Warning>,
    super_player_counter: u64,
}

impl View for Game {
    type V = GameView;

    closed spec fn view(&self) -> GameView {
        GameView {
            teams: self.teams@.map_values(|name: String| name@),
            players: self.players@,
            warnings: self.warnings@,
            merges: self.super_player_counter as nat,
        }
    }
}

impl Game {
    /// The game is sound, inside and as seen from outside.
    pub closed spec fn well_formed(&self) -> bool {
        &&& self.players.well_formed()
        &&& self@.well_formed()
    }

    /// A sound game is sound as seen from outside.
    pub proof fn lemma_view_well_formed(&self)
        requires
            self.well_formed(),
        ensures
            self@.well_formed(),
    {
    }

    /// A game that starts with these teams and players.
    pub(crate) fn assemble(teams: Vec<String>, players: Roster) -> (game: Game)
        requires
            players.well_formed(),
            GameView::fresh(teams@.map_values(|name: String| name@), players@).well_formed(),
        ensures
            game.well_formed(),
            game@ == GameView::fresh(teams@.map_values(|name: String| name@), players@),
    {
        Game { teams, players, warnings: Vec::new(), super_player_counter: 0 }
    }

    /// The names of the teams.
    pub fn teams(&self) -> (teams: &Vec<String>)
        ensures
            teams@.map_values(|name: String| name@) == self@.teams,
    {
        &self.teams
    }

    /// The warnings raised so far, oldest first.
    pub fn warnings(&self) -> (warnings: &Vec<Warning>)
        ensures
            warnings@ == self@.warnings,
    {
        &self.warnings
    }

    /// How many pairs of players have been merged so far.
    pub fn merges(&self) -> (merges: u64)
        ensures
            merges == self@.merges,
    {
        self.super_player_counter
    }

    /// How many players are in the game.
    pub fn player_count(&self) -> (count: usize)
        requires
            self.well_formed(),
        ensures
            count == self@.players.dom().len(),
    {
        self.players.len()
    }

    /// The player called `name`, if it is in the game.
    pub fn player(&self, name: &str) -> (found: Option<&Player>)
        requires
            self.well_formed(),
        ensures
            found is Some <==> self@.knows(name@),
            found matches Some(player) ==> player@ == self@.players[name@],
    {
        self.players.get(name)
    }

    /// The summed power of each team, in the order of the teams.
    pub fn team_totals(&self) -> (totals: Vec<u64>)
        requires
            self.well_formed(),
        ensures
            totals@.len() == self@.teams.len(),
            forall|team: int|
                0 <= team < totals@.len() ==> #[trigger] totals@[team] == team_power(
                    self@.players,
                    team as nat,
                ),
    {
        self.players.team_totals(self.teams.len())
    }

    /// Obeys `command`. A command that breaks a rule changes no player and
    /// leaves a warning. A command that names a player that is not in the
    /// game is a fatal error, and changes nothing at all.
    pub fn apply(&mut self, command: &Command) -> (obeyed: Result<(), FatalError>)
        requires
            old(self).well_formed(),
        ensures
            final(self).well_formed(),
            match obeyed {
                Ok(()) => old(self)@.obey(command@) == Ok::<GameView, FatalError>(final(self)@),
                Err(_) => old(self)@.obey(command@) is Err && final(self)@ == old(self)@,
            },
    {
        let outcome = match command {
            Command::Attack { actor, target } => self.players.attack(actor, target),
            Command::Heal { actor, target } => self.players.heal(actor, target),
            Command::FlipVisibility { actor } => self.players.flip_visibility(actor),
            Command::Super { actor, target } => {
                let merged = match (self.players.get(actor), self.players.get(target)) {
                    (Some(first), Some(second)) => merge(first, second, self.super_player_counter),
                    _ => {
                        return Err(FatalError::InvalidInput);
                    },
                };
                proof {
                    self.players.lemma_keyed_by_name();
                }
                match merged {
                    Ok(player) => {
                        self.players.replace_pair(actor, target, player);
                        self.super_player_counter = self.super_player_counter + 1;
                        Some(Ok(()))
                    },
                    Err(warning) => Some(Err(warning)),
                }
            },
        };
        let result = outcome.ok_or(FatalError::InvalidInput)?;
        if let Err(warning) = result {
            self.warnings.push(warning);
        }
        proof {
            lemma_command_keeps_well_formed(old(self)@, command@);
        }
        Ok(())
    }

    /// Obeys the command that `line` spells. A line that spells no command
    /// is a fatal error too, and changes nothing.
    pub fn execute(&mut self, line: &str) -> (obeyed: Result<(), FatalError>)
        requires
            old(self).well_formed(),
        ensures
            final(self).well_formed(),
            match obeyed {
                Ok(()) => old(self)@.step(line@) == Ok::<GameView, FatalError>(final(self)@),
                Err(_) => old(self)@.step(line@) is Err && final(self)@ == old(self)@,
            },
    {
        self.apply(&parse_command(line)?)
    }
}

/// Merges `actor` with `target` into the player that merge number `merges`
/// brings forth, unless a rule forbids it.
pub fn merge(actor: &Player, target: &Player, merges: u64) -> (merged: Result<Player, Warning>)
    ensures
        match merged {
            Ok(player) => merge_refusal(actor@, target@) is None && player@ == merged_player(
                actor@,
                target@,
                merges as nat,
            ),
            Err(warning) => merge_refusal(actor@, target@) == Some(warning),
        },
{
    if !actor.is_visible {
        return Err(Warning::CannotPlay);
    }
    if actor.power == 0 {
        return Err(Warning::PlayerFrozen);
    }
    if actor.team_number != target.team_number {
        return Err(Warning::DifferentTeam);
    }
    if actor.name == target.name {
        return Err(Warning::CannotSuperSelf);
    }
    let mut name = String::from_str("S_");
    append_decimal(&mut name, merges);
    Ok(
        Player {
            name,
            team_number: actor.team_number,
            power: add_capped(actor.power, target.power),
            is_visible: true,
        },
    )
}

} // verus!
