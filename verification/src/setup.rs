//! Reading the description of a game: its teams, then its players.

use crate::game::{Game, GameView};
use crate::outcome::FatalError;
use crate::player::{Player, PlayerView, MAX_POWER};
use crate::roster::{lemma_roster_of_sound, roster_of, Roster, MAX_PLAYERS};
use crate::text::{machine_number_of, parse_number};
use crate::validate::{valid_name, visibility_of, MAX_TEAMS};
use vstd::prelude::*;

verus! {

/// The lines of some text, as plain mathematical data.
pub open spec fn lines_of(lines: Seq<String>) -> Seq<Seq<char>> {
    lines.map_values(|line: String| line@)
}

/// The number written in `line`, if it is one that `wanted` accepts.
pub open spec fn number_where(line: Seq<char>, wanted: spec_fn(u64) -> bool) -> Option<nat> {
    match machine_number_of(line) {
        Some(n) if wanted(n) => Some(n as nat),
        _ => None,
    }
}

/// The number of teams that `line` announces: a number from 1 to 10.
pub open spec fn team_count_of(line: Seq<char>) -> Option<nat> {
    number_where(line, |n: u64| 1 <= n <= MAX_TEAMS)
}

/// The number of players that `line` announces to a game of `teams` teams:
/// at least one for each team, and at most 100.
pub open spec fn player_count_of(line: Seq<char>, teams: nat) -> Option<nat> {
    number_where(line, |n: u64| teams <= n <= MAX_PLAYERS)
}

/// The team number that `line` gives a player in a game of `teams` teams.
pub open spec fn team_number_of(line: Seq<char>, teams: nat) -> Option<nat> {
    number_where(line, |n: u64| n < teams)
}

/// The power that `line` gives a player: a number from 0 to 1000.
pub open spec fn power_of(line: Seq<char>) -> Option<nat> {
    number_where(line, |n: u64| n <= MAX_POWER)
}

/// The player that the four lines from `at` on describe in a game of
/// `teams` teams, if they are there and describe one: its name, its team
/// number, its power and its visibility.
pub open spec fn record_at(lines: Seq<Seq<char>>, at: int, teams: nat) -> Option<PlayerView> {
    if 0 <= at && at + 4 <= lines.len() && valid_name(lines[at]) && team_number_of(
        lines[at + 1],
        teams,
    ) is Some && power_of(lines[at + 2]) is Some && visibility_of(lines[at + 3]) is Some {
        Some(
            PlayerView {
                name: lines[at],
                team_number: team_number_of(lines[at + 1], teams)->0,
                power: power_of(lines[at + 2])->0,
                is_visible: visibility_of(lines[at + 3])->0,
            },
        )
    } else {
        None
    }
}

/// The line on which the description of player number `k` begins, after the
/// number of teams, the `teams` team names and the number of players.
pub open spec fn record_start(teams: nat, k: int) -> int {
    teams + 2 + 4 * k
}

/// The player number `k` that `lines` describe in a game of `teams` teams.
pub open spec fn player_at(lines: Seq<Seq<char>>, teams: nat, k: int) -> Option<PlayerView> {
    record_at(lines, record_start(teams, k), teams)
}

/// What the description of a game says.
pub ghost struct SetupView {
    /// The names of the teams.
    pub teams: Seq<Seq<char>>,
    /// The players as they are described, in the order of the description.
    pub records: Seq<PlayerView>,
    /// The number of lines that the description takes.
    pub length: int,
}

impl SetupView {
    /// The game that the description sets up. Of two players described
    /// under one name only the later one is in the game.
    pub open spec fn game(self) -> GameView {
        GameView::fresh(self.teams, roster_of(self.records))
    }
}

/// What `lines` say at their beginning, if they begin with the description
/// of a game: the number of teams; a name for each team; the number of
/// players; and four lines for each player.
pub open spec fn setup_of(lines: Seq<Seq<char>>) -> Option<SetupView> {
    if lines.len() == 0 || team_count_of(lines[0]) is None {
        None
    } else {
        let teams = team_count_of(lines[0])->0;
        if lines.len() < teams + 2 || !(forall|i: int|
            1 <= i <= teams ==> valid_name(#[trigger] lines[i])) || player_count_of(
            lines[teams as int + 1],
            teams,
        ) is None {
            None
        } else {
            let players = player_count_of(lines[teams as int + 1], teams)->0;
            if forall|k: int| 0 <= k < players ==> (#[trigger] player_at(lines, teams, k)) is Some {
                Some(
                    SetupView {
                        teams: lines.subrange(1, teams as int + 1),
                        records: Seq::new(players, |k: int| player_at(lines, teams, k)->0),
                        length: record_start(teams, players as int),
                    },
                )
            } else {
                None
            }
        }
    }
}

/// The line number `at`, if there are that many lines.
fn line_at(lines: &Vec<String>, at: usize) -> (found: Result<&String, FatalError>)
    ensures
        match found {
            Ok(line) => at < lines@.len() && *line == lines@[at as int],
            Err(_) => at >= lines@.len(),
        },
{
    if at < lines.len() {
        Ok(&lines[at])
    } else {
        Err(FatalError::InvalidInput)
    }
}

/// The number written in line number `at`, if there is such a line and it
/// is a number.
fn number_at(lines: &Vec<String>, at: usize) -> (found: Result<u64, FatalError>)
    ensures
        match found {
            Ok(n) => at < lines@.len() && machine_number_of(lines@[at as int]@) == Some(n),
            Err(_) => at >= lines@.len() || machine_number_of(lines@[at as int]@) is None,
        },
{
    let line = line_at(lines, at)?;
    match parse_number(line.as_str()) {
        Some(n) => Ok(n),
        None => Err(FatalError::InvalidInput),
    }
}

/// Reads the player that the four lines from `at` on describe.
fn read_player(lines: &Vec<String>, at: usize, teams: u64) -> (found: Result<Player, FatalError>)
    requires
        at + 4 <= usize::MAX,
    ensures
        match found {
            Ok(player) => record_at(lines_of(lines@), at as int, teams as nat) == Some(player@),
            Err(_) => record_at(lines_of(lines@), at as int, teams as nat) is None,
        },
{
    let name = Game::validate_name(line_at(lines, at)?.clone())?;
    let team_number = Game::validate_team_number(teams, number_at(lines, at + 1)?)?;
    let power = Game::validate_power(number_at(lines, at + 2)?)?;
    let is_visible = Game::validate_visibility(line_at(lines, at + 3)?.clone())?;
    Ok(Player { name, team_number, power, is_visible })
}

impl Game {
    /// Reads the description of a game from the beginning of `lines` and
    /// sets the game up. Hands back the game and the number of lines that
    /// the description took. If any field is missing or malformed, the whole
    /// description is invalid input.
    pub fn setup(lines: &Vec<String>) -> (ready: Result<(Game, usize), FatalError>)
        ensures
            match ready {
                Ok((game, length)) => {
                    &&& game.well_formed()
                    &&& length <= lines@.len()
                    &&& setup_of(lines_of(lines@)) matches Some(setup)
                    &&& setup.game() == game@
                    &&& setup.length == length
                },
                Err(_) => setup_of(lines_of(lines@)) is None,
            },
    {
        let ghost text = lines_of(lines@);
        let announced = Game::validate_total_teams(number_at(lines, 0)?)?;
        let total_teams: usize = announced as usize;
        let mut teams: Vec<String> = Vec::new();
        for i in 0..total_teams
            invariant
                text == lines_of(lines@),
                team_count_of(text[0]) == Some(total_teams as nat),
                total_teams <= MAX_TEAMS,
                teams@.len() == i,
                i < lines@.len(),
                forall|j: int| 0 <= j < i ==> (#[trigger] teams@[j])@ == text[1 + j],
                forall|j: int| 1 <= j <= i ==> valid_name(#[trigger] text[j]),
        {
            let name = Game::validate_name(line_at(lines, 1 + i)?.clone());
            if name.is_err() {
                assert(!valid_name(text[1 + i]));
            }
            teams.push(name?);
        }
        let total_players: usize = Game::validate_total_players(
            announced,
            number_at(lines, total_teams + 1)?,
        )? as usize;
        assert(player_count_of(text[total_teams + 1], total_teams as nat) == Some(
            total_players as nat,
        ));
        let mut players = Roster::new();
        let ghost mut records: Seq<PlayerView> = Seq::empty();
        for k in 0..total_players
            invariant
                text == lines_of(lines@),
                total_teams == announced,
                total_teams <= MAX_TEAMS,
                total_players <= MAX_PLAYERS,
                total_teams + 1 < lines@.len(),
                team_count_of(text[0]) == Some(total_teams as nat),
                player_count_of(text[total_teams + 1], total_teams as nat) == Some(
                    total_players as nat,
                ),
                players.well_formed(),
                players@ == roster_of(records),
                records.len() == k,
                forall|j: int|
                    0 <= j < k ==> (#[trigger] player_at(text, total_teams as nat, j)) == Some(
                        records[j],
                    ),
        {
            let read = read_player(lines, total_teams + 2 + 4 * k, announced);
            if read.is_err() {
                assert(player_at(text, total_teams as nat, k as int) is None);
            }
            let player = read?;
            proof {
                assert(records.push(player@).drop_last() == records);
                records = records.push(player@);
            }
            players.insert(player);
        }
        let ghost teams_view = teams@.map_values(|name: String| name@);
        proof {
            let setup = setup_of(text)->0;
            assert(setup.records == records);
            assert(setup.teams == teams_view);
            assert forall|i: int| 0 <= i < records.len() implies (#[trigger] records[i]).power
                <= MAX_POWER && records[i].team_number < total_teams by {
                assert(player_at(text, total_teams as nat, i) == Some(records[i]));
            }
            lemma_roster_of_sound(records, total_teams as nat);
        }
        let length = total_teams + 2 + 4 * total_players;
        Ok((Game::assemble(teams, players), length))
    }
}

} // verus!
