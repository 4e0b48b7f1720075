//! A whole run: the game is set up, the commands are obeyed, and the
//! outcome is put into lines.

use crate::game::{lemma_play_keeps_well_formed, play, Game, GameView};
use crate::outcome::{FatalError, Warning};
use crate::player::MAX_POWER;
use crate::roster::lemma_roster_of_sound;
use crate::setup::{lines_of, player_at, player_count_of, setup_of, team_count_of};
use vstd::prelude::*;
use vstd::string::StringExecFns;

verus! {

/// The game at the end of the run that `lines` describe: the game that
/// their beginning sets up, once every further line has been obeyed as a
/// command. A bad description and a bad command are fatal alike.
pub open spec fn run_of(lines: Seq<Seq<char>>) -> Result<GameView, FatalError> {
    match setup_of(lines) {
        Some(setup) => play(setup.game(), lines.subrange(setup.length, lines.len() as int)),
        None => Err(FatalError::InvalidInput),
    }
}

/// The line that tells which team was chosen.
pub open spec fn winner_line(game: GameView) -> Seq<char> {
    match game.winner() {
        Some(team) => "The chosen wizard is "@ + game.teams[team],
        None => "It's a tie"@,
    }
}

/// The lines that tell how a run ended. A run that went through tells its
/// warnings, oldest first, and then the team that was chosen. A run that
/// met a fatal error tells that error and nothing else.
pub open spec fn report_of(outcome: Result<GameView, FatalError>) -> Seq<Seq<char>> {
    match outcome {
        Ok(game) => game.warnings.map_values(|warning: Warning| warning.text()).push(
            winner_line(game),
        ),
        Err(error) => seq![error.text()],
    }
}

/// The outcome of a run, as plain mathematical data.
pub open spec fn outcome_view(outcome: Result<Game, FatalError>) -> Result<GameView, FatalError> {
    match outcome {
        Ok(game) => Ok(game@),
        Err(error) => Err(error),
    }
}

/// Every description of a game sets up a sound game: each player belongs
/// to one of the teams and holds no more than the greatest power.
pub proof fn lemma_setup_well_formed(lines: Seq<Seq<char>>)
    requires
        setup_of(lines) is Some,
    ensures
        setup_of(lines)->0.game().well_formed(),
        0 <= setup_of(lines)->0.length <= lines.len(),
{
    let setup = setup_of(lines)->0;
    let teams = team_count_of(lines[0])->0;
    assert forall|i: int| 0 <= i < setup.records.len() implies (#[trigger] setup.records[i]).power
        <= MAX_POWER && setup.records[i].team_number < teams by {
    }
    lemma_roster_of_sound(setup.records, teams);
}

/// In every run that goes through, whatever the commands, the game stays
/// sound to the end: no player ever holds more than the greatest power or
/// belongs to a team that is not there.
pub proof fn lemma_run_well_formed(lines: Seq<Seq<char>>)
    requires
        run_of(lines) is Ok,
    ensures
        run_of(lines)->Ok_0.well_formed(),
{
    let setup = setup_of(lines)->0;
    lemma_setup_well_formed(lines);
    lemma_play_keeps_well_formed(
        setup.game(),
        lines.subrange(setup.length, lines.len() as int),
    );
}

/// A run whose description is bad tells the fatal error and nothing else.
pub proof fn lemma_bad_setup_is_fatal(lines: Seq<Seq<char>>)
    requires
        setup_of(lines) is None,
    ensures
        report_of(run_of(lines)) == seq![FatalError::InvalidInput.text()],
{
}

/// A run in which some line is a bad command, one that spells no command or
/// names a player that is not in the game when its turn comes, tells the
/// fatal error and nothing else: no warning, and no chosen team.
pub proof fn lemma_bad_command_is_fatal(lines: Seq<Seq<char>>, bad: int)
    requires
        setup_of(lines) is Some,
        setup_of(lines)->0.length <= bad < lines.len(),
        play(
            setup_of(lines)->0.game(),
            lines.subrange(setup_of(lines)->0.length, bad),
        ) matches Ok(game) ==> game.step(lines[bad]) is Err,
    ensures
        report_of(run_of(lines)) == seq![FatalError::InvalidInput.text()],
{
    let setup = setup_of(lines)->0;
    let commands = lines.subrange(setup.length, lines.len() as int);
    lemma_setup_well_formed(lines);
    let k = bad - setup.length;
    assert(commands.take(k) == lines.subrange(setup.length, bad));
    assert(commands.take(k + 1).drop_last() == commands.take(k));
    lemma_play_stays_failed(setup.game(), commands, k + 1);
}

/// Commands that fail part of the way fail as a whole.
proof fn lemma_play_stays_failed(game: GameView, lines: Seq<Seq<char>>, k: int)
    requires
        0 <= k <= lines.len(),
        play(game, lines.take(k)) is Err,
    ensures
        play(game, lines) is Err,
    decreases lines.len() - k,
{
    if k == lines.len() {
        assert(lines.take(k) == lines);
    } else {
        assert(lines.take(k + 1).drop_last() == lines.take(k));
        lemma_play_stays_failed(game, lines, k + 1);
    }
}

impl Game {
    /// Runs the game that `lines` describe: sets it up from their beginning
    /// and obeys every further line as a command. The first fatal error
    /// ends the run.
    pub fn run(lines: &Vec<String>) -> (outcome: Result<Game, FatalError>)
        ensures
            outcome_view(outcome) == run_of(lines_of(lines@)),
            outcome matches Ok(game) ==> game.well_formed(),
    {
        let ghost text = lines_of(lines@);
        let (mut game, first) = Game::setup(lines)?;
        let ghost start = game@;
        let ghost commands = text.subrange(first as int, text.len() as int);
        for i in first..lines.len()
            invariant
                text == lines_of(lines@),
                first <= lines@.len(),
                setup_of(text) matches Some(setup) && setup.game() == start && setup.length
                    == first,
                commands == text.subrange(first as int, text.len() as int),
                game.well_formed(),
                play(start, commands.take(i - first)) == Ok::<GameView, FatalError>(game@),
        {
            proof {
                assert(commands.take(i - first + 1).drop_last() == commands.take(i - first));
            }
            if let Err(error) = game.execute(lines[i].as_str()) {
                proof {
                    lemma_play_stays_failed(start, commands, i - first + 1);
                }
                return Err(error);
            }
        }
        assert(commands.take(lines@.len() - first) == commands);
        Ok(game)
    }
}

/// Puts the outcome of a run into lines.
pub fn report(outcome: &Result<Game, FatalError>) -> (lines: Vec<String>)
    requires
        outcome matches Ok(game) ==> game.well_formed(),
    ensures
        lines_of(lines@) == report_of(outcome_view(*outcome)),
{
    let mut lines: Vec<String> = Vec::new();
    match outcome {
        Ok(game) => {
            let warnings = game.warnings();
            for i in 0..warnings.len()
                invariant
                    warnings@ == game@.warnings,
                    lines@.len() == i,
                    forall|j: int| 0 <= j < i ==> (#[trigger] lines@[j])@ == warnings@[j].text(),
            {
                lines.push(String::from_str(warnings[i].message()));
            }
            let last = match game.get_winner_index() {
                Some(team) => String::from_str("The chosen wizard is ").concat(
                    game.teams()[team].as_str(),
                ),
                None => String::from_str("It's a tie"),
            };
            lines.push(last);
        },
        Err(error) => {
            lines.push(String::from_str(error.message()));
        },
    }
    lines
}

/// Runs the game that `lines` describe and tells in lines how it ended.
pub fn answer(lines: &Vec<String>) -> (output: Vec<String>)
    ensures
        lines_of(output@) == report_of(run_of(lines_of(lines@))),
{
    let outcome = Game::run(lines);
    report(&outcome)
}

} // verus!
