//! The four commands of a game and how a line of text spells them.

use crate::outcome::FatalError;
use crate::text::{same_text, split_words, words};
use vstd::prelude::*;

verus! {

/// One command, with the names as they stand in the line it was read from.
#[derive(Debug, Clone, Copy, PartialEq, Eq)]
pub enum Command<'a> {
    Attack { actor: &'a str, target: &'a str },
    Heal { actor: &'a str, target: &'a str },
    FlipVisibility { actor: &'a str },
    Super { actor: &'a str, target: &'a str },
}

/// What a command says, as plain mathematical data.
pub ghost enum CommandView {
    Attack { actor: Seq<char>, target: Seq<char> },
    Heal { actor: Seq<char>, target: Seq<char> },
    FlipVisibility { actor: Seq<char> },
    Super { actor: Seq<char>, target: Seq<char> },
}

impl<'a> View for Command<'a> {
    type V = CommandView;

    open spec fn view(&self) -> CommandView {
        match *self {
            Command::Attack { actor, target } => CommandView::Attack {
                actor: actor@,
                target: target@,
            },
            Command::Heal { actor, target } => CommandView::Heal { actor: actor@, target: target@ },
            Command::FlipVisibility { actor } => CommandView::FlipVisibility { actor: actor@ },
            Command::Super { actor, target } => CommandView::Super {
                actor: actor@,
                target: target@,
            },
        }
    }
}

impl CommandView {
    /// The player that acts.
    pub open spec fn actor(self) -> Seq<char> {
        match self {
            CommandView::Attack { actor, .. } => actor,
            CommandView::Heal { actor, .. } => actor,
            CommandView::FlipVisibility { actor } => actor,
            CommandView::Super { actor, .. } => actor,
        }
    }

    /// The player that is acted upon. A player that flips its visibility
    /// acts upon itself.
    pub open spec fn target(self) -> Seq<char> {
        match self {
            CommandView::Attack { target, .. } => target,
            CommandView::Heal { target, .. } => target,
            CommandView::FlipVisibility { actor } => actor,
            CommandView::Super { target, .. } => target,
        }
    }
}

/// The command that `line` spells, if it spells one: a keyword and the
/// names it takes, one for `flip_visibility` and two for the others, with
/// single blanks between them and nothing else.
pub open spec fn command_of(line: Seq<char>) -> Option<CommandView> {
    let parts = words(line);
    if parts.len() == 3 && parts[0] == "attack"@ {
        Some(CommandView::Attack { actor: parts[1], target: parts[2] })
    } else if parts.len() == 3 && parts[0] == "heal"@ {
        Some(CommandView::Heal { actor: parts[1], target: parts[2] })
    } else if parts.len() == 2 && parts[0] == "flip_visibility"@ {
        Some(CommandView::FlipVisibility { actor: parts[1] })
    } else if parts.len() == 3 && parts[0] == "super"@ {
        Some(CommandView::Super { actor: parts[1], target: parts[2] })
    } else {
        None
    }
}

/// Reads the command that `line` spells. Any other line is invalid input.
pub fn parse_command<'a>(line: &'a str) -> (parsed: Result<Command<'a>, FatalError>)
    ensures
        match parsed {
            Ok(command) => command_of(line@) == Some(command@),
            Err(_) => command_of(line@) is None,
        },
{
    let parts = match split_words(line, 3) {
        Some(parts) => parts,
        None => {
            return Err(FatalError::InvalidInput);
        },
    };
    if parts.len() < 2 {
        return Err(FatalError::InvalidInput);
    }
    let keyword = parts[0];
    let actor = parts[1];
    if parts.len() == 2 {
        if same_text(keyword, "flip_visibility") {
            Ok(Command::FlipVisibility { actor })
        } else {
            Err(FatalError::InvalidInput)
        }
    } else {
        let target = parts[2];
        if same_text(keyword, "attack") {
            Ok(Command::Attack { actor, target })
        } else if same_text(keyword, "heal") {
            Ok(Command::Heal { actor, target })
        } else if same_text(keyword, "super") {
            Ok(Command::Super { actor, target })
        } else {
            Err(FatalError::InvalidInput)
        }
    }
}

} // verus!
