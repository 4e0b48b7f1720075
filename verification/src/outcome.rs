//! The two severities with which a run can go wrong.

use vstd::prelude::*;

verus! {

/// A malformed input: it ends the whole run at once, and nothing but the
/// error itself is reported.
#[derive(Clone, Copy, Debug, PartialEq, Eq, Structural)]
pub enum FatalError {
    /// A field of the description or a command line is not what it has to
    /// be, or a command names a player that is not in the game.
    InvalidInput,
}

/// A rule that a well-formed command broke. The command is skipped and the
/// run goes on.
#[derive(Clone, Copy, Debug, PartialEq, Eq, Structural)]
pub enum Warning {
    /// The acting player is hidden.
    CannotPlay,
    /// The acting player has no power left.
    PlayerFrozen,
    /// The two players belong to different teams.
    DifferentTeam,
    /// A player tried to heal itself.
    CannotHealSelf,
    /// A player tried to merge with itself.
    CannotSuperSelf,
}

impl Warning {
    /// The line that reports this warning.
    pub open spec fn text(self) -> Seq<char> {
        match self {
            Warning::CannotPlay => "This player can't play"@,
            Warning::PlayerFrozen => "This player is frozen"@,
            Warning::DifferentTeam => "Both players should be from the same team"@,
            Warning::CannotHealSelf => "The player cannot heal itself"@,
            Warning::CannotSuperSelf => "The player cannot do super action with itself"@,
        }
    }

    /// The line that reports this warning.
    pub fn message(&self) -> (s: &'static str)
        ensures
            s@ == self.text(),
    {
        match self {
            Warning::CannotPlay => "This player can't play",
            Warning::PlayerFrozen => "This player is frozen",
            Warning::DifferentTeam => "Both players should be from the same team",
            Warning::CannotHealSelf => "The player cannot heal itself",
            Warning::CannotSuperSelf => "The player cannot do super action with itself",
        }
    }
}

impl FatalError {
    /// The line that reports this error.
    pub open spec fn text(self) -> Seq<char> {
        "Invalid inputs"@
    }

    /// The line that reports this error.
    pub fn message(&self) -> (s: &'static str)
        ensures
            s@ == self.text(),
    {
        "Invalid inputs"
    }
}

} // verus!
