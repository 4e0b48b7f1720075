//! What each field of a game's description has to look like.

use crate::game::Game;
use crate::outcome::FatalError;
use crate::player::MAX_POWER;
use crate::roster::MAX_PLAYERS;
use crate::text::same_text;
use vstd::prelude::*;
use vstd::string::StrSliceExecFns;
use vstd::utf8::encode_utf8;

verus! {

/// The most teams that a game can have.
pub const MAX_TEAMS: u64 = 10;

/// The length of the shortest name, in bytes of UTF-8.
pub const MIN_NAME_LENGTH: usize = 2;

/// The length of the longest name, in bytes of UTF-8.
pub const MAX_NAME_LENGTH: usize = 20;

/// Whether `c` is alphabetic in the sense of the Unicode standard, as
/// [`char::is_alphabetic`] tells it.
pub uninterp spec fn is_letter(c: char) -> bool;

/// Whether `c` is one of the capital letters `A` to `Z`.
pub open spec fn is_capital(c: char) -> bool {
    'A' <= c <= 'Z'
}

/// Whether every character of `name` after the first is alphabetic.
pub open spec fn rest_is_alphabetic(name: Seq<char>) -> bool {
    forall|i: int| 1 <= i < name.len() ==> is_letter(#[trigger] name[i])
}

/// Whether a name can name a team or a player, told from the number of
/// bytes of UTF-8 that it takes, from its first character, and from whether
/// its further characters are all alphabetic: it takes 2 to 20 bytes, it
/// begins with one of the capital letters `A` to `Z`, and they are.
pub open spec fn name_shape(bytes: nat, first: char, rest_alphabetic: bool) -> bool {
    &&& MIN_NAME_LENGTH <= bytes <= MAX_NAME_LENGTH
    &&& is_capital(first)
    &&& rest_alphabetic
}

/// Whether `name` can name a team or a player: it takes 2 to 20 bytes of
/// UTF-8, begins with one of the capital letters `A` to `Z`, and goes on
/// with alphabetic characters only.
pub open spec fn valid_name(name: Seq<char>) -> bool {
    &&& name.len() > 0
    &&& name_shape(encode_utf8(name).len(), name[0], rest_is_alphabetic(name))
}

/// What `text` says of a player's visibility, if it is one of the two
/// words for it.
pub open spec fn visibility_of(text: Seq<char>) -> Option<bool> {
    if text == "False"@ {
        Some(false)
    } else if text == "True"@ {
        Some(true)
    } else {
        None
    }
}

/// `value` if it is `wanted`, and invalid input otherwise.
pub open spec fn accepted<T>(wanted: bool, value: T) -> Result<T, FatalError> {
    if wanted {
        Ok(value)
    } else {
        Err(FatalError::InvalidInput)
    }
}

/// Calls [`char::is_alphabetic`], which looks `c` up in the tables of the
/// Unicode standard. Nothing is claimed of the answer but that it depends on
/// `c` alone; `is_letter` is the name of it.
#[verifier::external_body]
fn is_alphabetic(c: char) -> (letter: bool)
    ensures
        letter == is_letter(c),
{
    c.is_alphabetic()
}

/// Tells whether every character of `name` after the first is alphabetic.
pub fn letters_after_first(name: &str) -> (all: bool)
    ensures
        all == rest_is_alphabetic(name@),
{
    let length = name.unicode_len();
    let mut seen: usize = 0;
    for c in it: name.chars()
        invariant
            it.seq() == name@,
            length == name@.len(),
            seen == it.index(),
            seen <= length,
            forall|i: int| 1 <= i < seen ==> is_letter(#[trigger] name@[i]),
    {
        if seen > 0 && !is_alphabetic(c) {
            return false;
        }
        seen = seen + 1;
    }
    true
}

/// Tells whether a name can name a team or a player, from the number of
/// bytes that it takes, from its first character, and from whether its
/// further characters are all alphabetic.
pub fn name_is_valid(bytes: usize, first: char, rest_alphabetic: bool) -> (valid: bool)
    ensures
        valid == name_shape(bytes as nat, first, rest_alphabetic),
{
    MIN_NAME_LENGTH <= bytes && bytes <= MAX_NAME_LENGTH && 'A' <= first && first <= 'Z'
        && rest_alphabetic
}

impl Game {
    /// A game has 1 to 10 teams.
    pub fn validate_total_teams(value: u64) -> (checked: Result<u64, FatalError>)
        ensures
            checked == accepted(1 <= value <= MAX_TEAMS, value),
    {
        if 1 <= value && value <= MAX_TEAMS {
            Ok(value)
        } else {
            Err(FatalError::InvalidInput)
        }
    }

    /// A game has at least one player for each team and at most 100 players.
    pub fn validate_total_players(teams: u64, value: u64) -> (checked: Result<u64, FatalError>)
        ensures
            checked == accepted(teams <= value <= MAX_PLAYERS, value),
    {
        if teams <= value && value <= MAX_PLAYERS as u64 {
            Ok(value)
        } else {
            Err(FatalError::InvalidInput)
        }
    }

    /// A name takes 2 to 20 bytes, begins with a capital letter from `A` to
    /// `Z` and goes on with alphabetic characters only.
    pub fn validate_name(name: String) -> (checked: Result<String, FatalError>)
        ensures
            checked == accepted(valid_name(name@), name),
    {
        let text = name.as_str();
        let bytes = text.as_bytes().len();
        if bytes == 0 || bytes > MAX_NAME_LENGTH {
            return Err(FatalError::InvalidInput);
        }
        let first = text.get_char(0);
        let rest_alphabetic = letters_after_first(text);
        if name_is_valid(bytes, first, rest_alphabetic) {
            Ok(name)
        } else {
            Err(FatalError::InvalidInput)
        }
    }

    /// A team number is the place of a team in the list of teams, counted
    /// from zero.
    pub fn validate_team_number(total_teams: u64, value: u64) -> (checked: Result<
        u64,
        FatalError,
    >)
        ensures
            checked == accepted(value < total_teams, value),
    {
        if value < total_teams {
            Ok(value)
        } else {
            Err(FatalError::InvalidInput)
        }
    }

    /// A player holds a power of 0 to 1000.
    pub fn validate_power(value: u64) -> (checked: Result<u64, FatalError>)
        ensures
            checked == accepted(value <= MAX_POWER, value),
    {
        if value <= MAX_POWER {
            Ok(value)
        } else {
            Err(FatalError::InvalidInput)
        }
    }

    /// A player's visibility is written `True` or `False`.
    pub fn validate_visibility(value: String) -> (checked: Result<bool, FatalError>)
        ensures
            checked == match visibility_of(value@) {
                Some(visible) => Ok::<bool, FatalError>(visible),
                None => Err(FatalError::InvalidInput),
            },
    {
        if same_text(value.as_str(), "False") {
            Ok(false)
        } else if same_text(value.as_str(), "True") {
            Ok(true)
        } else {
            Err(FatalError::InvalidInput)
        }
    }
}

} // verus!
