//! A turn-based wizard battle: teams of players attack, heal, hide and merge,
//! and the team with the greatest remaining power is chosen at the end.
//!
//! A run is a list of lines. Its beginning describes the teams and the
//! players ([`setup`]); every further line is a command ([`command`]) that
//! the game obeys ([`game`]) by letting players act on each other
//! ([`player`], [`roster`]). A command that breaks a rule of the game leaves
//! a warning and changes nothing; a line that is malformed is fatal
//! ([`outcome`]). At the end the team with the greatest summed power is
//! chosen, unless that power is shared ([`winner`]), and the outcome is put
//! into lines ([`session`]).
//!
//! Every function states in its contract what it returns and changes, over
//! plain mathematical data: a game is a [`game::GameView`], its players are
//! a map from names to [`player::PlayerView`]s, and text is a sequence of
//! characters.

pub mod command;
pub mod game;
pub mod outcome;
pub mod player;
pub mod roster;
pub mod session;
pub mod setup;
pub mod text;
pub mod validate;
pub mod winner;
