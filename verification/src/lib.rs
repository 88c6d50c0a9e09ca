//! The model of a fighting game's moves: the inputs of a game, the notation
//! in which sequences of inputs are written, and the records that hold them.

use vstd::prelude::*;

pub mod game;
pub mod input;
pub mod spreadsheet;
pub mod submodels;
pub mod text;

pub use crate::game::{Game, Profile};
pub use crate::input::{Input, Symbol};
pub use crate::submodels::mk12;
pub use crate::submodels::{GameSubmodel, Title};

verus! {

/// The directory of the games.
pub const GAMES: &'static str = "games";

/// The directory of the characters of a game.
pub const CHARACTERS: &'static str = "characters";

/// The directory of the platforms.
pub const PLATFORMS: &'static str = "platforms";

/// The directory of the devices.
pub const DEVICES: &'static str = "devices";

/// The kinds of record that are kept in files of their own.
#[derive(Clone, Copy, Debug, PartialEq, Eq, Structural)]
pub enum Models {
    Game,
    Character,
}

impl Models {
    /// The name under which records of this kind are filed.
    pub open spec fn spec_name(self) -> Seq<char> {
        match self {
            Models::Game => "Game"@,
            Models::Character => "Character"@,
        }
    }

    /// The name under which records of this kind are filed.
    pub fn name(&self) -> (name: &'static str)
        ensures
            name@ == self.spec_name(),
    {
        match *self {
            Models::Game => "Game",
            Models::Character => "Character",
        }
    }
}

} // verus!
