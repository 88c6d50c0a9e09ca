//! What single titles add to the common model of a game.

use vstd::prelude::*;
use crate::text::same_text;

pub mod mk12;

verus! {

/// The titles that add something of their own.
#[derive(Clone, Copy, Debug, PartialEq, Eq, Structural)]
pub enum Title {
    MortalKombat1,
}

impl Title {
    /// The title that goes by `name`, if any.
    pub open spec fn named(name: Seq<char>) -> Option<Title> {
        if name == "Mortal Kombat 1"@ || name == "mk12"@ {
            Some(Title::MortalKombat1)
        } else {
            None
        }
    }

    /// Reads a title from its full name or its short name.
    pub fn from_str(name: &str) -> (title: Option<Title>)
        ensures
            title == Title::named(name@),
    {
        if same_text(name, "Mortal Kombat 1") || same_text(name, "mk12") {
            Some(Title::MortalKombat1)
        } else {
            None
        }
    }
}

/// What a title adds to a game.
#[derive(Debug, PartialEq)]
pub enum GameSubmodel {
    Generic,
    MortalKombat1(mk12::GameSubmodel),
}

impl Default for GameSubmodel {
    fn default() -> (submodel: Self)
        ensures
            submodel == GameSubmodel::Generic,
    {
        GameSubmodel::Generic
    }
}

} // verus!
