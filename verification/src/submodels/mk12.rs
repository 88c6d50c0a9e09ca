//! Mortal Kombat 1.

use vstd::prelude::*;
use crate::text::same_text;

verus! {

/// What Mortal Kombat 1 adds to a game: nothing so far.
#[derive(Debug, PartialEq)]
pub struct GameSubmodel {}

impl GameSubmodel {
    pub fn new() -> (submodel: Self)
        ensures
            submodel == (GameSubmodel {  }),
    {
        Self {  }
    }
}

/// The height at which an attack has to be blocked.
#[derive(Clone, Copy, Debug, PartialEq, Eq, Structural)]
pub enum BlockType {
    Low,
    Mid,
    High,
}

impl BlockType {
    /// The block type that goes by `name`, if any.
    pub open spec fn named(name: Seq<char>) -> Option<BlockType> {
        if name == "Low"@ {
            Some(BlockType::Low)
        } else if name == "Mid"@ {
            Some(BlockType::Mid)
        } else if name == "High"@ {
            Some(BlockType::High)
        } else {
            None
        }
    }

    /// Reads a block type from its name.
    pub fn from_str(name: &str) -> (block_type: Option<BlockType>)
        ensures
            block_type == BlockType::named(name@),
    {
        if same_text(name, "Low") {
            Some(BlockType::Low)
        } else if same_text(name, "Mid") {
            Some(BlockType::Mid)
        } else if same_text(name, "High") {
            Some(BlockType::High)
        } else {
            None
        }
    }
}

} // verus!
