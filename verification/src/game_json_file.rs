//! The copy of the original document, written back out for round-tripping.

use vstd::prelude::*;

use crate::document::{json_text, jval};
use crate::game_data::{gd_model, GameData};

verus! {

pub struct GameJsonFile {}

impl GameJsonFile {
    /// The document re-serialized as compact JSON.
    pub fn build_content(game_data: &GameData) -> (r: String)
        ensures
            r@ == json_text(gd_model(*game_data).json),
    {
        game_data.json.to_json_text()
    }
}

} // verus!
