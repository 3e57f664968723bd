pub mod engine;
pub mod raycasting_engine;
pub mod utils;
pub mod world;

use vstd::prelude::*;
use crate::engine::Engine;
use crate::world::map::TileMap;

verus! {

/// Sets up a game from its levels' tile grids and its screen size: there is nothing to play
/// without a level, and otherwise the engine starts on the first level, unpaused.
pub fn run_game(levels: Vec<TileMap>, scr_width: usize, scr_height: usize) -> (engine: Option<Engine>)
    ensures
        engine is None <==> levels@.len() == 0,
        engine matches Some(e) ==> {
            &&& e.levels() == levels@
            &&& e.width() == scr_width
            &&& e.height() == scr_height
            &&& e.level() == 0
            &&& !e.paused()
            &&& !e.debug()
        },
{
    // simple check for levels
    if levels.len() == 0 {
        return None;
    }
    Some(Engine::new(levels, scr_width, scr_height))
}

} // verus!
