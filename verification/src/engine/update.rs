use vstd::prelude::*;
use super::Engine;

verus! {

impl Engine {
    /// Gets a single, specific tile of the current level at column `x`, row `y`; coordinates
    /// outside the level's grid read as a wall (`1`).
    pub fn get_tile(&self, x: usize, y: usize) -> (tile: u8)
        requires
            self.level() < self.levels().len(),
            x < self.levels()[self.level() as int].map_width && y < self.levels()[self.level() as int].map_height
                ==> y * self.levels()[self.level() as int].map_width + x <= usize::MAX,
        ensures
            tile == self.levels()[self.level() as int].tile_spec(x as int, y as int),
    {
        let level = &self.levels[self.current_level_idx];
        level.get_tile(x, y)
    }

    /// Changes the current level to `new_level_idx`, when there is such a level: a request
    /// past the last level changes nothing. Tells whether the level changed, in which case
    /// the caller reloads the level's textures and puts the player at its start.
    pub fn change_level(&mut self, new_level_idx: usize) -> (changed: bool)
        ensures
            changed == (new_level_idx < old(self).levels().len()),
            final(self).level() == if changed {
                new_level_idx
            } else {
                old(self).level()
            },
            final(self).levels() == old(self).levels(),
            final(self).width() == old(self).width(),
            final(self).height() == old(self).height(),
            final(self).paused() == old(self).paused(),
            final(self).debug() == old(self).debug(),
    {
        // prevent crashing if player beat the last level
        if new_level_idx >= self.levels.len() {
            return false;
        }
        self.current_level_idx = new_level_idx;
        true
    }
}

/// The movement the keys ask for, before it is scaled and normalized: the forward axis is
/// `+1` for forward (W) and `-1` for back (S), the sideways axis `+1` for left (A) and `-1` for
/// right (D); opposite keys cancel out.
pub fn movement_input(forward: bool, back: bool, right: bool, left: bool) -> (input: (i8, i8))
    ensures
        input.0 == (if left { 1int } else { 0 }) - (if right { 1int } else { 0 }),
        input.1 == (if forward { 1int } else { 0 }) - (if back { 1int } else { 0 }),
{
    let mut input_x: i8 = 0;
    let mut input_y: i8 = 0;
    if forward {
        input_y += 1;
    }
    if back {
        input_y -= 1;
    }
    if right {
        input_x -= 1;
    }
    if left {
        input_x += 1;
    }
    (input_x, input_y)
}

} // verus!
