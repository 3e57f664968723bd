pub mod render;
pub mod update;

use vstd::prelude::*;
use crate::world::map::TileMap;

verus! {

/// The engine's bookkeeping: the tile grids of the levels, which level is being played,
/// the screen size, and the pause and debug switches.
///
/// The window, the frame buffer, the textures, the player and the input stay with the
/// program that runs the game loop; this state decides what each frame does.
pub struct Engine {
    /// Public debug mode option
    pub show_debug: bool,
    /// Current level
    pub current_level_idx: usize,
    /// Public pause game check
    pub is_paused: bool,
    /// The tile grids of the levels, in order
    levels: Vec<TileMap>,
    /// Screen width in pixels
    scr_width: usize,
    /// Screen height in pixels
    scr_height: usize,
}

/// What a frame of the game loop does after the pause switch has been updated.
pub struct FramePlan {
    /// Whether the player's input is handled (not while paused).
    pub handle_input: bool,
    /// Whether the entities are updated (not while paused).
    pub update_entities: bool,
    /// Whether the debug overlay is drawn.
    pub draw_debug: bool,
    /// Whether the pause message is drawn.
    pub draw_pause: bool,
}

impl Engine {
    /// The levels' tile grids.
    pub closed spec fn levels(self) -> Seq<TileMap> {
        self.levels@
    }

    /// The index of the level being played.
    pub closed spec fn level(self) -> usize {
        self.current_level_idx
    }

    /// Whether the game is paused.
    pub closed spec fn paused(self) -> bool {
        self.is_paused
    }

    /// Whether the debug overlay is on.
    pub closed spec fn debug(self) -> bool {
        self.show_debug
    }

    /// The screen width.
    pub closed spec fn width(self) -> nat {
        self.scr_width as nat
    }

    /// The screen height.
    pub closed spec fn height(self) -> nat {
        self.scr_height as nat
    }

    /// Engine's constructor: starts on level 0, unpaused, without the debug overlay.
    pub fn new(levels: Vec<TileMap>, scr_width: usize, scr_height: usize) -> (engine: Self)
        requires
            levels@.len() > 0,
        ensures
            engine.levels() == levels@,
            engine.width() == scr_width,
            engine.height() == scr_height,
            engine.level() == 0,
            !engine.paused(),
            !engine.debug(),
    {
        Self {
            show_debug: false,
            current_level_idx: 0,
            is_paused: false,
            levels,
            scr_width,
            scr_height,
        }
    }

    /// The number of levels.
    pub fn level_count(&self) -> (n: usize)
        ensures
            n == self.levels().len(),
    {
        self.levels.len()
    }

    /// The screen width in pixels.
    pub fn scr_width(&self) -> (w: usize)
        ensures
            w == self.width(),
    {
        self.scr_width
    }

    /// The screen height in pixels.
    pub fn scr_height(&self) -> (h: usize)
        ensures
            h == self.height(),
    {
        self.scr_height
    }

    /// The tile grid of the current level.
    pub fn current_map(&self) -> (map: &TileMap)
        requires
            self.level() < self.levels().len(),
        ensures
            *map == self.levels()[self.level() as int],
    {
        &self.levels[self.current_level_idx]
    }

    /// Starts a frame of the game loop: the game pauses itself when its window has lost the
    /// focus, and while paused it neither takes input nor moves the entities but shows the
    /// pause message.
    pub fn begin_frame(&mut self, window_active: bool) -> (plan: FramePlan)
        ensures
            final(self).paused() == next_paused(old(self).paused(), window_active),
            final(self).debug() == old(self).debug(),
            final(self).level() == old(self).level(),
            final(self).levels() == old(self).levels(),
            final(self).width() == old(self).width(),
            final(self).height() == old(self).height(),
            plan.handle_input == !final(self).paused(),
            plan.update_entities == !final(self).paused(),
            plan.draw_debug == final(self).debug(),
            plan.draw_pause == final(self).paused(),
    {
        // autopause on lost focus
        if !window_active && !self.is_paused {
            self.is_paused = true;
        }
        FramePlan {
            handle_input: !self.is_paused,
            update_entities: !self.is_paused,
            draw_debug: self.show_debug,
            draw_pause: self.is_paused,
        }
    }
}

/// The pause switch after a frame: the game pauses when its window is not active, and
/// nothing in a frame unpauses it.
pub open spec fn next_paused(paused: bool, window_active: bool) -> bool {
    paused || !window_active
}

/// The pause switch after a run of frames, given whether the window was active in each.
pub open spec fn paused_after(paused: bool, window_active: Seq<bool>) -> bool
    decreases window_active.len(),
{
    if window_active.len() == 0 {
        paused
    } else {
        next_paused(paused_after(paused, window_active.drop_last()), window_active.last())
    }
}

/// Once paused, the game stays paused through any number of later frames.
pub proof fn lemma_pause_sticks(window_active: Seq<bool>)
    ensures
        paused_after(true, window_active),
    decreases window_active.len(),
{
    if window_active.len() > 0 {
        lemma_pause_sticks(window_active.drop_last());
    }
}

/// A frame whose window is not active leaves the game paused, whether or not it was before.
pub proof fn lemma_inactive_window_pauses(paused: bool, window_active: Seq<bool>)
    requires
        window_active.len() > 0,
        !window_active.last(),
    ensures
        paused_after(paused, window_active),
{
}

/// A game whose window stays active is never paused by the frames.
pub proof fn lemma_active_window_keeps_playing(window_active: Seq<bool>)
    requires
        forall|i: int| 0 <= i < window_active.len() ==> #[trigger] window_active[i],
    ensures
        !paused_after(false, window_active),
    decreases window_active.len(),
{
    if window_active.len() > 0 {
        lemma_active_window_keeps_playing(window_active.drop_last());
    }
}

} // verus!
