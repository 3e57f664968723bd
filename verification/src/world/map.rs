use vstd::prelude::*;

verus! {

/// The tile grid of one level: `map_width` columns by `map_height` rows, stored row by row
/// in `wall_map`. A tile of `0` is open floor; any other value is a wall.
pub struct TileMap {
    pub map_width: usize,
    pub map_height: usize,
    pub wall_map: Vec<u8>,
}

impl TileMap {
    /// The tile that a lookup at column `x`, row `y` yields: a wall (`1`) outside the
    /// grid's bounds or past the end of the stored tiles, the stored tile otherwise.
    pub open spec fn tile_spec(self, x: int, y: int) -> u8 {
        if x < 0 || y < 0 || x >= self.map_width || y >= self.map_height {
            1
        } else if y * self.map_width + x < self.wall_map@.len() {
            self.wall_map@[y * self.map_width + x]
        } else {
            1
        }
    }

    /// Gets the tile at column `x`, row `y`; coordinates outside the grid read as a wall.
    pub fn get_tile(&self, x: usize, y: usize) -> (tile: u8)
        requires
            x < self.map_width && y < self.map_height ==> y * self.map_width + x <= usize::MAX,
        ensures
            tile == self.tile_spec(x as int, y as int),
    {
        if x >= self.map_width || y >= self.map_height {
            return 1;
        }
        let index = y * self.map_width + x;
        if index < self.wall_map.len() {
            self.wall_map[index]
        } else {
            1
        }
    }
}

/// The grid is stored row by row: on a complete grid (`map_width * map_height` stored
/// tiles), the stored tile `i` is the tile at column `i % map_width`, row `i / map_width`.
pub proof fn lemma_tiles_row_major(map: TileMap, i: int)
    requires
        map.map_width > 0,
        map.wall_map@.len() == map.map_width * map.map_height,
        0 <= i < map.wall_map@.len(),
    ensures
        map.tile_spec(i % (map.map_width as int), i / (map.map_width as int)) == map.wall_map@[i],
{
    let w = map.map_width as int;
    let h = map.map_height as int;
    vstd::arithmetic::div_mod::lemma_fundamental_div_mod(i, w);
    vstd::arithmetic::div_mod::lemma_mod_bound(i, w);
    vstd::arithmetic::div_mod::lemma_div_pos_is_pos(i, w);
    let q = i / w;
    assert(q < h) by (nonlinear_arith)
        requires i == w * q + i % w, 0 <= i % w, i < w * h, w > 0;
    assert(q * w + i % w == i) by (nonlinear_arith)
        requires i == w * q + i % w;
}

impl TileMap {
    /// The tile that an entity's collision check reads for cell (`x`, `y`): the tile stored at
    /// `x * map_width + y`, or a wall (`1`) past the end of the stored tiles.
    pub open spec fn entity_tile_spec(self, x: int, y: int) -> u8 {
        if x * self.map_width + y < self.wall_map@.len() {
            self.wall_map@[x * self.map_width + y]
        } else {
            1
        }
    }

    /// Whether an entity may step into cell (`x`, `y`): the tile at `x * map_width + y` is
    /// open floor (`0`); a cell past the end of the stored tiles counts as a wall.
    pub fn entity_can_enter(&self, x: usize, y: usize) -> (open: bool)
        requires
            x * self.map_width + y <= usize::MAX,
        ensures
            open == (self.entity_tile_spec(x as int, y as int) == 0),
    {
        let index = x * self.map_width + y;
        let tile = if index < self.wall_map.len() {
            self.wall_map[index]
        } else {
            1
        };
        tile == 0
    }
}

} // verus!
