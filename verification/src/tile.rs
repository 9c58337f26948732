//! The grid: directions, coordinates, tiles and the map.
//!
//! A tile optionally carries a *path feature* (a direction): a mobile object
//! standing on such a tile is displaced one cell in that direction each tick.
//! A tile's `occupied` flag tracks whether a stationary object (tower,
//! spawner, collector) stands on it; it gates tower placement.

use vstd::prelude::*;

verus! {

/// The four cardinal directions a path feature or a tower can point in.
#[derive(Clone, Copy, Debug, PartialEq, Eq, Structural)]
pub enum RectDirection {
    Top,
    Bottom,
    Left,
    Right,
}

/// Wire tag of a direction in the flat-word encoding.
pub open spec fn direction_code(d: RectDirection) -> u64 {
    match d {
        RectDirection::Top => 0,
        RectDirection::Bottom => 1,
        RectDirection::Left => 2,
        RectDirection::Right => 3,
    }
}

/// Executable form of `direction_code`.
pub fn code_of_direction(d: RectDirection) -> (r: u64)
    ensures
        r == direction_code(d),
{
    match d {
        RectDirection::Top => 0,
        RectDirection::Bottom => 1,
        RectDirection::Left => 2,
        RectDirection::Right => 3,
    }
}

/// Decodes a direction tag; fails exactly on tags outside the table.
pub fn direction_of_code(code: u64) -> (r: Option<RectDirection>)
    ensures
        match r {
            Some(d) => direction_code(d) == code,
            None => code >= 4,
        },
        code < 4 ==> r is Some,
{
    if code == 0 {
        Some(RectDirection::Top)
    } else if code == 1 {
        Some(RectDirection::Bottom)
    } else if code == 2 {
        Some(RectDirection::Left)
    } else if code == 3 {
        Some(RectDirection::Right)
    } else {
        None
    }
}

/// A grid position.  Both components stay below 2^32 so a position packs
/// into a single 64-bit word.
#[derive(Clone, Copy, Debug, PartialEq, Eq, Structural)]
pub struct RectCoordinate {
    pub x: u64,
    pub y: u64,
}

impl RectCoordinate {
    pub fn new(x: u64, y: u64) -> (r: RectCoordinate)
        ensures
            r == (RectCoordinate { x, y }),
    {
        RectCoordinate { x, y }
    }

    /// The cell one step in direction `d`.
    pub open spec fn spec_adjacent(self, d: RectDirection) -> RectCoordinate {
        match d {
            RectDirection::Top => RectCoordinate { x: self.x, y: (self.y - 1) as u64 },
            RectDirection::Bottom => RectCoordinate { x: self.x, y: (self.y + 1) as u64 },
            RectDirection::Left => RectCoordinate { x: (self.x - 1) as u64, y: self.y },
            RectDirection::Right => RectCoordinate { x: (self.x + 1) as u64, y: self.y },
        }
    }

    /// Displaces the position one cell in direction `d`.
    pub fn adjacent(&self, d: RectDirection) -> (r: RectCoordinate)
        requires
            d == RectDirection::Top ==> self.y >= 1,
            d == RectDirection::Left ==> self.x >= 1,
            d == RectDirection::Bottom ==> self.y < u64::MAX,
            d == RectDirection::Right ==> self.x < u64::MAX,
        ensures
            r == self.spec_adjacent(d),
    {
        match d {
            RectDirection::Top => RectCoordinate { x: self.x, y: self.y - 1 },
            RectDirection::Bottom => RectCoordinate { x: self.x, y: self.y + 1 },
            RectDirection::Left => RectCoordinate { x: self.x - 1, y: self.y },
            RectDirection::Right => RectCoordinate { x: self.x + 1, y: self.y },
        }
    }
}

/// One grid cell: an optional path feature and the occupancy indicator
/// (nonzero while a stationary object stands here).
#[derive(Clone, Copy, Debug, PartialEq, Eq, Structural)]
pub struct Tile {
    pub feature: Option<RectDirection>,
    pub occupied: u32,
}

impl Tile {
    pub fn new(feature: Option<RectDirection>) -> (r: Tile)
        ensures
            r.feature == feature,
            r.occupied == 0,
    {
        Tile { feature, occupied: 0 }
    }
}

/// Linear tile index of a coordinate on a grid `width` cells wide.
pub open spec fn spec_index_of(c: RectCoordinate, width: int) -> int {
    c.x + c.y * width
}

/// Coordinate of a linear tile index on a grid `width` cells wide.
pub open spec fn spec_coordinate_of(index: int, width: int) -> RectCoordinate {
    RectCoordinate { x: (index % width) as u64, y: (index / width) as u64 }
}

/// The rectangular map: a row-major vector of tiles.
#[derive(Clone, Debug)]
pub struct TileMap {
    pub width: usize,
    pub height: usize,
    pub tiles: Vec<Tile>,
}

impl TileMap {
    /// Is `c` inside the grid?
    pub open spec fn in_grid(self, c: RectCoordinate) -> bool {
        c.x < self.width && c.y < self.height
    }

    /// Does the path feature of tile `i`, if any, lead to a cell inside the
    /// grid?  Following a feature then never leaves the map.
    pub open spec fn feature_stays_in_grid(self, i: int) -> bool {
        match self.tiles@[i].feature {
            Some(d) => {
                let c = spec_coordinate_of(i, self.width as int);
                match d {
                    RectDirection::Top => c.y >= 1,
                    RectDirection::Bottom => c.y + 1 < self.height,
                    RectDirection::Left => c.x >= 1,
                    RectDirection::Right => c.x + 1 < self.width,
                }
            },
            None => true,
        }
    }

    /// Well-formedness: the tile vector covers the grid exactly, the grid is
    /// small enough for index arithmetic and word packing, and every path
    /// feature leads back into the grid.
    pub open spec fn wf(self) -> bool {
        &&& 1 <= self.width <= 0xffff
        &&& 1 <= self.height <= 0xffff
        &&& self.tiles@.len() == self.width * self.height
        &&& forall|i: int| 0 <= i < self.tiles@.len() ==> self.feature_stays_in_grid(i)
    }

    pub fn new(width: usize, height: usize, tiles: Vec<Tile>) -> (r: TileMap)
        ensures
            r == (TileMap { width, height, tiles }),
    {
        TileMap { width, height, tiles }
    }

    /// Converts a linear tile index back to its coordinate.
    pub fn coordinate_of_tile_index(&self, index: usize) -> (r: RectCoordinate)
        requires
            self.wf(),
            index < self.tiles@.len(),
        ensures
            r == spec_coordinate_of(index as int, self.width as int),
            self.in_grid(r),
            spec_index_of(r, self.width as int) == index,
    {
        proof {
            lemma_index_coordinate_inverse(index as int, self.width as int, self.height as int);
        }
        RectCoordinate { x: (index % self.width) as u64, y: (index / self.width) as u64 }
    }

    /// Converts a coordinate to its linear tile index.
    pub fn index_of_tile_coordinate(&self, cor: &RectCoordinate) -> (r: usize)
        requires
            self.wf(),
            self.in_grid(*cor),
        ensures
            r == spec_index_of(*cor, self.width as int),
            r < self.tiles@.len(),
    {
        proof {
            let w = self.width as int;
            let h = self.height as int;
            lemma_coordinate_index_in_range(*cor, w, h);
            assert(w * h <= 0xffff * 0xffff) by (nonlinear_arith)
                requires
                    1 <= w <= 0xffff,
                    1 <= h <= 0xffff,
            ;
        }
        (cor.x as usize) + (cor.y as usize) * self.width
    }

    /// Sets the path feature of tile `index`.  The feature must lead back
    /// into the grid; occupancy is untouched, it tracks stationary objects
    /// only.
    pub fn set_feature(&mut self, index: usize, f: Option<RectDirection>)
        requires
            old(self).wf(),
            index < old(self).tiles@.len(),
            ({
                let c = spec_coordinate_of(index as int, old(self).width as int);
                match f {
                    Some(RectDirection::Top) => c.y >= 1,
                    Some(RectDirection::Bottom) => c.y + 1 < old(self).height,
                    Some(RectDirection::Left) => c.x >= 1,
                    Some(RectDirection::Right) => c.x + 1 < old(self).width,
                    None => true,
                }
            }),
        ensures
            final(self).wf(),
            final(self).width == old(self).width,
            final(self).height == old(self).height,
            final(self).tiles@ == old(self).tiles@.update(
                index as int,
                Tile { feature: f, occupied: old(self).tiles@[index as int].occupied },
            ),
    {
        let occupied = self.tiles[index].occupied;
        self.tiles.set(index, Tile { feature: f, occupied });
        assert forall|i: int| 0 <= i < self.tiles@.len() implies self.feature_stays_in_grid(i) by {
            if i != index {
                assert(old(self).feature_stays_in_grid(i));
            }
        }
    }

    /// Reads the path feature of tile `index`.
    pub fn get_feature(&self, index: usize) -> (r: Option<RectDirection>)
        requires
            index < self.tiles@.len(),
        ensures
            r == self.tiles@[index as int].feature,
    {
        self.tiles[index].feature
    }

    /// Writes the occupancy indicator of the tile at `cor`.
    pub fn set_occupy(&mut self, cor: &RectCoordinate, indicator: u32)
        requires
            old(self).wf(),
            old(self).in_grid(*cor),
        ensures
            final(self).wf(),
            final(self).width == old(self).width,
            final(self).height == old(self).height,
            final(self).tiles@ == old(self).tiles@.update(
                spec_index_of(*cor, old(self).width as int),
                Tile {
                    feature: old(self).tiles@[spec_index_of(*cor, old(self).width as int)].feature,
                    occupied: indicator,
                },
            ),
    {
        let index = self.index_of_tile_coordinate(cor);
        let feature = self.tiles[index].feature;
        self.tiles.set(index, Tile { feature, occupied: indicator });
        assert forall|i: int| 0 <= i < self.tiles@.len() implies self.feature_stays_in_grid(i) by {
            assert(old(self).feature_stays_in_grid(i));
        }
    }

    /// Reads the occupancy indicator of the tile at `cor`.
    pub fn get_occupy(&self, cor: &RectCoordinate) -> (r: u32)
        requires
            self.wf(),
            self.in_grid(*cor),
        ensures
            r == self.tiles@[spec_index_of(*cor, self.width as int)].occupied,
    {
        let index = self.index_of_tile_coordinate(cor);
        self.tiles[index].occupied
    }
}

/// A coordinate inside a `w` by `h` grid has its linear index below `w * h`.
pub proof fn lemma_coordinate_index_in_range(c: RectCoordinate, w: int, h: int)
    requires
        1 <= w,
        1 <= h,
        c.x < w,
        c.y < h,
    ensures
        0 <= spec_index_of(c, w) < w * h,
{
    assert(c.x + c.y * w < w * h) by (nonlinear_arith)
        requires
            1 <= w,
            1 <= h,
            0 <= c.x < w,
            0 <= c.y < h,
    ;
}

/// Index-to-coordinate conversion lands in the grid and inverts
/// coordinate-to-index conversion.
pub proof fn lemma_index_coordinate_inverse(index: int, w: int, h: int)
    requires
        1 <= w <= 0xffff,
        1 <= h <= 0xffff,
        0 <= index < w * h,
    ensures
        spec_coordinate_of(index, w).x < w,
        spec_coordinate_of(index, w).y < h,
        spec_index_of(spec_coordinate_of(index, w), w) == index,
{
    assert(0 <= index % w < w && 0 <= index / w && index == (index / w) * w + index % w)
        by (nonlinear_arith)
        requires
            1 <= w,
            0 <= index,
    ;
    assert(index / w < h) by (nonlinear_arith)
        requires
            1 <= w,
            1 <= h,
            0 <= index < w * h,
            index == (index / w) * w + index % w,
            0 <= index % w,
            0 <= index / w,
    ;
    assert(spec_coordinate_of(index, w).x == index % w);
    assert(spec_coordinate_of(index, w).y == index / w);
}

} // verus!
