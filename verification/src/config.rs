//! Fixed configuration: monster tiers, the tower level table, upgrade
//! costs, the standard tower templates and the canonical map layout.

use vstd::prelude::*;
use crate::object::Monster;
use crate::object::Tower;
use crate::tile::RectDirection;
use crate::tile::Tile;
use crate::tile::TileMap;
use crate::tile::spec_coordinate_of;
use crate::tile::spec_index_of;

verus! {

/// The monster created for spawn-sequence number `count`: every 10th spawn
/// is tier 3, every 3rd non-10th is tier 2, otherwise tier 1.
pub open spec fn spec_spawn_monster(count: u64) -> Monster {
    if count % 10 == 0 {
        Monster { born: 750, hp: 750, hit: 1, kill: 56 }
    } else if count % 3 == 0 {
        Monster { born: 150, hp: 150, hit: 1, kill: 12 }
    } else {
        Monster { born: 30, hp: 30, hit: 1, kill: 6 }
    }
}

/// Builds the monster for spawn-sequence number `count`.
pub fn spawn_monster(count: u64) -> (r: Monster)
    ensures
        r == spec_spawn_monster(count),
{
    if count % 10 == 0 {
        Monster::new(750, 1, 56)
    } else if count % 3 == 0 {
        Monster::new(150, 1, 12)
    } else {
        Monster::new(30, 1, 6)
    }
}

/// Highest tower level in the level table.
pub const MAX_TOWER_LEVEL: u64 = 3;

/// Range column of the tower level table.
pub open spec fn spec_tower_range(lvl: int) -> u64 {
    if lvl <= 1 { 3 } else if lvl == 2 { 5 } else { 7 }
}

/// Power column of the tower level table.
pub open spec fn spec_tower_power(lvl: int) -> u64 {
    if lvl <= 1 { 1 } else if lvl == 2 { 3 } else { 10 }
}

/// Cooldown column of the tower level table.
pub open spec fn spec_tower_cooldown(lvl: int) -> u64 {
    if lvl <= 1 { 3 } else if lvl == 2 { 2 } else { 1 }
}

/// A fresh, unowned tower of level `lvl` firing in direction `dir`, with
/// every stat taken from the level table.
pub fn build_tower(lvl: u64, dir: RectDirection) -> (r: Tower)
    requires
        1 <= lvl <= MAX_TOWER_LEVEL,
    ensures
        r.lvl == lvl,
        r.range == spec_tower_range(lvl as int),
        r.power == spec_tower_power(lvl as int),
        r.cooldown == spec_tower_cooldown(lvl as int),
        r.count == r.cooldown,
        r.owner == (0u64, 0u64),
        r.direction == dir,
{
    let range: u64 = if lvl == 1 { 3 } else if lvl == 2 { 5 } else { 7 };
    let power: u64 = if lvl == 1 { 1 } else if lvl == 2 { 3 } else { 10 };
    let cooldown: u64 = if lvl == 1 { 3 } else if lvl == 2 { 2 } else { 1 };
    Tower::new(lvl, range, power, cooldown, (0, 0), dir)
}

/// The tower after one upgrade: the level rises by one and range, power and
/// cooldown are recomputed from the level table; the countdown, owner and
/// direction are untouched.
pub open spec fn spec_upgraded_tower(t: Tower) -> Tower {
    Tower {
        lvl: (t.lvl + 1) as u64,
        range: spec_tower_range(t.lvl + 1),
        power: spec_tower_power(t.lvl + 1),
        cooldown: spec_tower_cooldown(t.lvl + 1),
        ..t
    }
}

/// Raises `t` one level, per the level table.
pub fn upgrade_tower(t: &mut Tower)
    requires
        1 <= old(t).lvl < MAX_TOWER_LEVEL,
    ensures
        *final(t) == spec_upgraded_tower(*old(t)),
{
    let lvl = t.lvl + 1;
    t.lvl = lvl;
    t.range = if lvl == 1 { 3 } else if lvl == 2 { 5 } else { 7 };
    t.power = if lvl == 1 { 1 } else if lvl == 2 { 3 } else { 10 };
    t.cooldown = if lvl == 1 { 3 } else if lvl == 2 { 2 } else { 1 };
}

/// Reward cost of upgrading a tower away from level `lvl`.
pub open spec fn spec_upgrade_cost(lvl: int) -> u64 {
    if lvl <= 1 { 1500 } else { 8000 }
}

/// Executable form of `spec_upgrade_cost`.
pub fn upgrade_cost(lvl: u64) -> (r: u64)
    requires
        1 <= lvl < MAX_TOWER_LEVEL,
    ensures
        r == spec_upgrade_cost(lvl as int),
{
    if lvl == 1 { 1500 } else { 8000 }
}

/// Firing direction of the standard tower template selected by a command's
/// feature byte.
pub open spec fn spec_standard_direction(feature: u64) -> RectDirection {
    if feature == 0 {
        RectDirection::Top
    } else if feature == 1 {
        RectDirection::Right
    } else if feature == 2 {
        RectDirection::Left
    } else {
        RectDirection::Bottom
    }
}

/// The feature-selected standard tower template: level 1, unowned.
pub fn standard_tower(feature: u64) -> (r: Tower)
    requires
        feature < 4,
    ensures
        r.lvl == 1,
        r.range == spec_tower_range(1),
        r.power == spec_tower_power(1),
        r.cooldown == spec_tower_cooldown(1),
        r.count == r.cooldown,
        r.owner == (0u64, 0u64),
        r.direction == spec_standard_direction(feature),
{
    let dir = if feature == 0 {
        RectDirection::Top
    } else if feature == 1 {
        RectDirection::Right
    } else if feature == 2 {
        RectDirection::Left
    } else {
        RectDirection::Bottom
    };
    build_tower(1, dir)
}

/// Linear tile index of `(x, y)` on the canonical map.
pub fn cor_to_index(x: usize, y: usize) -> (r: usize)
    requires
        x < crate::MAP_WIDTH,
        y < crate::MAP_HEIGHT,
    ensures
        r == x + y * crate::MAP_WIDTH,
{
    x + y * crate::MAP_WIDTH
}

/// The path feature encoded by a layout code: 0 is no feature, 1 to 4 are
/// the four directions.
pub open spec fn spec_feature_of_code(c: u8) -> Option<RectDirection> {
    if c == 1 {
        Some(RectDirection::Top)
    } else if c == 2 {
        Some(RectDirection::Bottom)
    } else if c == 3 {
        Some(RectDirection::Left)
    } else if c == 4 {
        Some(RectDirection::Right)
    } else {
        None
    }
}

/// A layout is good when the grid is non-degenerate and small enough, the
/// code table covers it exactly, every code is in range, and every encoded
/// feature displaces back into the grid.
pub open spec fn spec_good_layout(width: int, height: int, codes: Seq<u8>) -> bool {
    &&& 1 <= width <= 0xffff
    &&& 1 <= height <= 0xffff
    &&& codes.len() == width * height
    &&& forall|i: int| 0 <= i < codes.len() ==> codes[i] <= 4
    &&& forall|i: int| 0 <= i < codes.len() ==> {
        let c = spec_coordinate_of(i, width);
        match spec_feature_of_code(#[trigger] codes[i]) {
            Some(RectDirection::Top) => c.y >= 1,
            Some(RectDirection::Bottom) => c.y + 1 < height,
            Some(RectDirection::Left) => c.x >= 1,
            Some(RectDirection::Right) => c.x + 1 < width,
            None => true,
        }
    }
}

/// Builds a map from a feature-code table, with all tiles unoccupied.
/// Fails exactly on a bad layout: a wrong table length, a code outside the
/// table, or a feature that would displace off the grid.
pub fn build_map(width: usize, height: usize, codes: &Vec<u8>) -> (r: Option<TileMap>)
    ensures
        r is Some <==> spec_good_layout(width as int, height as int, codes@),
        r matches Some(m) ==> {
            &&& m.wf()
            &&& m.width == width
            &&& m.height == height
            &&& m.tiles@.len() == codes@.len()
            &&& forall|i: int| 0 <= i < codes@.len() ==> m.tiles@[i] == (Tile {
                feature: spec_feature_of_code(codes@[i]),
                occupied: 0u32,
            })
        },
{
    if width < 1 || width > 0xffff || height < 1 || height > 0xffff {
        return None;
    }
    proof {
        assert(width * height <= 0xffff * 0xffff) by (nonlinear_arith)
            requires
                1 <= width <= 0xffff,
                1 <= height <= 0xffff,
        ;
    }
    if codes.len() != width * height {
        return None;
    }
    let n = codes.len();
    let mut tiles: Vec<Tile> = Vec::new();
    let mut i: usize = 0;
    while i < n
        invariant
            n == codes@.len() == width * height,
            1 <= width <= 0xffff,
            1 <= height <= 0xffff,
            i <= n,
            tiles@.len() == i,
            forall|k: int| 0 <= k < i ==> codes@[k] <= 4,
            forall|k: int| 0 <= k < i ==> tiles@[k] == (Tile {
                feature: spec_feature_of_code(codes@[k]),
                occupied: 0u32,
            }),
            forall|k: int| 0 <= k < i ==> {
                let c = spec_coordinate_of(k, width as int);
                match spec_feature_of_code(#[trigger] codes@[k]) {
                    Some(RectDirection::Top) => c.y >= 1,
                    Some(RectDirection::Bottom) => c.y + 1 < height,
                    Some(RectDirection::Left) => c.x >= 1,
                    Some(RectDirection::Right) => c.x + 1 < width,
                    None => true,
                }
            },
        decreases n - i,
    {
        let code = codes[i];
        proof {
            crate::tile::lemma_index_coordinate_inverse(i as int, width as int, height as int);
        }
        let x = i % width;
        let y = i / width;
        let feature = if code == 0 {
            None
        } else if code == 1 {
            if y < 1 {
                return None;
            }
            Some(RectDirection::Top)
        } else if code == 2 {
            if y + 1 >= height {
                return None;
            }
            Some(RectDirection::Bottom)
        } else if code == 3 {
            if x < 1 {
                return None;
            }
            Some(RectDirection::Left)
        } else if code == 4 {
            if x + 1 >= width {
                return None;
            }
            Some(RectDirection::Right)
        } else {
            return None;
        };
        tiles.push(Tile { feature, occupied: 0 });
        i = i + 1;
    }
    let m = TileMap { width, height, tiles };
    proof {
        assert forall|k: int| 0 <= k < m.tiles@.len() implies m.feature_stays_in_grid(k) by {
            assert(m.tiles@[k].feature == spec_feature_of_code(codes@[k]));
        }
    }
    Some(m)
}

/// The canonical 20 by 20 feature-code table: the path network every
/// monster and dropped item walks.
pub fn layout_codes() -> (r: Vec<u8>)
    ensures
        r@.len() == 400,
{
    let rows: [[u8; 20]; 20] = [
        [4, 2, 0, 0, 0, 0, 0, 0, 0, 0, 0, 0, 0, 0, 0, 0, 0, 0, 0, 0],
        [0, 2, 0, 0, 0, 4, 4, 4, 4, 4, 2, 0, 4, 4, 4, 4, 4, 4, 2, 0],
        [0, 2, 0, 0, 0, 1, 0, 0, 0, 0, 2, 0, 1, 0, 0, 0, 0, 0, 2, 0],
        [0, 4, 4, 4, 4, 1, 0, 0, 0, 0, 2, 0, 1, 0, 0, 0, 0, 0, 2, 0],
        [0, 0, 0, 0, 0, 0, 0, 0, 0, 0, 2, 0, 1, 0, 2, 3, 3, 0, 2, 0],
        [0, 2, 3, 3, 3, 3, 3, 3, 3, 3, 3, 0, 1, 0, 2, 0, 1, 0, 2, 0],
        [0, 2, 0, 0, 0, 0, 0, 0, 0, 0, 0, 0, 1, 0, 2, 0, 1, 0, 2, 0],
        [0, 2, 0, 0, 0, 0, 0, 0, 0, 0, 0, 0, 1, 0, 2, 0, 1, 0, 2, 0],
        [0, 4, 4, 4, 4, 4, 4, 4, 4, 4, 4, 4, 1, 0, 2, 0, 1, 0, 2, 0],
        [0, 0, 0, 0, 0, 0, 0, 0, 0, 0, 0, 0, 0, 0, 2, 0, 1, 0, 2, 0],
        [0, 0, 0, 0, 0, 0, 0, 0, 0, 0, 0, 0, 0, 0, 2, 0, 1, 0, 2, 0],
        [0, 2, 3, 3, 3, 3, 3, 0, 2, 3, 3, 3, 3, 0, 2, 0, 1, 0, 2, 0],
        [0, 2, 0, 0, 0, 0, 1, 3, 3, 0, 0, 0, 1, 0, 2, 0, 1, 3, 3, 0],
        [0, 2, 0, 0, 0, 0, 0, 0, 0, 0, 0, 0, 1, 3, 3, 0, 0, 0, 0, 0],
        [0, 2, 0, 4, 4, 4, 4, 4, 4, 4, 2, 0, 0, 0, 0, 0, 4, 4, 2, 0],
        [0, 2, 0, 1, 0, 0, 0, 0, 0, 0, 2, 0, 4, 4, 4, 4, 1, 0, 2, 0],
        [0, 2, 0, 1, 3, 3, 3, 3, 0, 0, 2, 0, 1, 0, 0, 0, 0, 0, 2, 0],
        [0, 2, 0, 0, 0, 0, 0, 1, 0, 0, 2, 0, 1, 0, 2, 3, 3, 3, 3, 0],
        [0, 4, 4, 4, 4, 4, 4, 1, 0, 0, 4, 4, 1, 0, 2, 0, 0, 0, 0, 0],
        [0, 0, 0, 0, 0, 0, 0, 0, 0, 0, 0, 0, 0, 0, 4, 4, 4, 4, 4, 0],
    ];
    let mut codes: Vec<u8> = Vec::new();
    let mut row: usize = 0;
    while row < 20
        invariant
            row <= 20,
            codes@.len() == row * 20,
        decreases 20 - row,
    {
        let mut col: usize = 0;
        while col < 20
            invariant
                row < 20,
                col <= 20,
                codes@.len() == row * 20 + col,
            decreases 20 - col,
        {
            codes.push(rows[row][col]);
            col = col + 1;
        }
        row = row + 1;
    }
    codes
}


/// Builds the initial world on a layout: the canonical map, a spawner on
/// the first tile firing every seventh tick, and a collector on the last
/// tile.  Fails exactly on a bad layout.
pub fn init_state(codes: &Vec<u8>) -> (r: Option<crate::state::State>)
    ensures
        r is Some <==> spec_good_layout(
            crate::MAP_WIDTH as int,
            crate::MAP_HEIGHT as int,
            codes@,
        ),
        r matches Some(s) ==> {
            &&& s.wf()
            &&& s.id_allocator == 2
            &&& s.counter == 0
            &&& s.map.width == crate::MAP_WIDTH
            &&& s.map.height == crate::MAP_HEIGHT
            &&& s.monsters@.len() == 0
            &&& s.drops@.len() == 0
            &&& s.towers@.len() == 0
            &&& s.events@.len() == 0
            &&& s.leaked == 0
            &&& s.collected == 0
            &&& s.spawners@.len() == 1
            &&& s.spawners@[0] == (crate::state::PositionedObject {
                id: 1u64,
                position: crate::tile::RectCoordinate { x: 0, y: 0 },
                object: crate::object::Spawner { rate: 6, count: 0, seq: 0 },
            })
            &&& s.collectors@.len() == 1
            &&& s.collectors@[0] == (crate::state::PositionedObject {
                id: 2u64,
                position: crate::tile::RectCoordinate {
                    x: (crate::MAP_WIDTH - 1) as u64,
                    y: (crate::MAP_HEIGHT - 1) as u64,
                },
                object: crate::object::Collector { buf: 5 },
            })
            &&& forall|i: int|
                0 <= i < codes@.len() ==> (#[trigger] s.map.tiles@[i]).feature
                    == spec_feature_of_code(codes@[i])
        },
{
    let map = match build_map(crate::MAP_WIDTH, crate::MAP_HEIGHT, codes) {
        Some(m) => m,
        None => {
            return None;
        },
    };
    let mut s = crate::state::State {
        id_allocator: 0,
        counter: 0,
        map,
        monsters: Vec::new(),
        drops: Vec::new(),
        collectors: Vec::new(),
        spawners: Vec::new(),
        towers: Vec::new(),
        events: Vec::new(),
        leaked: 0,
        collected: 0,
    };
    proof {
        assert(s.wf()) by {
            assert forall|k: int|
                0 <= k < s.map.tiles@.len() implies (((#[trigger] s.map.tiles@[k]).occupied != 0)
                <==> (crate::state::hits(s.spawner_positions(), k, s.map.width as int)
                || crate::state::hits(s.collector_positions(), k, s.map.width as int)
                || crate::state::hits(s.tower_positions(), k, s.map.width as int))) by {
                assert(s.map.tiles@[k].occupied == 0);
            }
        }
    }
    let spawner_pos = s.map.coordinate_of_tile_index(0);
    s.place_spawner_at(crate::object::Spawner::new(6, 0), spawner_pos);
    let last = crate::MAP_WIDTH * crate::MAP_HEIGHT - 1;
    proof {
        assert(spec_index_of(spawner_pos, s.map.width as int) == 0);
        assert(s.map.tiles@[last as int].occupied == 0);
    }
    let collector_pos = s.map.coordinate_of_tile_index(last);
    proof {
        assert(!s.occupied_at(collector_pos));
    }
    s.place_collector_at(crate::object::Collector::new(5), collector_pos);
    proof {
        assert(spawner_pos == (crate::tile::RectCoordinate { x: 0u64, y: 0u64 }));
        assert(collector_pos == (crate::tile::RectCoordinate {
            x: (crate::MAP_WIDTH - 1) as u64,
            y: (crate::MAP_HEIGHT - 1) as u64,
        }));
    }
    Some(s)
}

} // verus!
