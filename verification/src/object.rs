//! The five placeable entity kinds and the player-owned inventory record.

use vstd::prelude::*;
use crate::tile::RectCoordinate;
use crate::tile::RectDirection;

verus! {

/// The canonical 256-bit object id formed from its low word.
pub open spec fn full_obj_id(id: u64) -> Seq<u64> {
    seq![id, 0xffff, 0xff01, 0xff02]
}

/// Widens a low object-id word to the full 4-word key used by the store.
pub fn to_full_obj_id(id: u64) -> (r: [u64; 4])
    ensures
        r@ == full_obj_id(id),
{
    let r = [id, 0xffff, 0xff01, 0xff02];
    proof {
        assert(r@ =~= full_obj_id(id));
    }
    r
}

/// A monster: `born` is the hit-point value `hp` is reset to when a kill
/// recycles the monster in place; `hit` and `kill` are the rewards credited
/// to the attacking tower.
#[derive(Clone, Copy, Debug, PartialEq, Eq, Structural)]
pub struct Monster {
    pub born: u64,
    pub hp: u64,
    pub hit: u64,
    pub kill: u64,
}

impl Monster {
    pub fn new(hp: u64, hit: u64, kill: u64) -> (r: Monster)
        ensures
            r == (Monster { born: hp, hp, hit, kill }),
    {
        Monster { born: hp, hp, hit, kill }
    }
}

/// A tower.  `count` is the cooldown countdown: the tower fires when it
/// reaches zero and is then reset to `cooldown`.  `direction` fixes the one
/// axis and sense along which the tower ever acquires a target.  A tower
/// with zero `owner` is an unclaimed map fixture.
#[derive(Clone, Copy, Debug, PartialEq, Eq)]
pub struct Tower {
    pub lvl: u64,
    pub range: u64,
    pub power: u64,
    pub cooldown: u64,
    pub count: u64,
    pub owner: (u64, u64),
    pub direction: RectDirection,
}

impl Tower {
    pub fn new(
        lvl: u64,
        range: u64,
        power: u64,
        cooldown: u64,
        owner: (u64, u64),
        direction: RectDirection,
    ) -> (r: Tower)
        ensures
            r.lvl == lvl,
            r.range == range,
            r.power == power,
            r.cooldown == cooldown,
            r.count == cooldown,
            r.owner == owner,
            r.direction == direction,
    {
        Tower { lvl, range, power, cooldown, count: cooldown, owner, direction }
    }

    /// Axis distance from `src` to `target` along this tower's firing
    /// direction; the maximum `usize` when `target` is off-axis or on the
    /// wrong side.
    pub open spec fn spec_range(self, src: RectCoordinate, target: RectCoordinate) -> int {
        match self.direction {
            RectDirection::Left => if target.y == src.y && target.x < src.x {
                src.x - target.x
            } else {
                usize::MAX as int
            },
            RectDirection::Right => if target.y == src.y && target.x > src.x {
                target.x - src.x
            } else {
                usize::MAX as int
            },
            RectDirection::Top => if target.x == src.x && target.y < src.y {
                src.y - target.y
            } else {
                usize::MAX as int
            },
            RectDirection::Bottom => if target.x == src.x && target.y > src.y {
                target.y - src.y
            } else {
                usize::MAX as int
            },
        }
    }

    /// Executable form of `spec_range`.
    pub fn range(&self, src: &RectCoordinate, target: &RectCoordinate) -> (r: usize)
        requires
            src.x < 0x1_0000_0000,
            src.y < 0x1_0000_0000,
            target.x < 0x1_0000_0000,
            target.y < 0x1_0000_0000,
        ensures
            r == self.spec_range(*src, *target),
    {
        match self.direction {
            RectDirection::Left => {
                if target.y == src.y && target.x < src.x {
                    (src.x - target.x) as usize
                } else {
                    usize::MAX
                }
            },
            RectDirection::Right => {
                if target.y == src.y && target.x > src.x {
                    (target.x - src.x) as usize
                } else {
                    usize::MAX
                }
            },
            RectDirection::Top => {
                if target.x == src.x && target.y < src.y {
                    (src.y - target.y) as usize
                } else {
                    usize::MAX
                }
            },
            RectDirection::Bottom => {
                if target.x == src.x && target.y > src.y {
                    (target.y - src.y) as usize
                } else {
                    usize::MAX
                }
            },
        }
    }
}

/// A spawner: `count` counts down each tick; when it reaches zero a monster
/// is created and `rate` is reloaded into `count`.  `seq` is the
/// monotonically increasing sequence number of spawns, which selects the
/// monster tier.
#[derive(Clone, Copy, Debug, PartialEq, Eq, Structural)]
pub struct Spawner {
    pub rate: u64,
    pub count: u64,
    pub seq: u64,
}

impl Spawner {
    pub fn new(rate: u64, count: u64) -> (r: Spawner)
        ensures
            r == (Spawner { rate, count, seq: 0 }),
    {
        Spawner { rate, count, seq: 0 }
    }
}

/// A collector: a sink tile consuming any monster or dropped loot that
/// reaches its position.
#[derive(Clone, Copy, Debug, PartialEq, Eq, Structural)]
pub struct Collector {
    pub buf: u64,
}

impl Collector {
    pub fn new(buf: u64) -> (r: Collector)
        ensures
            r == (Collector { buf }),
    {
        Collector { buf }
    }
}

/// Transient loot created on a kill; walks the path network like a monster
/// until collected, crediting `delta`.
#[derive(Clone, Copy, Debug, PartialEq, Eq, Structural)]
pub struct Dropped {
    pub delta: u64,
}

impl Dropped {
    pub fn new(delta: u64) -> (r: Dropped)
        ensures
            r == (Dropped { delta }),
    {
        Dropped { delta }
    }
}

/// The closed sum of all placeable entities; its wire tag table lives in
/// the codec.
#[derive(Clone, Copy, Debug, PartialEq, Eq)]
pub enum Object {
    Monster(Monster),
    Tower(Tower),
    Spawner(Spawner),
    Dropped(Dropped),
    Collector(Collector),
}

impl Object {
    /// Borrows the tower inside; only defined on the `Tower` variant.
    pub fn get_the_tower(&self) -> (r: &Tower)
        requires
            self is Tower,
        ensures
            *self == Object::Tower(*r),
    {
        match self {
            Object::Tower(t) => t,
            _ => vstd::pervasive::unreached(),
        }
    }

    /// Raises the tower inside one level, per the level table.
    pub fn upgrade(&mut self)
        requires
            *old(self) matches Object::Tower(t) && 1 <= t.lvl < 3,
        ensures
            *final(self) matches Object::Tower(t2) && *old(self) matches Object::Tower(t1)
                && t2 == crate::config::spec_upgraded_tower(t1),
    {
        match self {
            Object::Tower(t) => crate::config::upgrade_tower(t),
            _ => vstd::pervasive::unreached(),
        }
    }
}

/// The player-owned, off-map template record of a tower: the placed map
/// copy is cloned from it and written back on drop; `reward` is the
/// accrued, not yet collected reward.  `object_id` is the low word of the
/// full store key, which is always `full_obj_id(object_id)`.
#[derive(Clone, Copy, Debug, PartialEq, Eq)]
pub struct InventoryObject {
    pub object_id: u64,
    pub object: Object,
    pub reward: u64,
}

impl InventoryObject {
    pub fn new(object_id: u64, object: Object) -> (r: InventoryObject)
        ensures
            r == (InventoryObject { object_id, object, reward: 0 }),
    {
        InventoryObject { object_id, object, reward: 0 }
    }
}

} // verus!
