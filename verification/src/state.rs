//! The authoritative world: the occupancy grid and the collections of
//! placed objects, with the occupancy and id-uniqueness invariants.
//!
//! Every placed object gets a fresh id from `id_allocator`; ids are never
//! reused.  Removal is by `swap_remove`, so indices are not stable and are
//! recomputed before every removal.

use vstd::prelude::*;
use crate::object::Collector;
use crate::object::Dropped;
use crate::object::InventoryObject;
use crate::object::Monster;
use crate::object::Object;
use crate::object::Spawner;
use crate::seqs::distinct_seq;
use crate::seqs::disjoint_seq;
use crate::seqs::ids_bounded;
use crate::seqs::swap_removed;
use crate::seqs::lemma_bounded_excludes;
use crate::seqs::lemma_distinct_push;
use crate::seqs::lemma_swap_removed_elems;
use crate::tile::RectCoordinate;
use crate::tile::Tile;
use crate::tile::TileMap;
use crate::tile::spec_index_of;

verus! {

/// A placed object: a unique id, a position, and the entity itself.
#[derive(Clone, Copy, Debug, PartialEq, Eq)]
pub struct PositionedObject<O> {
    pub id: u64,
    pub position: RectCoordinate,
    pub object: O,
}

impl<O> PositionedObject<O> {
    pub fn new(obj: O, pos: RectCoordinate, id: u64) -> (r: PositionedObject<O>)
        ensures
            r.id == id,
            r.position == pos,
            r.object == obj,
    {
        PositionedObject { id, position: pos, object: obj }
    }
}

/// A transient tick event: an attack from a tower position to a target
/// position, with the tower's power.
#[derive(Clone, Copy, Debug, PartialEq, Eq)]
pub enum Event {
    Attack((u64, u64), (u64, u64), u64),
}

/// Does some position in `ps` land on tile `k` of a grid `w` cells wide?
pub open spec fn hits(ps: Seq<RectCoordinate>, k: int, w: int) -> bool {
    exists|i: int| 0 <= i < ps.len() && spec_index_of(#[trigger] ps[i], w) == k
}

/// Distinct in-grid positions land on distinct tiles.
pub proof fn lemma_index_injective(c1: RectCoordinate, c2: RectCoordinate, w: int)
    requires
        1 <= w,
        c1.x < w,
        c2.x < w,
        spec_index_of(c1, w) == spec_index_of(c2, w),
    ensures
        c1 == c2,
{
    assert(c1.y == c2.y && c1.x == c2.x) by (nonlinear_arith)
        requires
            1 <= w,
            0 <= c1.x < w,
            0 <= c2.x < w,
            0 <= c1.y,
            0 <= c2.y,
            c1.x + c1.y * w == c2.x + c2.y * w,
    ;
}


/// A concatenated position family lands on a tile exactly when one of
/// its parts does.
pub proof fn lemma_hits_concat(a: Seq<RectCoordinate>, b: Seq<RectCoordinate>, k: int, w: int)
    ensures
        hits(a + b, k, w) <==> (hits(a, k, w) || hits(b, k, w)),
{
    if hits(a + b, k, w) {
        let i = choose|i: int| 0 <= i < (a + b).len() && spec_index_of(#[trigger] (a + b)[i], w)
            == k;
        if i < a.len() {
            assert((a + b)[i] == a[i]);
            assert(hits(a, k, w));
        } else {
            assert((a + b)[i] == b[i - a.len()]);
            assert(hits(b, k, w));
        }
    }
    if hits(a, k, w) {
        let i = choose|i: int| 0 <= i < a.len() && spec_index_of(#[trigger] a[i], w) == k;
        assert((a + b)[i] == a[i]);
        assert(hits(a + b, k, w));
    }
    if hits(b, k, w) {
        let i = choose|i: int| 0 <= i < b.len() && spec_index_of(#[trigger] b[i], w) == k;
        assert((a + b)[a.len() + i] == b[i]);
        assert(hits(a + b, k, w));
    }
}

/// The world state.  `events`, `leaked` and `collected` are transient:
/// overwritten by every tick, never persisted.
#[derive(Clone, Debug)]
pub struct State {
    pub id_allocator: u64,
    pub counter: u64,
    pub map: TileMap,
    pub monsters: Vec<PositionedObject<Monster>>,
    pub drops: Vec<PositionedObject<Dropped>>,
    pub collectors: Vec<PositionedObject<Collector>>,
    pub spawners: Vec<PositionedObject<Spawner>>,
    pub towers: Vec<PositionedObject<InventoryObject>>,
    pub events: Vec<Event>,
    pub leaked: u64,
    pub collected: u64,
}

impl State {
    pub open spec fn monster_ids(self) -> Seq<u64> {
        self.monsters@.map_values(|p: PositionedObject<Monster>| p.id)
    }

    pub open spec fn drop_ids(self) -> Seq<u64> {
        self.drops@.map_values(|p: PositionedObject<Dropped>| p.id)
    }

    pub open spec fn spawner_ids(self) -> Seq<u64> {
        self.spawners@.map_values(|p: PositionedObject<Spawner>| p.id)
    }

    pub open spec fn collector_ids(self) -> Seq<u64> {
        self.collectors@.map_values(|p: PositionedObject<Collector>| p.id)
    }

    pub open spec fn tower_ids(self) -> Seq<u64> {
        self.towers@.map_values(|p: PositionedObject<InventoryObject>| p.id)
    }

    pub open spec fn spawner_positions(self) -> Seq<RectCoordinate> {
        self.spawners@.map_values(|p: PositionedObject<Spawner>| p.position)
    }

    pub open spec fn collector_positions(self) -> Seq<RectCoordinate> {
        self.collectors@.map_values(|p: PositionedObject<Collector>| p.position)
    }

    pub open spec fn tower_positions(self) -> Seq<RectCoordinate> {
        self.towers@.map_values(|p: PositionedObject<InventoryObject>| p.position)
    }

    /// Ids are in `[1, id_allocator]`, pairwise distinct within each
    /// collection, and pairwise distinct across collections.
    pub open spec fn ids_ok(self) -> bool {
        &&& ids_bounded(self.monster_ids(), self.id_allocator)
        &&& ids_bounded(self.drop_ids(), self.id_allocator)
        &&& ids_bounded(self.spawner_ids(), self.id_allocator)
        &&& ids_bounded(self.collector_ids(), self.id_allocator)
        &&& ids_bounded(self.tower_ids(), self.id_allocator)
        &&& distinct_seq(self.monster_ids())
        &&& distinct_seq(self.drop_ids())
        &&& distinct_seq(self.spawner_ids())
        &&& distinct_seq(self.collector_ids())
        &&& distinct_seq(self.tower_ids())
        &&& disjoint_seq(self.monster_ids(), self.drop_ids())
        &&& disjoint_seq(self.monster_ids(), self.spawner_ids())
        &&& disjoint_seq(self.monster_ids(), self.collector_ids())
        &&& disjoint_seq(self.monster_ids(), self.tower_ids())
        &&& disjoint_seq(self.drop_ids(), self.spawner_ids())
        &&& disjoint_seq(self.drop_ids(), self.collector_ids())
        &&& disjoint_seq(self.drop_ids(), self.tower_ids())
        &&& disjoint_seq(self.spawner_ids(), self.collector_ids())
        &&& disjoint_seq(self.spawner_ids(), self.tower_ids())
        &&& disjoint_seq(self.collector_ids(), self.tower_ids())
    }

    /// Every placed object sits inside the grid.
    pub open spec fn in_grid_ok(self) -> bool {
        &&& forall|i: int| 0 <= i < self.monsters@.len() ==> self.map.in_grid(
            (#[trigger] self.monsters@[i]).position,
        )
        &&& forall|i: int| 0 <= i < self.drops@.len() ==> self.map.in_grid(
            (#[trigger] self.drops@[i]).position,
        )
        &&& forall|i: int| 0 <= i < self.spawners@.len() ==> self.map.in_grid(
            (#[trigger] self.spawners@[i]).position,
        )
        &&& forall|i: int| 0 <= i < self.collectors@.len() ==> self.map.in_grid(
            (#[trigger] self.collectors@[i]).position,
        )
        &&& forall|i: int| 0 <= i < self.towers@.len() ==> self.map.in_grid(
            (#[trigger] self.towers@[i]).position,
        )
    }

    /// A tile is marked occupied exactly when a stationary object (spawner,
    /// collector or tower) stands on it.
    pub open spec fn occupancy_ok(self) -> bool {
        forall|k: int| 0 <= k < self.map.tiles@.len() ==> (((#[trigger] self.map.tiles@[k]).occupied
            != 0) <==> (hits(self.spawner_positions(), k, self.map.width as int) || hits(
            self.collector_positions(),
            k,
            self.map.width as int,
        ) || hits(self.tower_positions(), k, self.map.width as int)))
    }

    /// No two stationary objects share a position.
    pub open spec fn stationary_distinct(self) -> bool {
        &&& distinct_seq(self.spawner_positions())
        &&& distinct_seq(self.collector_positions())
        &&& distinct_seq(self.tower_positions())
        &&& disjoint_seq(self.spawner_positions(), self.collector_positions())
        &&& disjoint_seq(self.spawner_positions(), self.tower_positions())
        &&& disjoint_seq(self.collector_positions(), self.tower_positions())
    }

    /// Every placed inventory record on the map holds a tower.
    pub open spec fn towers_are_towers(self) -> bool {
        forall|i: int| 0 <= i < self.towers@.len() ==> (#[trigger] self.towers@[i]).object.object
            is Tower
    }

    /// Well-formedness of the whole world.
    pub open spec fn wf(self) -> bool {
        &&& self.map.wf()
        &&& self.in_grid_ok()
        &&& self.ids_ok()
        &&& self.occupancy_ok()
        &&& self.stationary_distinct()
        &&& self.towers_are_towers()
    }

    /// Occupancy of the tile under `c`.
    pub open spec fn occupied_at(self, c: RectCoordinate) -> bool {
        self.map.tiles@[spec_index_of(c, self.map.width as int)].occupied != 0
    }
}

impl State {
    /// Marks the tile occupied, allocates a fresh id and appends the
    /// spawner.  Map initialization only: the tile must be free.
    pub fn place_spawner_at(&mut self, object: Spawner, position: RectCoordinate) -> (id: u64)
        requires
            old(self).wf(),
            old(self).map.in_grid(position),
            !old(self).occupied_at(position),
            old(self).id_allocator < u64::MAX,
        ensures
            final(self).wf(),
            id == old(self).id_allocator + 1,
            final(self).id_allocator == id,
            final(self).spawners@ == old(self).spawners@.push(
                PositionedObject { id, position, object },
            ),
            final(self).map.width == old(self).map.width,
            final(self).map.height == old(self).map.height,
            final(self).map.tiles@ == old(self).map.tiles@.update(
                spec_index_of(position, old(self).map.width as int),
                Tile {
                    feature: old(self).map.tiles@[spec_index_of(
                        position,
                        old(self).map.width as int,
                    )].feature,
                    occupied: 1u32,
                },
            ),
            final(self).monsters == old(self).monsters,
            final(self).drops == old(self).drops,
            final(self).collectors == old(self).collectors,
            final(self).towers == old(self).towers,
            final(self).counter == old(self).counter,
            final(self).events == old(self).events,
            final(self).leaked == old(self).leaked,
            final(self).collected == old(self).collected,
    {
        self.map.set_occupy(&position, 1);
        self.id_allocator = self.id_allocator + 1;
        let id = self.id_allocator;
        self.spawners.push(PositionedObject { id, position, object });
        proof {
            assert(self.spawner_positions() =~= old(self).spawner_positions().push(position));
            lemma_place_stationary(
                *old(self),
                *self,
                position,
                old(self).spawner_positions(),
                old(self).collector_positions(),
                old(self).tower_positions(),
                self.spawner_positions(),
                self.collector_positions(),
                self.tower_positions(),
            );
            assert(self.spawner_ids() =~= old(self).spawner_ids().push(id));
            assert(self.monster_ids() == old(self).monster_ids());
            assert(self.drop_ids() == old(self).drop_ids());
            assert(self.collector_ids() == old(self).collector_ids());
            assert(self.tower_ids() == old(self).tower_ids());
            lemma_fresh_id_ok(
                old(self).monster_ids(),
                old(self).drop_ids(),
                old(self).spawner_ids(),
                old(self).collector_ids(),
                old(self).tower_ids(),
                old(self).id_allocator,
                id,
            );
            assert(self.in_grid_ok()) by {
                assert(forall|i: int| 0 <= i < self.spawners@.len() - 1 ==> (
                #[trigger] self.spawners@[i]) == old(self).spawners@[i]);
            }
        }
        id
    }

    /// Marks the tile occupied, allocates a fresh id and appends the
    /// collector.  Map initialization only: the tile must be free.
    pub fn place_collector_at(&mut self, object: Collector, position: RectCoordinate) -> (id: u64)
        requires
            old(self).wf(),
            old(self).map.in_grid(position),
            !old(self).occupied_at(position),
            old(self).id_allocator < u64::MAX,
        ensures
            final(self).wf(),
            id == old(self).id_allocator + 1,
            final(self).id_allocator == id,
            final(self).collectors@ == old(self).collectors@.push(
                PositionedObject { id, position, object },
            ),
            final(self).map.width == old(self).map.width,
            final(self).map.height == old(self).map.height,
            final(self).map.tiles@ == old(self).map.tiles@.update(
                spec_index_of(position, old(self).map.width as int),
                Tile {
                    feature: old(self).map.tiles@[spec_index_of(
                        position,
                        old(self).map.width as int,
                    )].feature,
                    occupied: 1u32,
                },
            ),
            final(self).monsters == old(self).monsters,
            final(self).drops == old(self).drops,
            final(self).spawners == old(self).spawners,
            final(self).towers == old(self).towers,
            final(self).counter == old(self).counter,
            final(self).events == old(self).events,
            final(self).leaked == old(self).leaked,
            final(self).collected == old(self).collected,
    {
        self.map.set_occupy(&position, 1);
        self.id_allocator = self.id_allocator + 1;
        let id = self.id_allocator;
        self.collectors.push(PositionedObject { id, position, object });
        proof {
            assert(self.collector_positions() =~= old(self).collector_positions().push(position));
            lemma_place_stationary(
                *old(self),
                *self,
                position,
                old(self).collector_positions(),
                old(self).spawner_positions(),
                old(self).tower_positions(),
                self.collector_positions(),
                self.spawner_positions(),
                self.tower_positions(),
            );
            assert(self.collector_ids() =~= old(self).collector_ids().push(id));
            lemma_fresh_id_ok(
                old(self).monster_ids(),
                old(self).drop_ids(),
                old(self).collector_ids(),
                old(self).spawner_ids(),
                old(self).tower_ids(),
                old(self).id_allocator,
                id,
            );
            assert(self.in_grid_ok()) by {
                assert(forall|i: int| 0 <= i < self.collectors@.len() - 1 ==> (
                #[trigger] self.collectors@[i]) == old(self).collectors@[i]);
            }
        }
        id
    }

    /// Places a copy of the inventory record's tower onto the map: fails
    /// with `ERROR_POSITION_OCCUPIED` exactly when the tile is taken,
    /// otherwise marks it occupied and appends the copy under a fresh id.
    pub fn place_tower_at(&mut self, object: &InventoryObject, position: RectCoordinate) -> (r:
        Result<u64, u32>)
        requires
            old(self).wf(),
            old(self).map.in_grid(position),
            old(self).id_allocator < u64::MAX,
            object.object is Tower,
        ensures
            old(self).occupied_at(position) <==> r == Err::<u64, u32>(
                crate::command::ERROR_POSITION_OCCUPIED,
            ),
            r is Err ==> r == Err::<u64, u32>(crate::command::ERROR_POSITION_OCCUPIED),
            r is Err ==> *final(self) == *old(self),
            r matches Ok(id) ==> {
                &&& final(self).wf()
                &&& id == old(self).id_allocator + 1
                &&& final(self).id_allocator == id
                &&& final(self).towers@ == old(self).towers@.push(
                    PositionedObject { id, position, object: *object },
                )
                &&& final(self).map.width == old(self).map.width
                &&& final(self).map.height == old(self).map.height
                &&& final(self).map.tiles@ == old(self).map.tiles@.update(
                    spec_index_of(position, old(self).map.width as int),
                    Tile {
                        feature: old(self).map.tiles@[spec_index_of(
                            position,
                            old(self).map.width as int,
                        )].feature,
                        occupied: 1u32,
                    },
                )
                &&& final(self).monsters == old(self).monsters
                &&& final(self).drops == old(self).drops
                &&& final(self).collectors == old(self).collectors
                &&& final(self).spawners == old(self).spawners
                &&& final(self).counter == old(self).counter
                &&& final(self).events == old(self).events
                &&& final(self).leaked == old(self).leaked
                &&& final(self).collected == old(self).collected
            },
    {
        if self.map.get_occupy(&position) != 0 {
            return Err(crate::command::ERROR_POSITION_OCCUPIED);
        }
        self.map.set_occupy(&position, 1);
        self.id_allocator = self.id_allocator + 1;
        let id = self.id_allocator;
        self.towers.push(PositionedObject { id, position, object: *object });
        proof {
            assert(self.tower_positions() =~= old(self).tower_positions().push(position));
            lemma_place_stationary(
                *old(self),
                *self,
                position,
                old(self).tower_positions(),
                old(self).spawner_positions(),
                old(self).collector_positions(),
                self.tower_positions(),
                self.spawner_positions(),
                self.collector_positions(),
            );
            assert(self.tower_ids() =~= old(self).tower_ids().push(id));
            lemma_fresh_id_ok(
                old(self).monster_ids(),
                old(self).drop_ids(),
                old(self).tower_ids(),
                old(self).spawner_ids(),
                old(self).collector_ids(),
                old(self).id_allocator,
                id,
            );
            assert(self.in_grid_ok()) by {
                assert(forall|i: int| 0 <= i < self.towers@.len() - 1 ==> (
                #[trigger] self.towers@[i]) == old(self).towers@[i]);
            }
            assert(self.towers_are_towers()) by {
                assert(forall|i: int| 0 <= i < self.towers@.len() - 1 ==> (
                #[trigger] self.towers@[i]) == old(self).towers@[i]);
            }
        }
        Ok(id)
    }
}

/// Common well-formedness argument for placing one stationary object at a
/// free tile.  `a` is the extended position family (`a2 == a.push(c)`),
/// `b` and `d` the two untouched ones; `pre`/`post` differ exactly by the
/// push and by marking the tile of `c` occupied.
proof fn lemma_place_stationary(
    pre: State,
    post: State,
    c: RectCoordinate,
    a: Seq<RectCoordinate>,
    b: Seq<RectCoordinate>,
    d: Seq<RectCoordinate>,
    a2: Seq<RectCoordinate>,
    b2: Seq<RectCoordinate>,
    d2: Seq<RectCoordinate>,
)
    requires
        pre.map.wf(),
        pre.map.in_grid(c),
        !pre.occupied_at(c),
        a2 == a.push(c),
        b2 == b,
        d2 == d,
        distinct_seq(a),
        distinct_seq(b),
        distinct_seq(d),
        disjoint_seq(a, b) || disjoint_seq(b, a),
        disjoint_seq(a, d) || disjoint_seq(d, a),
        forall|k: int| 0 <= k < pre.map.tiles@.len() ==> (((#[trigger] pre.map.tiles@[k]).occupied
            != 0) <==> (hits(a, k, pre.map.width as int) || hits(b, k, pre.map.width as int)
            || hits(d, k, pre.map.width as int))),
        post.map.width == pre.map.width,
        post.map.tiles@ == pre.map.tiles@.update(
            spec_index_of(c, pre.map.width as int),
            Tile {
                feature: pre.map.tiles@[spec_index_of(c, pre.map.width as int)].feature,
                occupied: 1u32,
            },
        ),
    ensures
        distinct_seq(a2),
        forall|k: int| 0 <= k < post.map.tiles@.len() ==> (((#[trigger] post.map.tiles@[k]).occupied
            != 0) <==> (hits(a2, k, post.map.width as int) || hits(b2, k, post.map.width as int)
            || hits(d2, k, post.map.width as int))),
        disjoint_seq(a2, b),
        disjoint_seq(b, a2),
        disjoint_seq(a2, d),
        disjoint_seq(d, a2),
{
    let w = pre.map.width as int;
    let t0 = spec_index_of(c, w);
    assert(0 <= t0 < pre.map.tiles@.len()) by {
        crate::tile::lemma_coordinate_index_in_range(c, w, pre.map.height as int);
    }
    // The new position is on no list yet: its tile is free.
    assert(!a.contains(c)) by {
        if a.contains(c) {
            let i = choose|i: int| 0 <= i < a.len() && a[i] == c;
            assert(hits(a, t0, w));
        }
    }
    assert(!b.contains(c)) by {
        if b.contains(c) {
            let i = choose|i: int| 0 <= i < b.len() && b[i] == c;
            assert(hits(b, t0, w));
        }
    }
    assert(!d.contains(c)) by {
        if d.contains(c) {
            let i = choose|i: int| 0 <= i < d.len() && d[i] == c;
            assert(hits(d, t0, w));
        }
    }
    lemma_distinct_push(a, c);
    assert forall|i: int, j: int| 0 <= i < a2.len() && 0 <= j < b.len() implies a2[i] != b[j] by {
        if i < a.len() {
            assert(a2[i] == a[i]);
        } else {
            assert(a2[i] == c);
            assert(b.contains(b[j]));
        }
    }
    assert forall|i: int, j: int| 0 <= i < a2.len() && 0 <= j < d.len() implies a2[i] != d[j] by {
        if i < a.len() {
            assert(a2[i] == a[i]);
        } else {
            assert(a2[i] == c);
            assert(d.contains(d[j]));
        }
    }
    assert forall|k: int| 0 <= k < post.map.tiles@.len() implies (((
    #[trigger] post.map.tiles@[k]).occupied != 0) <==> (hits(a2, k, w) || hits(b2, k, w) || hits(
        d2,
        k,
        w,
    ))) by {
        if k == t0 {
            assert(a2[a.len() as int] == c);
            assert(hits(a2, t0, w));
            assert(post.map.tiles@[k].occupied == 1);
        } else {
            assert(post.map.tiles@[k] == pre.map.tiles@[k]);
            if hits(a2, k, w) {
                let i = choose|i: int|
                    0 <= i < a2.len() && spec_index_of(#[trigger] a2[i], w) == k;
                assert(i < a.len());
                assert(a[i] == a2[i]);
                assert(hits(a, k, w));
            }
            if hits(a, k, w) {
                let i = choose|i: int| 0 <= i < a.len() && spec_index_of(#[trigger] a[i], w) == k;
                assert(a2[i] == a[i]);
                assert(hits(a2, k, w));
            }
        }
    }
}


impl State {
    /// Clears the removed tower's tile and swap-removes its entry,
    /// returning it; the caller writes its final object state back to the
    /// owning inventory record.
    pub fn remove_tower_at(&mut self, index: usize) -> (r: PositionedObject<InventoryObject>)
        requires
            old(self).wf(),
            index < old(self).towers@.len(),
        ensures
            final(self).wf(),
            r == old(self).towers@[index as int],
            final(self).towers@ == swap_removed(old(self).towers@, index as int),
            final(self).map.width == old(self).map.width,
            final(self).map.height == old(self).map.height,
            final(self).map.tiles@ == old(self).map.tiles@.update(
                spec_index_of(r.position, old(self).map.width as int),
                Tile {
                    feature: old(self).map.tiles@[spec_index_of(
                        r.position,
                        old(self).map.width as int,
                    )].feature,
                    occupied: 0u32,
                },
            ),
            final(self).id_allocator == old(self).id_allocator,
            final(self).monsters == old(self).monsters,
            final(self).drops == old(self).drops,
            final(self).collectors == old(self).collectors,
            final(self).spawners == old(self).spawners,
            final(self).counter == old(self).counter,
            final(self).events == old(self).events,
            final(self).leaked == old(self).leaked,
            final(self).collected == old(self).collected,
    {
        let position = self.towers[index].position;
        self.map.set_occupy(&position, 0);
        let r = self.towers.swap_remove(index);
        proof {
            assert(self.tower_positions() =~= swap_removed(
                old(self).tower_positions(),
                index as int,
            ));
            assert(self.tower_ids() =~= swap_removed(old(self).tower_ids(), index as int));
            lemma_remove_stationary(
                *old(self),
                *self,
                index as int,
                old(self).tower_positions(),
                old(self).spawner_positions(),
                old(self).collector_positions(),
                self.tower_positions(),
            );
            lemma_remove_id_ok(
                old(self).monster_ids(),
                old(self).drop_ids(),
                old(self).tower_ids(),
                old(self).spawner_ids(),
                old(self).collector_ids(),
                old(self).id_allocator,
                index as int,
            );
            lemma_swap_removed_elems(old(self).towers@, index as int);
            assert(self.in_grid_ok() && self.towers_are_towers()) by {
                assert(forall|j: int|
                    0 <= j < self.towers@.len() ==> old(self).towers@.contains(
                        #[trigger] self.towers@[j],
                    ));
                assert forall|j: int| 0 <= j < self.towers@.len() implies self.map.in_grid(
                    (#[trigger] self.towers@[j]).position,
                ) && self.towers@[j].object.object is Tower by {
                    let p = choose|p: int|
                        0 <= p < old(self).towers@.len() && old(self).towers@[p]
                            == self.towers@[j];
                    assert(old(self).map.in_grid(old(self).towers@[p].position));
                }
            }
        }
        r
    }

    /// Allocates a fresh id and appends the monster; monsters do not
    /// occupy their tile.
    pub fn spawn_monster_at(&mut self, object: Monster, position: RectCoordinate) -> (id: u64)
        requires
            old(self).wf(),
            old(self).map.in_grid(position),
            old(self).id_allocator < u64::MAX,
        ensures
            final(self).wf(),
            id == old(self).id_allocator + 1,
            final(self).id_allocator == id,
            final(self).monsters@ == old(self).monsters@.push(
                PositionedObject { id, position, object },
            ),
            final(self).map == old(self).map,
            final(self).drops == old(self).drops,
            final(self).collectors == old(self).collectors,
            final(self).spawners == old(self).spawners,
            final(self).towers == old(self).towers,
            final(self).counter == old(self).counter,
            final(self).events == old(self).events,
            final(self).leaked == old(self).leaked,
            final(self).collected == old(self).collected,
    {
        self.id_allocator = self.id_allocator + 1;
        let id = self.id_allocator;
        self.monsters.push(PositionedObject { id, position, object });
        proof {
            assert(self.monster_ids() =~= old(self).monster_ids().push(id));
            lemma_fresh_id_ok(
                old(self).drop_ids(),
                old(self).spawner_ids(),
                old(self).monster_ids(),
                old(self).collector_ids(),
                old(self).tower_ids(),
                old(self).id_allocator,
                id,
            );
            assert(self.in_grid_ok()) by {
                assert(forall|i: int| 0 <= i < self.monsters@.len() - 1 ==> (
                #[trigger] self.monsters@[i]) == old(self).monsters@[i]);
            }
        }
        id
    }

    /// Swap-removes monster `index`, returning it.
    pub fn remove_monster(&mut self, index: usize) -> (r: PositionedObject<Monster>)
        requires
            old(self).wf(),
            index < old(self).monsters@.len(),
        ensures
            final(self).wf(),
            r == old(self).monsters@[index as int],
            final(self).monsters@ == swap_removed(old(self).monsters@, index as int),
            final(self).map == old(self).map,
            final(self).id_allocator == old(self).id_allocator,
            final(self).drops == old(self).drops,
            final(self).collectors == old(self).collectors,
            final(self).spawners == old(self).spawners,
            final(self).towers == old(self).towers,
            final(self).counter == old(self).counter,
            final(self).events == old(self).events,
            final(self).leaked == old(self).leaked,
            final(self).collected == old(self).collected,
    {
        let r = self.monsters.swap_remove(index);
        proof {
            assert(self.monster_ids() =~= swap_removed(old(self).monster_ids(), index as int));
            lemma_remove_id_ok(
                old(self).drop_ids(),
                old(self).spawner_ids(),
                old(self).monster_ids(),
                old(self).collector_ids(),
                old(self).tower_ids(),
                old(self).id_allocator,
                index as int,
            );
            lemma_swap_removed_elems(old(self).monsters@, index as int);
            assert(self.in_grid_ok()) by {
                assert(forall|j: int|
                    0 <= j < self.monsters@.len() ==> old(self).monsters@.contains(
                        #[trigger] self.monsters@[j],
                    ));
                assert forall|j: int| 0 <= j < self.monsters@.len() implies self.map.in_grid(
                    (#[trigger] self.monsters@[j]).position,
                ) by {
                    let p = choose|p: int|
                        0 <= p < old(self).monsters@.len() && old(self).monsters@[p]
                            == self.monsters@[j];
                    assert(old(self).map.in_grid(old(self).monsters@[p].position));
                }
            }
        }
        r
    }

    /// Allocates a fresh id and appends the dropped loot.
    pub fn spawn_dropped_at(&mut self, object: Dropped, position: RectCoordinate) -> (id: u64)
        requires
            old(self).wf(),
            old(self).map.in_grid(position),
            old(self).id_allocator < u64::MAX,
        ensures
            final(self).wf(),
            id == old(self).id_allocator + 1,
            final(self).id_allocator == id,
            final(self).drops@ == old(self).drops@.push(PositionedObject { id, position, object }),
            final(self).map == old(self).map,
            final(self).monsters == old(self).monsters,
            final(self).collectors == old(self).collectors,
            final(self).spawners == old(self).spawners,
            final(self).towers == old(self).towers,
            final(self).counter == old(self).counter,
            final(self).events == old(self).events,
            final(self).leaked == old(self).leaked,
            final(self).collected == old(self).collected,
    {
        self.id_allocator = self.id_allocator + 1;
        let id = self.id_allocator;
        self.drops.push(PositionedObject { id, position, object });
        proof {
            assert(self.drop_ids() =~= old(self).drop_ids().push(id));
            lemma_fresh_id_ok(
                old(self).monster_ids(),
                old(self).spawner_ids(),
                old(self).drop_ids(),
                old(self).collector_ids(),
                old(self).tower_ids(),
                old(self).id_allocator,
                id,
            );
            assert(self.in_grid_ok()) by {
                assert(forall|i: int| 0 <= i < self.drops@.len() - 1 ==> (
                #[trigger] self.drops@[i]) == old(self).drops@[i]);
            }
        }
        id
    }

    /// Swap-removes dropped loot `index`, returning it.
    pub fn remove_dropped(&mut self, index: usize) -> (r: PositionedObject<Dropped>)
        requires
            old(self).wf(),
            index < old(self).drops@.len(),
        ensures
            final(self).wf(),
            r == old(self).drops@[index as int],
            final(self).drops@ == swap_removed(old(self).drops@, index as int),
            final(self).map == old(self).map,
            final(self).id_allocator == old(self).id_allocator,
            final(self).monsters == old(self).monsters,
            final(self).collectors == old(self).collectors,
            final(self).spawners == old(self).spawners,
            final(self).towers == old(self).towers,
            final(self).counter == old(self).counter,
            final(self).events == old(self).events,
            final(self).leaked == old(self).leaked,
            final(self).collected == old(self).collected,
    {
        let r = self.drops.swap_remove(index);
        proof {
            assert(self.drop_ids() =~= swap_removed(old(self).drop_ids(), index as int));
            lemma_remove_id_ok(
                old(self).monster_ids(),
                old(self).spawner_ids(),
                old(self).drop_ids(),
                old(self).collector_ids(),
                old(self).tower_ids(),
                old(self).id_allocator,
                index as int,
            );
            lemma_swap_removed_elems(old(self).drops@, index as int);
            assert(self.in_grid_ok()) by {
                assert(forall|j: int|
                    0 <= j < self.drops@.len() ==> old(self).drops@.contains(
                        #[trigger] self.drops@[j],
                    ));
                assert forall|j: int| 0 <= j < self.drops@.len() implies self.map.in_grid(
                    (#[trigger] self.drops@[j]).position,
                ) by {
                    let p = choose|p: int|
                        0 <= p < old(self).drops@.len() && old(self).drops@[p]
                            == self.drops@[j];
                    assert(old(self).map.in_grid(old(self).drops@[p].position));
                }
            }
        }
        r
    }

    /// Routes a freshly created monster or dropped item into the matching
    /// collection under a fresh id; any carried id is discarded.
    pub fn spawn(&mut self, obj: PositionedObject<Object>) -> (id: u64)
        requires
            old(self).wf(),
            old(self).map.in_grid(obj.position),
            old(self).id_allocator < u64::MAX,
            obj.object is Monster || obj.object is Dropped,
        ensures
            final(self).wf(),
            id == old(self).id_allocator + 1,
            final(self).id_allocator == id,
            obj.object matches Object::Monster(m) ==> final(self).monsters@ == old(
                self,
            ).monsters@.push(PositionedObject { id, position: obj.position, object: m })
                && final(self).drops == old(self).drops,
            obj.object matches Object::Dropped(d) ==> final(self).drops@ == old(
                self,
            ).drops@.push(PositionedObject { id, position: obj.position, object: d })
                && final(self).monsters == old(self).monsters,
            final(self).map == old(self).map,
            final(self).collectors == old(self).collectors,
            final(self).spawners == old(self).spawners,
            final(self).towers == old(self).towers,
            final(self).counter == old(self).counter,
            final(self).events == old(self).events,
            final(self).leaked == old(self).leaked,
            final(self).collected == old(self).collected,
    {
        match obj.object {
            Object::Monster(m) => self.spawn_monster_at(m, obj.position),
            Object::Dropped(d) => self.spawn_dropped_at(d, obj.position),
            _ => vstd::pervasive::unreached(),
        }
    }

    /// Index of the first placed tower whose inventory record carries the
    /// given low object-id word.
    pub fn get_placed_inventory(&self, id: u64) -> (r: Option<usize>)
        ensures
            match r {
                Some(i) => i < self.towers@.len() && self.towers@[i as int].object.object_id == id
                    && forall|j: int|
                        0 <= j < i ==> (#[trigger] self.towers@[j]).object.object_id != id,
                None => forall|j: int|
                    0 <= j < self.towers@.len() ==> (#[trigger] self.towers@[j]).object.object_id
                        != id,
            },
    {
        let n = self.towers.len();
        let mut i: usize = 0;
        while i < n
            invariant
                n == self.towers@.len(),
                i <= n,
                forall|j: int| 0 <= j < i ==> (#[trigger] self.towers@[j]).object.object_id != id,
            decreases n - i,
        {
            if self.towers[i].object.object_id == id {
                return Some(i);
            }
            i = i + 1;
        }
        None
    }
}

/// Well-formedness argument for removing one stationary object: `a` is the
/// shrunken family (`a2 == swap_removed(a, index)`), `b` and `d` the two
/// untouched ones; the removed object's tile is cleared.
proof fn lemma_remove_stationary(
    pre: State,
    post: State,
    index: int,
    a: Seq<RectCoordinate>,
    b: Seq<RectCoordinate>,
    d: Seq<RectCoordinate>,
    a2: Seq<RectCoordinate>,
)
    requires
        pre.map.wf(),
        0 <= index < a.len(),
        a2 == swap_removed(a, index),
        distinct_seq(a),
        distinct_seq(b),
        distinct_seq(d),
        disjoint_seq(a, b) || disjoint_seq(b, a),
        disjoint_seq(a, d) || disjoint_seq(d, a),
        forall|i: int| 0 <= i < a.len() ==> pre.map.in_grid(#[trigger] a[i]),
        forall|i: int| 0 <= i < b.len() ==> pre.map.in_grid(#[trigger] b[i]),
        forall|i: int| 0 <= i < d.len() ==> pre.map.in_grid(#[trigger] d[i]),
        forall|k: int| 0 <= k < pre.map.tiles@.len() ==> (((#[trigger] pre.map.tiles@[k]).occupied
            != 0) <==> (hits(a, k, pre.map.width as int) || hits(b, k, pre.map.width as int)
            || hits(d, k, pre.map.width as int))),
        post.map.width == pre.map.width,
        post.map.tiles@ == pre.map.tiles@.update(
            spec_index_of(a[index], pre.map.width as int),
            Tile {
                feature: pre.map.tiles@[spec_index_of(a[index], pre.map.width as int)].feature,
                occupied: 0u32,
            },
        ),
    ensures
        distinct_seq(a2),
        disjoint_seq(a2, b),
        disjoint_seq(b, a2),
        disjoint_seq(a2, d),
        disjoint_seq(d, a2),
        forall|k: int| 0 <= k < post.map.tiles@.len() ==> (((#[trigger] post.map.tiles@[k]).occupied
            != 0) <==> (hits(a2, k, post.map.width as int) || hits(b, k, post.map.width as int)
            || hits(d, k, post.map.width as int))),
{
    let w = pre.map.width as int;
    let t0 = spec_index_of(a[index], w);
    assert(0 <= t0 < pre.map.tiles@.len()) by {
        crate::tile::lemma_coordinate_index_in_range(a[index], w, pre.map.height as int);
    }
    lemma_swap_removed_elems(a, index);
    crate::seqs::lemma_disjoint_left_subset(a, b, a2);
    crate::seqs::lemma_disjoint_left_subset(a, d, a2);
    assert forall|k: int| 0 <= k < post.map.tiles@.len() implies (((
    #[trigger] post.map.tiles@[k]).occupied != 0) <==> (hits(a2, k, w) || hits(b, k, w) || hits(
        d,
        k,
        w,
    ))) by {
        if k == t0 {
            assert(post.map.tiles@[k].occupied == 0);
            if hits(b, t0, w) {
                let i = choose|i: int| 0 <= i < b.len() && spec_index_of(#[trigger] b[i], w) == t0;
                lemma_index_injective(b[i], a[index], w);
                assert(false);
            }
            if hits(d, t0, w) {
                let i = choose|i: int| 0 <= i < d.len() && spec_index_of(#[trigger] d[i], w) == t0;
                lemma_index_injective(d[i], a[index], w);
                assert(false);
            }
            if hits(a2, t0, w) {
                let j = choose|j: int|
                    0 <= j < a2.len() && spec_index_of(#[trigger] a2[j], w) == t0;
                if j == index {
                    assert(a2[j] == a[a.len() - 1]);
                    lemma_index_injective(a[a.len() - 1], a[index], w);
                    assert(false);
                } else {
                    assert(a2[j] == a[j]);
                    lemma_index_injective(a[j], a[index], w);
                    assert(false);
                }
            }
        } else {
            assert(post.map.tiles@[k] == pre.map.tiles@[k]);
            if hits(a2, k, w) {
                let j = choose|j: int| 0 <= j < a2.len() && spec_index_of(#[trigger] a2[j], w) == k;
                if j == index {
                    assert(a2[j] == a[a.len() - 1]);
                    assert(hits(a, k, w));
                } else {
                    assert(a2[j] == a[j]);
                    assert(hits(a, k, w));
                }
            }
            if hits(a, k, w) {
                let i = choose|i: int| 0 <= i < a.len() && spec_index_of(#[trigger] a[i], w) == k;
                assert(i != index);
                if i < a.len() - 1 {
                    assert(a2[i] == a[i]);
                    assert(hits(a2, k, w));
                } else {
                    assert(index < a.len() - 1);
                    assert(a2[index] == a[a.len() - 1]);
                    assert(hits(a2, k, w));
                }
            }
        }
    }
}

/// Removing an entry from one of five distinct, mutually disjoint, bounded
/// id families keeps every family distinct, disjoint and bounded.  `a` is
/// the shrunken family.
proof fn lemma_remove_id_ok(
    m: Seq<u64>,
    d: Seq<u64>,
    a: Seq<u64>,
    b: Seq<u64>,
    e: Seq<u64>,
    hi: u64,
    index: int,
)
    requires
        0 <= index < a.len(),
        ids_bounded(a, hi),
        distinct_seq(a),
        disjoint_seq(m, a) || disjoint_seq(a, m),
        disjoint_seq(d, a) || disjoint_seq(a, d),
        disjoint_seq(b, a) || disjoint_seq(a, b),
        disjoint_seq(e, a) || disjoint_seq(a, e),
    ensures
        ids_bounded(swap_removed(a, index), hi),
        distinct_seq(swap_removed(a, index)),
        disjoint_seq(swap_removed(a, index), m),
        disjoint_seq(m, swap_removed(a, index)),
        disjoint_seq(swap_removed(a, index), d),
        disjoint_seq(d, swap_removed(a, index)),
        disjoint_seq(swap_removed(a, index), b),
        disjoint_seq(b, swap_removed(a, index)),
        disjoint_seq(swap_removed(a, index), e),
        disjoint_seq(e, swap_removed(a, index)),
{
    let a2 = swap_removed(a, index);
    lemma_swap_removed_elems(a, index);
    crate::seqs::lemma_ids_bounded_of_contains(a, a2, hi);
    crate::seqs::lemma_disjoint_left_subset(a, m, a2);
    crate::seqs::lemma_disjoint_left_subset(a, d, a2);
    crate::seqs::lemma_disjoint_left_subset(a, b, a2);
    crate::seqs::lemma_disjoint_left_subset(a, e, a2);
}


// ===== the occupancy and id-uniqueness laws =====

/// The occupancy invariant, exactly: in a well-formed world a tile is
/// marked occupied precisely when exactly one stationary object's
/// position equals it; a free tile hosts none.
pub proof fn lemma_occupancy_exact(s: State, c: RectCoordinate)
    requires
        s.wf(),
        s.map.in_grid(c),
    ensures
        (s.map.tiles@[spec_index_of(c, s.map.width as int)].occupied != 0) <==> (
        crate::seqs::count_eq(s.spawner_positions(), c) + crate::seqs::count_eq(
            s.collector_positions(),
            c,
        ) + crate::seqs::count_eq(s.tower_positions(), c) == 1),
        (s.map.tiles@[spec_index_of(c, s.map.width as int)].occupied == 0) ==> (
        crate::seqs::count_eq(s.spawner_positions(), c) + crate::seqs::count_eq(
            s.collector_positions(),
            c,
        ) + crate::seqs::count_eq(s.tower_positions(), c) == 0),
{
    let w = s.map.width as int;
    let k = spec_index_of(c, w);
    crate::tile::lemma_coordinate_index_in_range(c, w, s.map.height as int);
    let sp = s.spawner_positions();
    let cp = s.collector_positions();
    let tp = s.tower_positions();
    lemma_hits_is_contains(s, sp, c);
    lemma_hits_is_contains(s, cp, c);
    lemma_hits_is_contains(s, tp, c);
    crate::seqs::lemma_count_contains(sp, c);
    crate::seqs::lemma_count_contains(cp, c);
    crate::seqs::lemma_count_contains(tp, c);
    crate::seqs::lemma_count_distinct(sp, c);
    crate::seqs::lemma_count_distinct(cp, c);
    crate::seqs::lemma_count_distinct(tp, c);
    if sp.contains(c) && cp.contains(c) {
        let i = choose|i: int| 0 <= i < sp.len() && sp[i] == c;
        let j = choose|j: int| 0 <= j < cp.len() && cp[j] == c;
        assert(sp[i] != cp[j]);
    }
    if sp.contains(c) && tp.contains(c) {
        let i = choose|i: int| 0 <= i < sp.len() && sp[i] == c;
        let j = choose|j: int| 0 <= j < tp.len() && tp[j] == c;
        assert(sp[i] != tp[j]);
    }
    if cp.contains(c) && tp.contains(c) {
        let i = choose|i: int| 0 <= i < cp.len() && cp[i] == c;
        let j = choose|j: int| 0 <= j < tp.len() && tp[j] == c;
        assert(cp[i] != tp[j]);
    }
}

/// For in-grid stationary positions, landing on `c`'s tile is the same
/// as being `c`.
proof fn lemma_hits_is_contains(s: State, ps: Seq<RectCoordinate>, c: RectCoordinate)
    requires
        s.map.wf(),
        s.map.in_grid(c),
        ps == s.spawner_positions() || ps == s.collector_positions() || ps
            == s.tower_positions(),
        s.in_grid_ok(),
    ensures
        hits(ps, spec_index_of(c, s.map.width as int), s.map.width as int) <==> ps.contains(c),
{
    let w = s.map.width as int;
    let k = spec_index_of(c, w);
    if hits(ps, k, w) {
        let i = choose|i: int| 0 <= i < ps.len() && spec_index_of(#[trigger] ps[i], w) == k;
        assert(s.map.in_grid(ps[i])) by {
            if ps == s.spawner_positions() {
                assert(ps[i] == s.spawners@[i].position);
            } else if ps == s.collector_positions() {
                assert(ps[i] == s.collectors@[i].position);
            } else {
                assert(ps[i] == s.towers@[i].position);
            }
        }
        lemma_index_injective(ps[i], c, w);
        assert(ps.contains(c));
    }
    if ps.contains(c) {
        let i = choose|i: int| 0 <= i < ps.len() && ps[i] == c;
        assert(spec_index_of(ps[i], w) == k);
        assert(hits(ps, k, w));
    }
}

/// Every live id, across all five collections in order.
pub open spec fn all_ids(s: State) -> Seq<u64> {
    s.monster_ids() + s.drop_ids() + s.spawner_ids() + s.collector_ids() + s.tower_ids()
}

/// Id uniqueness, globally: in a well-formed world no two live objects
/// share an id, and every id is positive and at most the allocator's
/// watermark (so a fresh allocation can never collide).
pub proof fn lemma_ids_globally_distinct(s: State)
    requires
        s.wf(),
    ensures
        distinct_seq(all_ids(s)),
        ids_bounded(all_ids(s), s.id_allocator),
{
    let m = s.monster_ids();
    let d = s.drop_ids();
    let sp = s.spawner_ids();
    let c = s.collector_ids();
    let t = s.tower_ids();
    crate::seqs::lemma_distinct_concat(m, d);
    crate::seqs::lemma_disjoint_concat_left(m, d, sp);
    crate::seqs::lemma_distinct_concat(m + d, sp);
    crate::seqs::lemma_disjoint_concat_left(m, d, c);
    crate::seqs::lemma_disjoint_concat_left(m + d, sp, c);
    crate::seqs::lemma_distinct_concat((m + d) + sp, c);
    crate::seqs::lemma_disjoint_concat_left(m, d, t);
    crate::seqs::lemma_disjoint_concat_left(m + d, sp, t);
    crate::seqs::lemma_disjoint_concat_left((m + d) + sp, c, t);
    crate::seqs::lemma_distinct_concat(((m + d) + sp) + c, t);
    crate::seqs::lemma_bounded_concat(m, d, s.id_allocator);
    crate::seqs::lemma_bounded_concat(m + d, sp, s.id_allocator);
    crate::seqs::lemma_bounded_concat((m + d) + sp, c, s.id_allocator);
    crate::seqs::lemma_bounded_concat(((m + d) + sp) + c, t, s.id_allocator);
    assert(all_ids(s) =~= (((m + d) + sp) + c) + t);
}

/// Appending a fresh id (`x == hi + 1`) to one of five bounded, mutually
/// disjoint id families keeps all of them distinct and disjoint under the
/// raised bound.  `a` is the extended family (`a2 == a.push(x)`).
proof fn lemma_fresh_id_ok(
    m: Seq<u64>,
    d: Seq<u64>,
    a: Seq<u64>,
    b: Seq<u64>,
    e: Seq<u64>,
    hi: u64,
    x: u64,
)
    requires
        hi < u64::MAX,
        x == hi + 1,
        ids_bounded(m, hi),
        ids_bounded(d, hi),
        ids_bounded(a, hi),
        ids_bounded(b, hi),
        ids_bounded(e, hi),
        distinct_seq(a),
        disjoint_seq(m, a) || disjoint_seq(a, m),
        disjoint_seq(d, a) || disjoint_seq(a, d),
        disjoint_seq(b, a) || disjoint_seq(a, b),
        disjoint_seq(e, a) || disjoint_seq(a, e),
    ensures
        ids_bounded(m, x),
        ids_bounded(d, x),
        ids_bounded(a.push(x), x),
        ids_bounded(b, x),
        ids_bounded(e, x),
        distinct_seq(a.push(x)),
        disjoint_seq(a.push(x), m),
        disjoint_seq(m, a.push(x)),
        disjoint_seq(a.push(x), d),
        disjoint_seq(d, a.push(x)),
        disjoint_seq(a.push(x), b),
        disjoint_seq(b, a.push(x)),
        disjoint_seq(a.push(x), e),
        disjoint_seq(e, a.push(x)),
{
    lemma_bounded_excludes(a, hi, x);
    lemma_distinct_push(a, x);
    let a2 = a.push(x);
    assert(ids_bounded(a2, x)) by {
        assert(forall|i: int| 0 <= i < a.len() ==> a2[i] == a[i]);
        assert(a2[a.len() as int] == x);
    }
    assert forall|i: int, j: int| 0 <= i < a2.len() && 0 <= j < m.len() implies a2[i] != m[j]
        && m[j] != a2[i] by {
        if i < a.len() {
            assert(a2[i] == a[i]);
            assert(1 <= a[i] <= hi || true);
        } else {
            assert(a2[i] == x);
            assert(1 <= m[j] <= hi);
        }
    }
    assert forall|i: int, j: int| 0 <= i < a2.len() && 0 <= j < d.len() implies a2[i] != d[j]
        && d[j] != a2[i] by {
        if i < a.len() {
            assert(a2[i] == a[i]);
        } else {
            assert(a2[i] == x);
            assert(1 <= d[j] <= hi);
        }
    }
    assert forall|i: int, j: int| 0 <= i < a2.len() && 0 <= j < b.len() implies a2[i] != b[j]
        && b[j] != a2[i] by {
        if i < a.len() {
            assert(a2[i] == a[i]);
        } else {
            assert(a2[i] == x);
            assert(1 <= b[j] <= hi);
        }
    }
    assert forall|i: int, j: int| 0 <= i < a2.len() && 0 <= j < e.len() implies a2[i] != e[j]
        && e[j] != a2[i] by {
        if i < a.len() {
            assert(a2[i] == a[i]);
        } else {
            assert(a2[i] == x);
            assert(1 <= e[j] <= hi);
        }
    }
}

} // verus!
