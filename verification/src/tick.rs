//! The simulation tick: movement, collection, spawning, targeting and
//! combat, applied in a fixed order once per `run` command.
//!
//! The whole tick is specified by `spec_run`, a function of the old world
//! alone: the tick is deterministic by construction.

use vstd::prelude::*;
use crate::config::spec_spawn_monster;
use crate::object::Dropped;
use crate::object::InventoryObject;
use crate::object::Monster;
use crate::object::Object;
use crate::object::Spawner;
use crate::object::Tower;
use crate::state::Event;
use crate::state::PositionedObject;
use crate::state::State;
use crate::tile::RectCoordinate;
use crate::tile::RectDirection;
use crate::tile::TileMap;
use crate::tile::spec_index_of;

verus! {

// ===== movement and collection =====

/// Where a mobile object standing at `p` is displaced this tick: one cell
/// along its tile's path feature, or held in place on a featureless tile.
pub open spec fn step_position(m: TileMap, p: RectCoordinate) -> RectCoordinate {
    match m.tiles@[spec_index_of(p, m.width as int)].feature {
        Some(d) => p.spec_adjacent(d),
        None => p,
    }
}

/// One monster after the movement phase: held at a collector (marked for
/// termination), else displaced by its tile's path feature.
pub open spec fn moved_monster(
    m: TileMap,
    cols: Seq<RectCoordinate>,
    p: PositionedObject<Monster>,
) -> PositionedObject<Monster> {
    if cols.contains(p.position) {
        p
    } else {
        PositionedObject { position: step_position(m, p.position), ..p }
    }
}

pub open spec fn moved_monsters(
    m: TileMap,
    cols: Seq<RectCoordinate>,
    ms: Seq<PositionedObject<Monster>>,
) -> Seq<PositionedObject<Monster>> {
    ms.map_values(|p: PositionedObject<Monster>| moved_monster(m, cols, p))
}

/// One dropped item after the movement phase, by the same rule.
pub open spec fn moved_drop(
    m: TileMap,
    cols: Seq<RectCoordinate>,
    p: PositionedObject<Dropped>,
) -> PositionedObject<Dropped> {
    if cols.contains(p.position) {
        p
    } else {
        PositionedObject { position: step_position(m, p.position), ..p }
    }
}

pub open spec fn moved_drops(
    m: TileMap,
    cols: Seq<RectCoordinate>,
    ds: Seq<PositionedObject<Dropped>>,
) -> Seq<PositionedObject<Dropped>> {
    ds.map_values(|p: PositionedObject<Dropped>| moved_drop(m, cols, p))
}

/// Ascending indices among the first `n` positions that sit on a
/// collector: the termination list of this tick.
pub open spec fn marked_prefix(cols: Seq<RectCoordinate>, ps: Seq<RectCoordinate>, n: int) -> Seq<
    usize,
>
    decreases n,
{
    if n <= 0 {
        Seq::empty()
    } else {
        let r = marked_prefix(cols, ps, n - 1);
        if cols.contains(ps[n - 1]) {
            r.push((n - 1) as usize)
        } else {
            r
        }
    }
}

/// Total hit points leaked by monsters collected this tick.
pub open spec fn leak_total(
    cols: Seq<RectCoordinate>,
    ms: Seq<PositionedObject<Monster>>,
    n: int,
) -> int
    decreases n,
{
    if n <= 0 {
        0
    } else {
        leak_total(cols, ms, n - 1) + if cols.contains(ms[n - 1].position) {
            ms[n - 1].object.hp as int
        } else {
            0
        }
    }
}

/// Total loot reward collected from dropped items this tick.
pub open spec fn collect_total(
    cols: Seq<RectCoordinate>,
    ds: Seq<PositionedObject<Dropped>>,
    n: int,
) -> int
    decreases n,
{
    if n <= 0 {
        0
    } else {
        collect_total(cols, ds, n - 1) + if cols.contains(ds[n - 1].position) {
            ds[n - 1].object.delta as int
        } else {
            0
        }
    }
}

// ===== spawner countdown =====

/// A spawner after one tick: fires at zero (reloading `rate` and stepping
/// its spawn sequence), else counts down.
pub open spec fn ticked_spawner(sp: Spawner) -> Spawner {
    if sp.count == 0 {
        Spawner { rate: sp.rate, count: sp.rate, seq: (sp.seq + 1) as u64 }
    } else {
        Spawner { count: (sp.count - 1) as u64, ..sp }
    }
}

pub open spec fn ticked_spawners(sps: Seq<PositionedObject<Spawner>>) -> Seq<
    PositionedObject<Spawner>,
> {
    sps.map_values(
        |p: PositionedObject<Spawner>| PositionedObject { object: ticked_spawner(p.object), ..p },
    )
}

/// How many of the first `n` spawners fire this tick.
pub open spec fn spawn_count(sps: Seq<PositionedObject<Spawner>>, n: int) -> int
    decreases n,
{
    if n <= 0 {
        0
    } else {
        spawn_count(sps, n - 1) + if sps[n - 1].object.count == 0 {
            1int
        } else {
            0
        }
    }
}

/// The monsters queued by the first `n` spawners, in spawner order: the
/// spawner's position and the tier chosen by its next sequence number.
pub open spec fn spawned_prefix(sps: Seq<PositionedObject<Spawner>>, n: int) -> Seq<
    (RectCoordinate, Monster),
>
    decreases n,
{
    if n <= 0 {
        Seq::empty()
    } else {
        let r = spawned_prefix(sps, n - 1);
        if sps[n - 1].object.count == 0 {
            r.push((sps[n - 1].position, spec_spawn_monster((sps[n - 1].object.seq + 1) as u64)))
        } else {
            r
        }
    }
}

// ===== targeting =====

/// Is monster `i` on the side of `pos` that a tower firing in `dir` can
/// ever hit: strictly along the axis, on the correct sense?
pub open spec fn qualifies(
    ms: Seq<PositionedObject<Monster>>,
    i: int,
    pos: RectCoordinate,
    dir: RectDirection,
) -> bool {
    0 <= i < ms.len() && {
        let q = ms[i].position;
        match dir {
            RectDirection::Top => q.x == pos.x && q.y < pos.y,
            RectDirection::Bottom => q.x == pos.x && q.y > pos.y,
            RectDirection::Left => q.y == pos.y && q.x < pos.x,
            RectDirection::Right => q.y == pos.y && q.x > pos.x,
        }
    }
}

/// Axis distance from the tower at `pos` to a qualifying position `q`.
pub open spec fn axis_dist(q: RectCoordinate, pos: RectCoordinate, dir: RectDirection) -> int {
    match dir {
        RectDirection::Top => pos.y - q.y,
        RectDirection::Bottom => q.y - pos.y,
        RectDirection::Left => pos.x - q.x,
        RectDirection::Right => q.x - pos.x,
    }
}

/// The scan from index `i` with current best candidate `best`: a strictly
/// closer qualifying monster replaces the best, so the first of equally
/// close candidates wins.
pub open spec fn select_from(
    ms: Seq<PositionedObject<Monster>>,
    pos: RectCoordinate,
    dir: RectDirection,
    i: int,
    best: Option<int>,
) -> Option<int>
    decreases ms.len() - i,
{
    if i < 0 || i >= ms.len() {
        best
    } else {
        let better = qualifies(ms, i, pos, dir) && (match best {
            Option::None => true,
            Option::Some(b) => axis_dist(ms[i].position, pos, dir) < axis_dist(
                ms[b].position,
                pos,
                dir,
            ),
        });
        select_from(
            ms,
            pos,
            dir,
            i + 1,
            if better {
                Option::Some(i)
            } else {
                best
            },
        )
    }
}

/// The target a tower at `pos` firing in `dir` acquires from the monster
/// list: the qualifying monster at minimal axis distance, ties broken by
/// scan order (lowest index wins).
pub open spec fn select_target(
    ms: Seq<PositionedObject<Monster>>,
    pos: RectCoordinate,
    dir: RectDirection,
) -> Option<int> {
    select_from(ms, pos, dir, 0, Option::None)
}

/// What `select_target` returns is characterized exactly: a qualifying
/// monster of minimal axis distance, the earliest such in scan order; and
/// nothing only when no monster qualifies.  Together with `select_target`
/// being a function of its arguments, this is the determinism of
/// targeting.
pub proof fn lemma_select_target_characterization(
    ms: Seq<PositionedObject<Monster>>,
    pos: RectCoordinate,
    dir: RectDirection,
)
    ensures
        match select_target(ms, pos, dir) {
            Option::Some(i) => qualifies(ms, i, pos, dir) && (forall|j: int|
                qualifies(ms, j, pos, dir) ==> axis_dist(ms[i].position, pos, dir) <= axis_dist(
                    ms[j].position,
                    pos,
                    dir,
                )) && (forall|j: int|
                qualifies(ms, j, pos, dir) && axis_dist(ms[j].position, pos, dir) == axis_dist(
                    ms[i].position,
                    pos,
                    dir,
                ) ==> i <= j),
            Option::None => forall|j: int| !qualifies(ms, j, pos, dir),
        },
{
    lemma_select_from_characterization(ms, pos, dir, 0, Option::None);
}

/// Invariant-style characterization of the scan tail: whatever holds of
/// the best candidate over the prefix extends to the result.
proof fn lemma_select_from_characterization(
    ms: Seq<PositionedObject<Monster>>,
    pos: RectCoordinate,
    dir: RectDirection,
    i: int,
    best: Option<int>,
)
    requires
        0 <= i,
        match best {
            Option::Some(b) => qualifies(ms, b, pos, dir) && b < i && (forall|j: int|
                j < i && qualifies(ms, j, pos, dir) ==> axis_dist(ms[b].position, pos, dir)
                    <= axis_dist(ms[j].position, pos, dir)) && (forall|j: int|
                j < i && qualifies(ms, j, pos, dir) && axis_dist(ms[j].position, pos, dir)
                    == axis_dist(ms[b].position, pos, dir) ==> b <= j),
            Option::None => forall|j: int| j < i ==> !qualifies(ms, j, pos, dir),
        },
    ensures
        match select_from(ms, pos, dir, i, best) {
            Option::Some(r) => qualifies(ms, r, pos, dir) && (forall|j: int|
                qualifies(ms, j, pos, dir) ==> axis_dist(ms[r].position, pos, dir) <= axis_dist(
                    ms[j].position,
                    pos,
                    dir,
                )) && (forall|j: int|
                qualifies(ms, j, pos, dir) && axis_dist(ms[j].position, pos, dir) == axis_dist(
                    ms[r].position,
                    pos,
                    dir,
                ) ==> r <= j),
            Option::None => forall|j: int| !qualifies(ms, j, pos, dir),
        },
    decreases ms.len() - i,
{
    if i >= ms.len() {
        // The prefix is the whole list; `best` already carries the claim.
        assert forall|j: int| qualifies(ms, j, pos, dir) implies j < i by {}
    } else {
        let better = qualifies(ms, i, pos, dir) && (match best {
            Option::None => true,
            Option::Some(b) => axis_dist(ms[i].position, pos, dir) < axis_dist(
                ms[b].position,
                pos,
                dir,
            ),
        });
        let next = if better {
            Option::Some(i)
        } else {
            best
        };
        lemma_select_from_characterization(ms, pos, dir, i + 1, next);
    }
}


// ===== the spatial index =====

/// Ascending monster indices among the first `n` whose position sits in
/// column `c`: one bucket of the per-column index.
pub open spec fn col_prefix(ms: Seq<PositionedObject<Monster>>, c: u64, n: int) -> Seq<usize>
    decreases n,
{
    if n <= 0 {
        Seq::empty()
    } else {
        let r = col_prefix(ms, c, n - 1);
        if ms[n - 1].position.x == c {
            r.push((n - 1) as usize)
        } else {
            r
        }
    }
}

/// Ascending monster indices among the first `n` whose position sits in
/// row `c`: one bucket of the per-row index.
pub open spec fn row_prefix(ms: Seq<PositionedObject<Monster>>, c: u64, n: int) -> Seq<usize>
    decreases n,
{
    if n <= 0 {
        Seq::empty()
    } else {
        let r = row_prefix(ms, c, n - 1);
        if ms[n - 1].position.y == c {
            r.push((n - 1) as usize)
        } else {
            r
        }
    }
}

/// A column bucket is strictly ascending, bounded by `n`, and holds
/// exactly the indices of its column.
pub proof fn lemma_col_prefix_shape(ms: Seq<PositionedObject<Monster>>, c: u64, n: int)
    requires
        0 <= n <= usize::MAX,
    ensures
        forall|k: int|
            0 <= k < col_prefix(ms, c, n).len() ==> 0 <= #[trigger] col_prefix(ms, c, n)[k] < n,
        forall|k1: int, k2: int|
            0 <= k1 < k2 < col_prefix(ms, c, n).len() ==> col_prefix(ms, c, n)[k1] < col_prefix(
                ms,
                c,
                n,
            )[k2],
        forall|i: int|
            0 <= i < n ==> (ms[i].position.x == c <==> col_prefix(ms, c, n).contains(
                (i as usize),
            )),
    decreases n,
{
    if n > 0 {
        lemma_col_prefix_shape(ms, c, n - 1);
        let prev = col_prefix(ms, c, n - 1);
        let cur = col_prefix(ms, c, n);
        assert forall|i: int|
            0 <= i < n implies (ms[i].position.x == c <==> cur.contains((i as usize))) by {
            if i < n - 1 {
                if prev.contains((i as usize)) {
                    let k = choose|k: int| 0 <= k < prev.len() && prev[k] == (i as usize);
                    if ms[n - 1].position.x == c {
                        assert(cur[k] == prev[k]);
                    }
                    assert(cur.contains((i as usize)));
                }
                if cur.contains((i as usize)) {
                    let k = choose|k: int| 0 <= k < cur.len() && cur[k] == (i as usize);
                    if ms[n - 1].position.x == c && k == cur.len() - 1 {
                        assert(cur[k] == ((n - 1) as usize));
                    } else {
                        assert(prev.contains((i as usize)));
                    }
                }
            } else {
                if ms[n - 1].position.x == c {
                    assert(cur.last() == ((n - 1) as usize));
                    assert(cur.contains(((n - 1) as usize)));
                } else {
                    if cur.contains((i as usize)) {
                        let k = choose|k: int| 0 <= k < cur.len() && cur[k] == (i as usize);
                        assert(prev[k] < n - 1);
                    }
                }
            }
        }
    }
}

/// The row-bucket analog of `lemma_col_prefix_shape`.
pub proof fn lemma_row_prefix_shape(ms: Seq<PositionedObject<Monster>>, c: u64, n: int)
    requires
        0 <= n <= usize::MAX,
    ensures
        forall|k: int|
            0 <= k < row_prefix(ms, c, n).len() ==> 0 <= #[trigger] row_prefix(ms, c, n)[k] < n,
        forall|k1: int, k2: int|
            0 <= k1 < k2 < row_prefix(ms, c, n).len() ==> row_prefix(ms, c, n)[k1] < row_prefix(
                ms,
                c,
                n,
            )[k2],
        forall|i: int|
            0 <= i < n ==> (ms[i].position.y == c <==> row_prefix(ms, c, n).contains(
                (i as usize),
            )),
    decreases n,
{
    if n > 0 {
        lemma_row_prefix_shape(ms, c, n - 1);
        let prev = row_prefix(ms, c, n - 1);
        let cur = row_prefix(ms, c, n);
        assert forall|i: int|
            0 <= i < n implies (ms[i].position.y == c <==> cur.contains((i as usize))) by {
            if i < n - 1 {
                if prev.contains((i as usize)) {
                    let k = choose|k: int| 0 <= k < prev.len() && prev[k] == (i as usize);
                    if ms[n - 1].position.y == c {
                        assert(cur[k] == prev[k]);
                    }
                    assert(cur.contains((i as usize)));
                }
                if cur.contains((i as usize)) {
                    let k = choose|k: int| 0 <= k < cur.len() && cur[k] == (i as usize);
                    if ms[n - 1].position.y == c && k == cur.len() - 1 {
                        assert(cur[k] == ((n - 1) as usize));
                    } else {
                        assert(prev.contains((i as usize)));
                    }
                }
            } else {
                if ms[n - 1].position.y == c {
                    assert(cur.last() == ((n - 1) as usize));
                    assert(cur.contains(((n - 1) as usize)));
                } else {
                    if cur.contains((i as usize)) {
                        let k = choose|k: int| 0 <= k < cur.len() && cur[k] == (i as usize);
                        assert(prev[k] < n - 1);
                    }
                }
            }
        }
    }
}

/// Buckets depend on positions alone: combat leaves them valid.
pub proof fn lemma_buckets_positions_only(
    ms1: Seq<PositionedObject<Monster>>,
    ms2: Seq<PositionedObject<Monster>>,
    c: u64,
    n: int,
)
    requires
        ms1.len() == ms2.len(),
        n <= ms1.len(),
        forall|i: int| 0 <= i < ms1.len() ==> (#[trigger] ms1[i]).position == ms2[i].position,
    ensures
        col_prefix(ms1, c, n) == col_prefix(ms2, c, n),
        row_prefix(ms1, c, n) == row_prefix(ms2, c, n),
    decreases n,
{
    if n > 0 {
        lemma_buckets_positions_only(ms1, ms2, c, n - 1);
        if 0 <= n - 1 < ms1.len() {
            assert(ms1[n - 1].position == ms2[n - 1].position);
        }
    }
}

/// Skipping a run of non-qualifying indices leaves the scan unchanged.
pub proof fn lemma_select_skip(
    ms: Seq<PositionedObject<Monster>>,
    pos: RectCoordinate,
    dir: RectDirection,
    i: int,
    j: int,
    best: Option<int>,
)
    requires
        0 <= i <= j,
        forall|k: int| i <= k < j ==> !qualifies(ms, k, pos, dir),
    ensures
        select_from(ms, pos, dir, i, best) == select_from(ms, pos, dir, j, best),
    decreases j - i,
{
    if i < j && i < ms.len() {
        lemma_select_skip(ms, pos, dir, i + 1, j, best);
    } else if i < j {
        lemma_select_skip(ms, pos, dir, i + 1, j, best);
    }
}

// ===== combat =====

/// The tower held by a placed inventory record.
pub open spec fn the_tower(o: Object) -> Tower {
    match o {
        Object::Tower(t) => t,
        _ => vstd::pervasive::arbitrary(),
    }
}

/// Outcome of one tower's turn: the monster list, the tower's record, and
/// the events it emitted.
pub struct FireOut {
    pub monsters: Seq<PositionedObject<Monster>>,
    pub tower: PositionedObject<InventoryObject>,
    pub events: Seq<Event>,
}

/// One tower's turn.  A tower whose countdown is positive just counts
/// down.  One at zero scans for a target: on a hit the target loses
/// `power` hit points (floored at zero); the tower's record is credited
/// the hit reward, and on a kill additionally the kill reward while the
/// monster is recycled in place (hit points reset to `born`); the
/// countdown reloads.  With no target the countdown stays at zero.
pub open spec fn fire_one(
    ms: Seq<PositionedObject<Monster>>,
    po: PositionedObject<InventoryObject>,
) -> FireOut {
    let t = the_tower(po.object.object);
    if t.count != 0 {
        let t2 = Tower { count: (t.count - 1) as u64, ..t };
        FireOut {
            monsters: ms,
            tower: PositionedObject {
                object: InventoryObject { object: Object::Tower(t2), ..po.object },
                ..po
            },
            events: Seq::empty(),
        }
    } else {
        match select_target(ms, po.position, t.direction) {
            Option::None => FireOut { monsters: ms, tower: po, events: Seq::empty() },
            Option::Some(i) => {
                let m = ms[i].object;
                let hp1 = if m.hp < t.power {
                    0u64
                } else {
                    (m.hp - t.power) as u64
                };
                let killed = hp1 == 0;
                let hp2 = if killed {
                    m.born
                } else {
                    hp1
                };
                let reward_add = if killed {
                    m.hit + m.kill
                } else {
                    m.hit as int
                };
                let t2 = Tower { count: t.cooldown, ..t };
                FireOut {
                    monsters: ms.update(
                        i,
                        PositionedObject { object: Monster { hp: hp2, ..m }, ..ms[i] },
                    ),
                    tower: PositionedObject {
                        object: InventoryObject {
                            object: Object::Tower(t2),
                            reward: (po.object.reward + reward_add) as u64,
                            ..po.object
                        },
                        ..po
                    },
                    events: seq![
                        Event::Attack(
                            (po.position.x, po.position.y),
                            (ms[i].position.x, ms[i].position.y),
                            t.power,
                        )
                    ],
                }
            },
        }
    }
}

/// The firing phase folded over the first `n` towers, in tower order.
pub struct FireState {
    pub monsters: Seq<PositionedObject<Monster>>,
    pub towers: Seq<PositionedObject<InventoryObject>>,
    pub events: Seq<Event>,
}

pub open spec fn fire_fold(
    ms0: Seq<PositionedObject<Monster>>,
    ts0: Seq<PositionedObject<InventoryObject>>,
    n: int,
) -> FireState
    decreases n,
{
    if n <= 0 {
        FireState { monsters: ms0, towers: ts0, events: Seq::empty() }
    } else {
        let prev = fire_fold(ms0, ts0, n - 1);
        let out = fire_one(prev.monsters, prev.towers[n - 1]);
        FireState {
            monsters: out.monsters,
            towers: prev.towers.update(n - 1, out.tower),
            events: prev.events + out.events,
        }
    }
}

// ===== removal =====

/// Applying `swap_remove` for each listed index, last first: exactly how
/// the termination list is drained.
pub open spec fn remove_desc<T>(s: Seq<T>, idxs: Seq<usize>) -> Seq<T>
    decreases idxs.len(),
{
    if idxs.len() == 0 {
        s
    } else {
        remove_desc(crate::seqs::swap_removed(s, idxs.last() as int), idxs.drop_last())
    }
}

// ===== the whole tick =====

/// Everything `run` replaces, as one value.
pub struct TickOut {
    pub id_allocator: u64,
    pub counter: u64,
    pub monsters: Seq<PositionedObject<Monster>>,
    pub drops: Seq<PositionedObject<Dropped>>,
    pub spawners: Seq<PositionedObject<Spawner>>,
    pub towers: Seq<PositionedObject<InventoryObject>>,
    pub events: Seq<Event>,
    pub leaked: u64,
    pub collected: u64,
}

/// The complete tick as a function of the old world: collectors looked
/// up; monsters and drops moved or marked; spawners counted down and
/// their offspring queued; towers fired over the moved monsters; the
/// marked monsters and drops swap-removed, highest index first; the
/// queued monsters inserted under fresh ids; the transient event list and
/// leak and loot totals replaced.
pub open spec fn spec_run(s: State) -> TickOut {
    let cols = s.collector_positions();
    let mpos = s.monsters@.map_values(|p: PositionedObject<Monster>| p.position);
    let dpos = s.drops@.map_values(|p: PositionedObject<Dropped>| p.position);
    let moved_m = moved_monsters(s.map, cols, s.monsters@);
    let moved_d = moved_drops(s.map, cols, s.drops@);
    let marked_m = marked_prefix(cols, mpos, s.monsters@.len() as int);
    let marked_d = marked_prefix(cols, dpos, s.drops@.len() as int);
    let fired = fire_fold(moved_m, s.towers@, s.towers@.len() as int);
    let ms_kept = remove_desc(fired.monsters, marked_m);
    let ds_kept = remove_desc(moved_d, marked_d);
    let queued = spawned_prefix(s.spawners@, s.spawners@.len() as int);
    let base = s.id_allocator;
    let inserted = Seq::new(
        queued.len(),
        |i: int|
            PositionedObject {
                id: (base + 1 + i) as u64,
                position: queued[i].0,
                object: queued[i].1,
            },
    );
    TickOut {
        id_allocator: (base + queued.len()) as u64,
        counter: (s.counter + 1) as u64,
        monsters: ms_kept + inserted,
        drops: ds_kept,
        spawners: ticked_spawners(s.spawners@),
        towers: fired.towers,
        events: fired.events,
        leaked: leak_total(cols, s.monsters@, s.monsters@.len() as int) as u64,
        collected: collect_total(cols, s.drops@, s.drops@.len() as int) as u64,
    }
}

/// Machine limits under which the tick cannot overflow: the tick counter
/// and spawn sequences have room, the id allocator can cover this tick's
/// spawns, the leak and loot totals fit a word, and every tower's accrued
/// reward can absorb any monster's hit and kill rewards.
pub open spec fn run_ok(s: State) -> bool {
    &&& s.counter < u64::MAX
    &&& s.id_allocator + spawn_count(s.spawners@, s.spawners@.len() as int) <= u64::MAX
    &&& forall|i: int|
        0 <= i < s.spawners@.len() && (#[trigger] s.spawners@[i]).object.count == 0
            ==> s.spawners@[i].object.seq < u64::MAX
    &&& leak_total(
        s.collector_positions(),
        s.monsters@,
        s.monsters@.len() as int,
    ) <= u64::MAX
    &&& collect_total(
        s.collector_positions(),
        s.drops@,
        s.drops@.len() as int,
    ) <= u64::MAX
    &&& forall|i: int, j: int|
        0 <= i < s.monsters@.len() && 0 <= j < s.towers@.len() ==> (
        #[trigger] s.towers@[j]).object.reward + (#[trigger] s.monsters@[i]).object.hit
            + s.monsters@[i].object.kill <= u64::MAX
}


// ===== auxiliary lemmas =====

/// The marked index list is strictly ascending and bounded by `n`.
pub proof fn lemma_marked_prefix_shape(cols: Seq<RectCoordinate>, ps: Seq<RectCoordinate>, n: int)
    requires
        0 <= n <= usize::MAX,
    ensures
        forall|k: int|
            0 <= k < marked_prefix(cols, ps, n).len() ==> 0 <= #[trigger] marked_prefix(
                cols,
                ps,
                n,
            )[k] < n,
        forall|k1: int, k2: int|
            0 <= k1 < k2 < marked_prefix(cols, ps, n).len() ==> marked_prefix(cols, ps, n)[k1]
                < marked_prefix(cols, ps, n)[k2],
        marked_prefix(cols, ps, n).len() <= n,
    decreases n,
{
    if n > 0 {
        lemma_marked_prefix_shape(cols, ps, n - 1);
    }
}

/// Leak totals grow with the prefix.
pub proof fn lemma_leak_total_mono(
    cols: Seq<RectCoordinate>,
    ms: Seq<PositionedObject<Monster>>,
    k: int,
    n: int,
)
    requires
        k <= n,
    ensures
        leak_total(cols, ms, k) <= leak_total(cols, ms, n),
        0 <= leak_total(cols, ms, n) || n <= 0,
    decreases n,
{
    if n > 0 && k < n {
        lemma_leak_total_mono(cols, ms, k, n - 1);
    }
    if n > 0 {
        lemma_leak_total_nonneg(cols, ms, n);
    }
}

pub proof fn lemma_leak_total_nonneg(
    cols: Seq<RectCoordinate>,
    ms: Seq<PositionedObject<Monster>>,
    n: int,
)
    ensures
        0 <= leak_total(cols, ms, n) || n <= 0,
        n <= 0 ==> leak_total(cols, ms, n) == 0,
    decreases n,
{
    if n > 0 {
        lemma_leak_total_nonneg(cols, ms, n - 1);
    }
}

/// Loot totals grow with the prefix.
pub proof fn lemma_collect_total_mono(
    cols: Seq<RectCoordinate>,
    ds: Seq<PositionedObject<Dropped>>,
    k: int,
    n: int,
)
    requires
        k <= n,
    ensures
        collect_total(cols, ds, k) <= collect_total(cols, ds, n),
        0 <= collect_total(cols, ds, n) || n <= 0,
    decreases n,
{
    if n > 0 && k < n {
        lemma_collect_total_mono(cols, ds, k, n - 1);
    }
    if n > 0 {
        lemma_collect_total_nonneg(cols, ds, n);
    }
}

pub proof fn lemma_collect_total_nonneg(
    cols: Seq<RectCoordinate>,
    ds: Seq<PositionedObject<Dropped>>,
    n: int,
)
    ensures
        0 <= collect_total(cols, ds, n) || n <= 0,
        n <= 0 ==> collect_total(cols, ds, n) == 0,
    decreases n,
{
    if n > 0 {
        lemma_collect_total_nonneg(cols, ds, n - 1);
    }
}

/// The spawn queue holds one entry per firing spawner.
pub proof fn lemma_spawned_len(sps: Seq<PositionedObject<Spawner>>, n: int)
    ensures
        spawned_prefix(sps, n).len() == spawn_count(sps, n),
        0 <= spawn_count(sps, n),
        forall|k: int|
            0 <= k < n ==> spawn_count(sps, k) <= spawn_count(sps, n),
    decreases n,
{
    if n > 0 {
        lemma_spawned_len(sps, n - 1);
        assert forall|k: int| 0 <= k < n implies spawn_count(sps, k) <= spawn_count(sps, n) by {
            if k < n - 1 {
                assert(spawn_count(sps, k) <= spawn_count(sps, n - 1));
            }
        }
    }
}

/// The firing fold changes only hit points in monsters, and only the
/// countdown and reward inside towers; ids, positions and the rest are
/// kept, and unprocessed towers are untouched.
pub proof fn lemma_fire_fold_preserves(
    ms: Seq<PositionedObject<Monster>>,
    ts: Seq<PositionedObject<InventoryObject>>,
    n: int,
)
    requires
        0 <= n <= ts.len(),
        forall|j: int| 0 <= j < ts.len() ==> (#[trigger] ts[j]).object.object is Tower,
    ensures
        fire_fold(ms, ts, n).monsters.len() == ms.len(),
        fire_fold(ms, ts, n).towers.len() == ts.len(),
        forall|i: int|
            0 <= i < ms.len() ==> {
                let m2 = #[trigger] fire_fold(ms, ts, n).monsters[i];
                m2.id == ms[i].id && m2.position == ms[i].position && m2.object.hit
                    == ms[i].object.hit && m2.object.kill == ms[i].object.kill && m2.object.born
                    == ms[i].object.born
            },
        forall|j: int|
            0 <= j < ts.len() ==> {
                let t2 = #[trigger] fire_fold(ms, ts, n).towers[j];
                t2.id == ts[j].id && t2.position == ts[j].position && t2.object.object_id
                    == ts[j].object.object_id && t2.object.object is Tower
            },
        forall|j: int| n <= j < ts.len() ==> #[trigger] fire_fold(ms, ts, n).towers[j] == ts[j],
    decreases n,
{
    if n > 0 {
        lemma_fire_fold_preserves(ms, ts, n - 1);
        let prev = fire_fold(ms, ts, n - 1);
        let po = prev.towers[n - 1];
        assert(po == ts[n - 1]);
        let t = the_tower(po.object.object);
        lemma_select_target_characterization(prev.monsters, po.position, t.direction);
        let out = fire_one(prev.monsters, po);
    }
}

/// In a strictly ascending list the gap between entries covers the index
/// gap.
pub proof fn lemma_ascending_gap(a: Seq<usize>, i: int, j: int)
    requires
        0 <= i <= j < a.len(),
        forall|k1: int, k2: int| 0 <= k1 < k2 < a.len() ==> a[k1] < a[k2],
    ensures
        a[j] >= a[i] + (j - i),
    decreases j - i,
{
    if i < j {
        lemma_ascending_gap(a, i, j - 1);
    }
}

// ===== executable helpers =====

/// Linear membership scan over collector positions.
fn contains_position(v: &Vec<RectCoordinate>, p: &RectCoordinate) -> (r: bool)
    ensures
        r == v@.contains(*p),
{
    let n = v.len();
    let mut i: usize = 0;
    while i < n
        invariant
            i <= n,
            n == v@.len(),
            forall|j: int| 0 <= j < i ==> v@[j] != *p,
        decreases n - i,
    {
        if v[i].x == p.x && v[i].y == p.y {
            return true;
        }
        i = i + 1;
    }
    proof {
        if v@.contains(*p) {
            let j = choose|j: int| 0 <= j < v@.len() && v@[j] == *p;
            assert(false);
        }
    }
    false
}

/// Axis distance along the firing direction; callable only on the correct
/// side, where the subtraction cannot underflow.
fn axis_dist_exec(q: &RectCoordinate, pos: &RectCoordinate, dir: RectDirection) -> (r: u64)
    requires
        match dir {
            RectDirection::Top => q.y <= pos.y,
            RectDirection::Bottom => q.y >= pos.y,
            RectDirection::Left => q.x <= pos.x,
            RectDirection::Right => q.x >= pos.x,
        },
    ensures
        r == axis_dist(*q, *pos, dir),
{
    match dir {
        RectDirection::Top => pos.y - q.y,
        RectDirection::Bottom => q.y - pos.y,
        RectDirection::Left => pos.x - q.x,
        RectDirection::Right => q.x - pos.x,
    }
}


/// Builds the per-column and per-row partition of live monster indices:
/// the spatial index of the tick.  Target acquisition scans only the
/// bucket matching a tower's firing axis.
fn build_buckets(ms: &Vec<PositionedObject<Monster>>, width: usize, height: usize) -> (r: (
    Vec<Vec<usize>>,
    Vec<Vec<usize>>,
))
    requires
        forall|i: int|
            0 <= i < ms@.len() ==> (#[trigger] ms@[i]).position.x < width && ms@[i].position.y
                < height,
    ensures
        r.0@.len() == width,
        r.1@.len() == height,
        forall|c: int|
            0 <= c < width ==> (#[trigger] r.0@[c])@ == col_prefix(
                ms@,
                c as u64,
                ms@.len() as int,
            ),
        forall|c: int|
            0 <= c < height ==> (#[trigger] r.1@[c])@ == row_prefix(
                ms@,
                c as u64,
                ms@.len() as int,
            ),
{
    let mut cols: Vec<Vec<usize>> = Vec::new();
    let mut k: usize = 0;
    while k < width
        invariant
            k <= width,
            cols@.len() == k,
            forall|c: int| 0 <= c < k ==> (#[trigger] cols@[c])@ == Seq::<usize>::empty(),
        decreases width - k,
    {
        cols.push(Vec::new());
        k = k + 1;
    }
    let mut rows: Vec<Vec<usize>> = Vec::new();
    let mut k2: usize = 0;
    while k2 < height
        invariant
            k2 <= height,
            rows@.len() == k2,
            forall|c: int| 0 <= c < k2 ==> (#[trigger] rows@[c])@ == Seq::<usize>::empty(),
        decreases height - k2,
    {
        rows.push(Vec::new());
        k2 = k2 + 1;
    }
    let n = ms.len();
    let mut i: usize = 0;
    while i < n
        invariant
            i <= n,
            n == ms@.len(),
            forall|p: int|
                0 <= p < n ==> (#[trigger] ms@[p]).position.x < width && ms@[p].position.y
                    < height,
            cols@.len() == width,
            rows@.len() == height,
            forall|c: int|
                0 <= c < width ==> (#[trigger] cols@[c])@ == col_prefix(ms@, c as u64, i as int),
            forall|c: int|
                0 <= c < height ==> (#[trigger] rows@[c])@ == row_prefix(ms@, c as u64, i as int),
        decreases n - i,
    {
        let ghost cols0 = cols@;
        let ghost rows0 = rows@;
        let mx = ms[i].position.x as usize;
        let my = ms[i].position.y as usize;
        let mut b = cols.remove(mx);
        b.push(i);
        cols.insert(mx, b);
        let mut b2 = rows.remove(my);
        b2.push(i);
        rows.insert(my, b2);
        proof {
            assert(cols@ =~= cols0.update(mx as int, cols@[mx as int]));
            assert(rows@ =~= rows0.update(my as int, rows@[my as int]));
            assert((cols@[mx as int])@ =~= (cols0[mx as int])@.push(i));
            assert((rows@[my as int])@ =~= (rows0[my as int])@.push(i));
            assert forall|c: int| 0 <= c < width implies (#[trigger] cols@[c])@ == col_prefix(
                ms@,
                c as u64,
                i as int + 1,
            ) by {
                if c == mx as int {
                    assert(ms@[i as int].position.x == c as u64);
                } else {
                    assert(cols@[c] == cols0[c]);
                    assert(ms@[i as int].position.x != c as u64);
                }
            }
            assert forall|c: int| 0 <= c < height implies (#[trigger] rows@[c])@ == row_prefix(
                ms@,
                c as u64,
                i as int + 1,
            ) by {
                if c == my as int {
                    assert(ms@[i as int].position.y == c as u64);
                } else {
                    assert(rows@[c] == rows0[c]);
                    assert(ms@[i as int].position.y != c as u64);
                }
            }
        }
        i = i + 1;
    }
    (cols, rows)
}

/// Acquires a tower's target by scanning only its axis bucket, in index
/// order; the result is exactly the selection rule over the whole
/// monster list.
fn select_in_bucket(
    ms: &Vec<PositionedObject<Monster>>,
    bucket: &Vec<usize>,
    pos: &RectCoordinate,
    dir: RectDirection,
) -> (r: Option<usize>)
    requires
        match dir {
            RectDirection::Top => bucket@ == col_prefix(ms@, pos.x, ms@.len() as int),
            RectDirection::Bottom => bucket@ == col_prefix(ms@, pos.x, ms@.len() as int),
            RectDirection::Left => bucket@ == row_prefix(ms@, pos.y, ms@.len() as int),
            RectDirection::Right => bucket@ == row_prefix(ms@, pos.y, ms@.len() as int),
        },
    ensures
        match r {
            Some(i) => select_target(ms@, *pos, dir) == Some(i as int),
            None => select_target(ms@, *pos, dir) is None,
        },
{
    let n0 = ms.len();
    proof {
        assert(ms@.len() == n0);
        match dir {
            RectDirection::Top | RectDirection::Bottom => {
                lemma_col_prefix_shape(ms@, pos.x, ms@.len() as int);
            },
            RectDirection::Left | RectDirection::Right => {
                lemma_row_prefix_shape(ms@, pos.y, ms@.len() as int);
            },
        }
    }
    let bn = bucket.len();
    let mut j: usize = 0;
    let mut best: Option<usize> = None;
    let ghost mut cur: int = 0;
    while j < bn
        invariant
            j <= bn,
            bn == bucket@.len(),
            forall|k: int| 0 <= k < bn ==> #[trigger] bucket@[k] < ms@.len(),
            forall|k1: int, k2: int| 0 <= k1 < k2 < bn ==> bucket@[k1] < bucket@[k2],
            forall|idx: int|
                0 <= idx < ms@.len() ==> ((match dir {
                    RectDirection::Top => ms@[idx].position.x == pos.x,
                    RectDirection::Bottom => ms@[idx].position.x == pos.x,
                    RectDirection::Left => ms@[idx].position.y == pos.y,
                    RectDirection::Right => ms@[idx].position.y == pos.y,
                }) <==> bucket@.contains((idx as usize))),
            0 <= cur,
            cur == if j == 0 {
                0int
            } else {
                bucket@[j - 1] + 1
            },
            match best {
                Some(b) => b < cur && qualifies(ms@, b as int, *pos, dir),
                None => true,
            },
            select_from(
                ms@,
                *pos,
                dir,
                cur,
                match best {
                    Some(b) => Some(b as int),
                    None => None::<int>,
                },
            ) == select_target(ms@, *pos, dir),
        decreases bn - j,
    {
        let i = bucket[j];
        proof {
            assert(cur <= i) by {
                if j > 0 {
                    assert(bucket@[j - 1] < bucket@[j as int]);
                }
            }
            assert forall|k: int| cur <= k < i implies !qualifies(ms@, k, *pos, dir) by {
                if qualifies(ms@, k, *pos, dir) {
                    assert(bucket@.contains((k as usize)));
                    let m = choose|m: int| 0 <= m < bucket@.len() && bucket@[m] == (k as usize);
                    if m < j {
                        if m < j - 1 {
                            assert(bucket@[m] < bucket@[j - 1]);
                        }
                        assert(bucket@[m] < cur);
                    } else {
                        if m > j {
                            assert(bucket@[j as int] < bucket@[m]);
                        }
                        assert(bucket@[m] >= i);
                    }
                }
            }
            lemma_select_skip(
                ms@,
                *pos,
                dir,
                cur,
                i as int,
                match best {
                    Some(b) => Some(b as int),
                    None => None::<int>,
                },
            );
        }
        let q = ms[i].position;
        let qual = match dir {
            RectDirection::Top => q.x == pos.x && q.y < pos.y,
            RectDirection::Bottom => q.x == pos.x && q.y > pos.y,
            RectDirection::Left => q.y == pos.y && q.x < pos.x,
            RectDirection::Right => q.y == pos.y && q.x > pos.x,
        };
        let better = if qual {
            match best {
                None => true,
                Some(b) => {
                    let bq = ms[b].position;
                    axis_dist_exec(&q, pos, dir) < axis_dist_exec(&bq, pos, dir)
                },
            }
        } else {
            false
        };
        if better {
            best = Some(i);
        }
        proof {
            cur = i as int + 1;
        }
        j = j + 1;
    }
    proof {
        assert forall|k: int| cur <= k < ms@.len() implies !qualifies(ms@, k, *pos, dir) by {
            if qualifies(ms@, k, *pos, dir) {
                assert(bucket@.contains((k as usize)));
                let m = choose|m: int| 0 <= m < bucket@.len() && bucket@[m] == (k as usize);
                if m < bn - 1 {
                    assert(bucket@[m] < bucket@[bn - 1]);
                }
                assert(bucket@[m] < cur);
            }
        }
        lemma_select_skip(
            ms@,
            *pos,
            dir,
            cur,
            ms@.len() as int,
            match best {
                Some(b) => Some(b as int),
                None => None::<int>,
            },
        );
    }
    best
}



/// A tile's path feature never displaces a mobile object off the grid.
pub proof fn lemma_step_in_grid(m: TileMap, p: RectCoordinate)
    requires
        m.wf(),
        m.in_grid(p),
    ensures
        m.in_grid(step_position(m, p)),
{
    let w = m.width as int;
    let k = spec_index_of(p, w);
    crate::tile::lemma_coordinate_index_in_range(p, w, m.height as int);
    assert(m.feature_stays_in_grid(k));
    crate::tile::lemma_index_coordinate_inverse(k, w, m.height as int);
    crate::state::lemma_index_injective(crate::tile::spec_coordinate_of(k, w), p, w);
}

/// Every queued spawn sits at its spawner's position, hence in the grid.
pub proof fn lemma_spawned_in_grid(m: TileMap, sps: Seq<PositionedObject<Spawner>>, n: int)
    requires
        forall|i: int| 0 <= i < sps.len() ==> m.in_grid((#[trigger] sps[i]).position),
        0 <= n <= sps.len(),
    ensures
        forall|k: int|
            0 <= k < spawned_prefix(sps, n).len() ==> m.in_grid(
                (#[trigger] spawned_prefix(sps, n)[k]).0,
            ),
    decreases n,
{
    if n > 0 {
        lemma_spawned_in_grid(m, sps, n - 1);
        let cur = spawned_prefix(sps, n);
        let prev = spawned_prefix(sps, n - 1);
        assert forall|k: int| 0 <= k < cur.len() implies m.in_grid((#[trigger] cur[k]).0) by {
            if k < prev.len() {
                assert(cur[k] == prev[k]);
            } else {
                assert(cur[k].0 == sps[n - 1].position);
            }
        }
    }
}

impl State {
    /// The positions currently occupied by a collector.
    fn collector_position_vec(&self) -> (r: Vec<RectCoordinate>)
        ensures
            r@ == self.collector_positions(),
    {
        let mut r: Vec<RectCoordinate> = Vec::new();
        let n = self.collectors.len();
        let mut i: usize = 0;
        while i < n
            invariant
                i <= n,
                n == self.collectors@.len(),
                r@.len() == i,
                forall|j: int| 0 <= j < i ==> r@[j] == (#[trigger] self.collectors@[j]).position,
            decreases n - i,
        {
            r.push(self.collectors[i].position);
            i = i + 1;
        }
        proof {
            assert(r@ =~= self.collector_positions());
        }
        r
    }

    /// Monster movement and collection: a monster on a collector tile is
    /// marked for termination and its hit points accrue as leak damage;
    /// any other monster is displaced by its tile's path feature.
    fn phase_move_monsters(&mut self, cols: &Vec<RectCoordinate>) -> (r: (Vec<usize>, u64))
        requires
            old(self).wf(),
            cols@ == old(self).collector_positions(),
            leak_total(cols@, old(self).monsters@, old(self).monsters@.len() as int) <= u64::MAX,
        ensures
            final(self).wf(),
            final(self).monsters@ == moved_monsters(old(self).map, cols@, old(self).monsters@),
            r.0@ == marked_prefix(
                cols@,
                old(self).monsters@.map_values(|p: PositionedObject<Monster>| p.position),
                old(self).monsters@.len() as int,
            ),
            r.1 == leak_total(cols@, old(self).monsters@, old(self).monsters@.len() as int),
            final(self).id_allocator == old(self).id_allocator,
            final(self).counter == old(self).counter,
            final(self).map == old(self).map,
            final(self).drops == old(self).drops,
            final(self).collectors == old(self).collectors,
            final(self).spawners == old(self).spawners,
            final(self).towers == old(self).towers,
            final(self).events == old(self).events,
            final(self).leaked == old(self).leaked,
            final(self).collected == old(self).collected,
    {
        let ghost s0 = *self;
        let ghost mpos = s0.monsters@.map_values(|p: PositionedObject<Monster>| p.position);
        let mut marked: Vec<usize> = Vec::new();
        let mut leaked_acc: u64 = 0;
        let n = self.monsters.len();
        let mut index: usize = 0;
        while index < n
            invariant
                index <= n,
                n == self.monsters@.len(),
                s0.wf(),
                s0.monsters@.len() == n,
                cols@ == s0.collector_positions(),
                mpos == s0.monsters@.map_values(|p: PositionedObject<Monster>| p.position),
                leak_total(cols@, s0.monsters@, n as int) <= u64::MAX,
                forall|j: int|
                    0 <= j < index ==> #[trigger] self.monsters@[j] == moved_monster(
                        s0.map,
                        cols@,
                        s0.monsters@[j],
                    ),
                forall|j: int| index <= j < n ==> #[trigger] self.monsters@[j] == s0.monsters@[j],
                marked@ == marked_prefix(cols@, mpos, index as int),
                leaked_acc == leak_total(cols@, s0.monsters@, index as int),
                self.id_allocator == s0.id_allocator,
                self.counter == s0.counter,
                self.map == s0.map,
                self.drops == s0.drops,
                self.collectors == s0.collectors,
                self.spawners == s0.spawners,
                self.towers == s0.towers,
                self.events == s0.events,
                self.leaked == s0.leaked,
                self.collected == s0.collected,
            decreases n - index,
        {
            let pos = self.monsters[index].position;
            proof {
                assert(self.monsters@[index as int] == s0.monsters@[index as int]);
                assert(mpos[index as int] == pos);
            }
            if contains_position(cols, &pos) {
                marked.push(index);
                proof {
                    lemma_leak_total_mono(cols@, s0.monsters@, index as int + 1, n as int);
                }
                let hp = self.monsters[index].object.hp;
                leaked_acc = leaked_acc + hp;
            } else {
                let tindex = self.map.index_of_tile_coordinate(&pos);
                let feature = self.map.get_feature(tindex);
                match feature {
                    Some(f) => {
                        proof {
                            assert(s0.map.feature_stays_in_grid(tindex as int));
                            crate::tile::lemma_index_coordinate_inverse(
                                tindex as int,
                                s0.map.width as int,
                                s0.map.height as int,
                            );
                            crate::state::lemma_index_injective(
                                crate::tile::spec_coordinate_of(
                                    tindex as int,
                                    s0.map.width as int,
                                ),
                                pos,
                                s0.map.width as int,
                            );
                        }
                        let newpos = pos.adjacent(f);
                        let mut po = self.monsters[index];
                        po.position = newpos;
                        self.monsters.set(index, po);
                    },
                    None => {},
                }
            }
            index = index + 1;
        }
        proof {
            assert(self.monsters@ =~= moved_monsters(s0.map, cols@, s0.monsters@));
            assert(self.monster_ids() =~= s0.monster_ids());
            assert(self.wf()) by {
                assert forall|j: int| 0 <= j < self.monsters@.len() implies self.map.in_grid(
                    (#[trigger] self.monsters@[j]).position,
                ) by {
                    assert(self.monsters@[j] == moved_monster(s0.map, cols@, s0.monsters@[j]));
                    lemma_step_in_grid(s0.map, s0.monsters@[j].position);
                }
            }
        }
        (marked, leaked_acc)
    }

    /// Dropped-loot movement and collection, by the same rule; collection
    /// credits the item's `delta` to the pending loot total.
    fn phase_move_drops(&mut self, cols: &Vec<RectCoordinate>) -> (r: (Vec<usize>, u64))
        requires
            old(self).wf(),
            cols@ == old(self).collector_positions(),
            collect_total(cols@, old(self).drops@, old(self).drops@.len() as int) <= u64::MAX,
        ensures
            final(self).wf(),
            final(self).drops@ == moved_drops(old(self).map, cols@, old(self).drops@),
            r.0@ == marked_prefix(
                cols@,
                old(self).drops@.map_values(|p: PositionedObject<Dropped>| p.position),
                old(self).drops@.len() as int,
            ),
            r.1 == collect_total(cols@, old(self).drops@, old(self).drops@.len() as int),
            final(self).id_allocator == old(self).id_allocator,
            final(self).counter == old(self).counter,
            final(self).map == old(self).map,
            final(self).monsters == old(self).monsters,
            final(self).collectors == old(self).collectors,
            final(self).spawners == old(self).spawners,
            final(self).towers == old(self).towers,
            final(self).events == old(self).events,
            final(self).leaked == old(self).leaked,
            final(self).collected == old(self).collected,
    {
        let ghost s0 = *self;
        let ghost dpos = s0.drops@.map_values(|p: PositionedObject<Dropped>| p.position);
        let mut marked: Vec<usize> = Vec::new();
        let mut collected_acc: u64 = 0;
        let n = self.drops.len();
        let mut index: usize = 0;
        while index < n
            invariant
                index <= n,
                n == self.drops@.len(),
                s0.wf(),
                s0.drops@.len() == n,
                cols@ == s0.collector_positions(),
                dpos == s0.drops@.map_values(|p: PositionedObject<Dropped>| p.position),
                collect_total(cols@, s0.drops@, n as int) <= u64::MAX,
                forall|j: int|
                    0 <= j < index ==> #[trigger] self.drops@[j] == moved_drop(
                        s0.map,
                        cols@,
                        s0.drops@[j],
                    ),
                forall|j: int| index <= j < n ==> #[trigger] self.drops@[j] == s0.drops@[j],
                marked@ == marked_prefix(cols@, dpos, index as int),
                collected_acc == collect_total(cols@, s0.drops@, index as int),
                self.id_allocator == s0.id_allocator,
                self.counter == s0.counter,
                self.map == s0.map,
                self.monsters == s0.monsters,
                self.collectors == s0.collectors,
                self.spawners == s0.spawners,
                self.towers == s0.towers,
                self.events == s0.events,
                self.leaked == s0.leaked,
                self.collected == s0.collected,
            decreases n - index,
        {
            let pos = self.drops[index].position;
            proof {
                assert(self.drops@[index as int] == s0.drops@[index as int]);
                assert(dpos[index as int] == pos);
            }
            if contains_position(cols, &pos) {
                marked.push(index);
                proof {
                    lemma_collect_total_mono(cols@, s0.drops@, index as int + 1, n as int);
                }
                let delta = self.drops[index].object.delta;
                collected_acc = collected_acc + delta;
            } else {
                let tindex = self.map.index_of_tile_coordinate(&pos);
                let feature = self.map.get_feature(tindex);
                match feature {
                    Some(f) => {
                        proof {
                            assert(s0.map.feature_stays_in_grid(tindex as int));
                            crate::tile::lemma_index_coordinate_inverse(
                                tindex as int,
                                s0.map.width as int,
                                s0.map.height as int,
                            );
                            crate::state::lemma_index_injective(
                                crate::tile::spec_coordinate_of(
                                    tindex as int,
                                    s0.map.width as int,
                                ),
                                pos,
                                s0.map.width as int,
                            );
                        }
                        let newpos = pos.adjacent(f);
                        let mut po = self.drops[index];
                        po.position = newpos;
                        self.drops.set(index, po);
                    },
                    None => {},
                }
            }
            index = index + 1;
        }
        proof {
            assert(self.drops@ =~= moved_drops(s0.map, cols@, s0.drops@));
            assert(self.drop_ids() =~= s0.drop_ids());
            assert(self.wf()) by {
                assert forall|j: int| 0 <= j < self.drops@.len() implies self.map.in_grid(
                    (#[trigger] self.drops@[j]).position,
                ) by {
                    assert(self.drops@[j] == moved_drop(s0.map, cols@, s0.drops@[j]));
                    lemma_step_in_grid(s0.map, s0.drops@[j].position);
                }
            }
        }
        (marked, collected_acc)
    }

    /// Spawner countdown: a spawner at zero queues a monster of the tier
    /// chosen by its next sequence number and reloads its countdown from
    /// `rate`; any other spawner counts down.
    fn phase_spawners(&mut self) -> (queued: Vec<(RectCoordinate, Monster)>)
        requires
            old(self).wf(),
            forall|i: int|
                0 <= i < old(self).spawners@.len() && (#[trigger] old(
                    self,
                ).spawners@[i]).object.count == 0 ==> old(self).spawners@[i].object.seq < u64::MAX,
        ensures
            final(self).wf(),
            final(self).spawners@ == ticked_spawners(old(self).spawners@),
            queued@ == spawned_prefix(old(self).spawners@, old(self).spawners@.len() as int),
            final(self).id_allocator == old(self).id_allocator,
            final(self).counter == old(self).counter,
            final(self).map == old(self).map,
            final(self).monsters == old(self).monsters,
            final(self).drops == old(self).drops,
            final(self).collectors == old(self).collectors,
            final(self).towers == old(self).towers,
            final(self).events == old(self).events,
            final(self).leaked == old(self).leaked,
            final(self).collected == old(self).collected,
    {
        let ghost s0 = *self;
        let mut queued: Vec<(RectCoordinate, Monster)> = Vec::new();
        let n = self.spawners.len();
        let mut i: usize = 0;
        while i < n
            invariant
                i <= n,
                n == self.spawners@.len(),
                s0.wf(),
                s0.spawners@.len() == n,
                forall|j: int|
                    0 <= j < n && (#[trigger] s0.spawners@[j]).object.count == 0
                        ==> s0.spawners@[j].object.seq < u64::MAX,
                forall|j: int|
                    0 <= j < i ==> #[trigger] self.spawners@[j] == (PositionedObject {
                        object: ticked_spawner(s0.spawners@[j].object),
                        ..s0.spawners@[j]
                    }),
                forall|j: int| i <= j < n ==> #[trigger] self.spawners@[j] == s0.spawners@[j],
                queued@ == spawned_prefix(s0.spawners@, i as int),
                self.id_allocator == s0.id_allocator,
                self.counter == s0.counter,
                self.map == s0.map,
                self.monsters == s0.monsters,
                self.drops == s0.drops,
                self.collectors == s0.collectors,
                self.towers == s0.towers,
                self.events == s0.events,
                self.leaked == s0.leaked,
                self.collected == s0.collected,
            decreases n - i,
        {
            let mut po = self.spawners[i];
            proof {
                assert(self.spawners@[i as int] == s0.spawners@[i as int]);
            }
            if po.object.count == 0 {
                let seq2 = po.object.seq + 1;
                let m = crate::config::spawn_monster(seq2);
                queued.push((po.position, m));
                po.object.count = po.object.rate;
                po.object.seq = seq2;
            } else {
                po.object.count = po.object.count - 1;
            }
            self.spawners.set(i, po);
            i = i + 1;
        }
        proof {
            assert(self.spawners@ =~= ticked_spawners(s0.spawners@));
            assert(self.spawner_ids() =~= s0.spawner_ids());
            assert(self.spawner_positions() =~= s0.spawner_positions());
            assert(self.wf()) by {
                assert forall|j: int| 0 <= j < self.spawners@.len() implies self.map.in_grid(
                    (#[trigger] self.spawners@[j]).position,
                ) by {
                    assert(self.spawners@[j].position == s0.spawners@[j].position);
                }
            }
        }
        queued
    }
}


impl State {
    /// Tower firing: each tower with an elapsed countdown scans the moved
    /// monsters along its axis, damages the chosen target (recycling it on
    /// a kill), credits its own record, emits an attack event and reloads;
    /// any other tower counts down.
    fn phase_fire(&mut self) -> (events: Vec<Event>)
        requires
            old(self).wf(),
            forall|i: int, j: int|
                0 <= i < old(self).monsters@.len() && 0 <= j < old(self).towers@.len() ==> (
                #[trigger] old(self).towers@[j]).object.reward + (#[trigger] old(
                    self,
                ).monsters@[i]).object.hit + old(self).monsters@[i].object.kill <= u64::MAX,
        ensures
            final(self).wf(),
            final(self).monsters@ == fire_fold(
                old(self).monsters@,
                old(self).towers@,
                old(self).towers@.len() as int,
            ).monsters,
            final(self).towers@ == fire_fold(
                old(self).monsters@,
                old(self).towers@,
                old(self).towers@.len() as int,
            ).towers,
            events@ == fire_fold(
                old(self).monsters@,
                old(self).towers@,
                old(self).towers@.len() as int,
            ).events,
            final(self).id_allocator == old(self).id_allocator,
            final(self).counter == old(self).counter,
            final(self).map == old(self).map,
            final(self).drops == old(self).drops,
            final(self).collectors == old(self).collectors,
            final(self).spawners == old(self).spawners,
            final(self).events == old(self).events,
            final(self).leaked == old(self).leaked,
            final(self).collected == old(self).collected,
    {
        let ghost s0 = *self;
        proof {
            assert forall|i: int|
                0 <= i < self.monsters@.len() implies (#[trigger] self.monsters@[i]).position.x
                < self.map.width && self.monsters@[i].position.y < self.map.height by {
                assert(self.map.in_grid(self.monsters@[i].position));
            }
        }
        let buckets = build_buckets(&self.monsters, self.map.width, self.map.height);
        let cols = buckets.0;
        let rows = buckets.1;
        let mut events: Vec<Event> = Vec::new();
        let tn = self.towers.len();
        let mut j: usize = 0;
        while j < tn
            invariant
                j <= tn,
                tn == s0.towers@.len(),
                s0.wf(),
                cols@.len() == s0.map.width,
                rows@.len() == s0.map.height,
                forall|c: int|
                    0 <= c < s0.map.width ==> (#[trigger] cols@[c])@ == col_prefix(
                        s0.monsters@,
                        c as u64,
                        s0.monsters@.len() as int,
                    ),
                forall|c: int|
                    0 <= c < s0.map.height ==> (#[trigger] rows@[c])@ == row_prefix(
                        s0.monsters@,
                        c as u64,
                        s0.monsters@.len() as int,
                    ),
                forall|a: int, b: int|
                    0 <= a < s0.monsters@.len() && 0 <= b < s0.towers@.len() ==> (
                    #[trigger] s0.towers@[b]).object.reward + (#[trigger] s0.monsters@[a]).object.hit
                        + s0.monsters@[a].object.kill <= u64::MAX,
                self.monsters@ == fire_fold(s0.monsters@, s0.towers@, j as int).monsters,
                self.towers@ == fire_fold(s0.monsters@, s0.towers@, j as int).towers,
                events@ == fire_fold(s0.monsters@, s0.towers@, j as int).events,
                self.id_allocator == s0.id_allocator,
                self.counter == s0.counter,
                self.map == s0.map,
                self.drops == s0.drops,
                self.collectors == s0.collectors,
                self.spawners == s0.spawners,
                self.events == s0.events,
                self.leaked == s0.leaked,
                self.collected == s0.collected,
            decreases tn - j,
        {
            let ghost prev = fire_fold(s0.monsters@, s0.towers@, j as int);
            proof {
                lemma_fire_fold_preserves(s0.monsters@, s0.towers@, j as int);
                assert(self.towers@[j as int] == s0.towers@[j as int]);
                assert(s0.towers@[j as int].object.object is Tower);
            }
            let po = self.towers[j];
            let t = *po.object.object.get_the_tower();
            let ghost out = fire_one(prev.monsters, prev.towers[j as int]);
            if t.count == 0 {
                proof {
                    assert(s0.map.in_grid(po.position));
                    lemma_buckets_positions_only(
                        self.monsters@,
                        s0.monsters@,
                        po.position.x,
                        self.monsters@.len() as int,
                    );
                    lemma_buckets_positions_only(
                        self.monsters@,
                        s0.monsters@,
                        po.position.y,
                        self.monsters@.len() as int,
                    );
                }
                let target = match t.direction {
                    RectDirection::Top | RectDirection::Bottom => select_in_bucket(
                        &self.monsters,
                        &cols[po.position.x as usize],
                        &po.position,
                        t.direction,
                    ),
                    RectDirection::Left | RectDirection::Right => select_in_bucket(
                        &self.monsters,
                        &rows[po.position.y as usize],
                        &po.position,
                        t.direction,
                    ),
                };
                match target {
                    Some(i) => {
                        proof {
                            lemma_select_target_characterization(
                                self.monsters@,
                                po.position,
                                t.direction,
                            );
                        }
                        let mut mo = self.monsters[i];
                        let hit = mo.object.hit;
                        let kill = mo.object.kill;
                        let born = mo.object.born;
                        proof {
                            // Hit and kill rewards never change during the
                            // phase, and this tower's reward is untouched so
                            // far: the word-size bound carries over.
                            assert(fire_fold(
                                s0.monsters@,
                                s0.towers@,
                                j as int,
                            ).monsters[i as int].object.hit == s0.monsters@[i as int].object.hit);
                            assert(fire_fold(
                                s0.monsters@,
                                s0.towers@,
                                j as int,
                            ).monsters[i as int].object.kill == s0.monsters@[i as int].object.kill);
                        }
                        let mut newhp: u64 = if mo.object.hp < t.power {
                            0
                        } else {
                            mo.object.hp - t.power
                        };
                        let mut reward_add: u64 = hit;
                        if newhp == 0 {
                            newhp = born;
                            reward_add = hit + kill;
                        }
                        mo.object.hp = newhp;
                        self.monsters.set(i, mo);
                        let mut tpo = po;
                        tpo.object.object = Object::Tower(Tower { count: t.cooldown, ..t });
                        tpo.object.reward = po.object.reward + reward_add;
                        self.towers.set(j, tpo);
                        events.push(
                            Event::Attack(
                                (po.position.x, po.position.y),
                                (mo.position.x, mo.position.y),
                                t.power,
                            ),
                        );
                        proof {
                            assert(self.monsters@ =~= out.monsters);
                            assert(self.towers@ =~= prev.towers.update(j as int, out.tower));
                            assert(events@ =~= prev.events + out.events);
                        }
                    },
                    None => {
                        proof {
                            assert(self.monsters@ =~= out.monsters);
                            assert(self.towers@ =~= prev.towers.update(j as int, out.tower));
                            assert(events@ =~= prev.events + out.events);
                        }
                    },
                }
            } else {
                let mut tpo = po;
                tpo.object.object = Object::Tower(Tower { count: t.count - 1, ..t });
                self.towers.set(j, tpo);
                proof {
                    assert(self.monsters@ =~= out.monsters);
                    assert(self.towers@ =~= prev.towers.update(j as int, out.tower));
                    assert(events@ =~= prev.events + out.events);
                }
            }
            j = j + 1;
        }
        proof {
            lemma_fire_fold_preserves(s0.monsters@, s0.towers@, tn as int);
            assert(self.monster_ids() =~= s0.monster_ids());
            assert(self.tower_ids() =~= s0.tower_ids());
            assert(self.tower_positions() =~= s0.tower_positions());
            assert(self.wf()) by {
                let f = fire_fold(s0.monsters@, s0.towers@, tn as int);
                assert forall|a: int| 0 <= a < self.monsters@.len() implies self.map.in_grid(
                    (#[trigger] self.monsters@[a]).position,
                ) by {
                    assert(f.monsters[a].position == s0.monsters@[a].position);
                }
            }
        }
        events
    }
}


impl State {
    /// Drains the termination list of monsters, highest index first, by
    /// `swap_remove`.
    fn phase_remove_monsters(&mut self, marked: &Vec<usize>)
        requires
            old(self).wf(),
            forall|k: int| 0 <= k < marked@.len() ==> #[trigger] marked@[k] < old(
                self,
            ).monsters@.len(),
            forall|k1: int, k2: int|
                0 <= k1 < k2 < marked@.len() ==> marked@[k1] < marked@[k2],
        ensures
            final(self).wf(),
            final(self).monsters@ == remove_desc(old(self).monsters@, marked@),
            final(self).id_allocator == old(self).id_allocator,
            final(self).counter == old(self).counter,
            final(self).map == old(self).map,
            final(self).drops == old(self).drops,
            final(self).collectors == old(self).collectors,
            final(self).spawners == old(self).spawners,
            final(self).towers == old(self).towers,
            final(self).events == old(self).events,
            final(self).leaked == old(self).leaked,
            final(self).collected == old(self).collected,
    {
        let ghost s0 = *self;
        let mlen = marked.len();
        proof {
            assert(marked@.subrange(0, mlen as int) =~= marked@);
        }
        let mut k = mlen;
        while k > 0
            invariant
                k <= mlen,
                mlen == marked@.len(),
                s0.wf(),
                self.wf(),
                forall|p: int| 0 <= p < mlen ==> #[trigger] marked@[p] < s0.monsters@.len(),
                forall|p1: int, p2: int|
                    0 <= p1 < p2 < mlen ==> marked@[p1] < marked@[p2],
                self.monsters@.len() == s0.monsters@.len() - (mlen - k),
                remove_desc(s0.monsters@, marked@) == remove_desc(
                    self.monsters@,
                    marked@.subrange(0, k as int),
                ),
                self.id_allocator == s0.id_allocator,
                self.counter == s0.counter,
                self.map == s0.map,
                self.drops == s0.drops,
                self.collectors == s0.collectors,
                self.spawners == s0.spawners,
                self.towers == s0.towers,
                self.events == s0.events,
                self.leaked == s0.leaked,
                self.collected == s0.collected,
            decreases k,
        {
            k = k - 1;
            let idx = marked[k];
            proof {
                if k < mlen - 1 {
                    lemma_ascending_gap(marked@, k as int, mlen as int - 1);
                }
                assert(idx < self.monsters@.len());
                assert(marked@.subrange(0, k as int + 1).last() == marked@[k as int]);
                assert(marked@.subrange(0, k as int + 1).drop_last() =~= marked@.subrange(
                    0,
                    k as int,
                ));
            }
            self.remove_monster(idx);
        }
        proof {
            assert(marked@.subrange(0, 0) =~= Seq::<usize>::empty());
        }
    }

    /// Drains the termination list of dropped items, highest index first.
    fn phase_remove_drops(&mut self, marked: &Vec<usize>)
        requires
            old(self).wf(),
            forall|k: int| 0 <= k < marked@.len() ==> #[trigger] marked@[k] < old(
                self,
            ).drops@.len(),
            forall|k1: int, k2: int|
                0 <= k1 < k2 < marked@.len() ==> marked@[k1] < marked@[k2],
        ensures
            final(self).wf(),
            final(self).drops@ == remove_desc(old(self).drops@, marked@),
            final(self).id_allocator == old(self).id_allocator,
            final(self).counter == old(self).counter,
            final(self).map == old(self).map,
            final(self).monsters == old(self).monsters,
            final(self).collectors == old(self).collectors,
            final(self).spawners == old(self).spawners,
            final(self).towers == old(self).towers,
            final(self).events == old(self).events,
            final(self).leaked == old(self).leaked,
            final(self).collected == old(self).collected,
    {
        let ghost s0 = *self;
        let mlen = marked.len();
        proof {
            assert(marked@.subrange(0, mlen as int) =~= marked@);
        }
        let mut k = mlen;
        while k > 0
            invariant
                k <= mlen,
                mlen == marked@.len(),
                s0.wf(),
                self.wf(),
                forall|p: int| 0 <= p < mlen ==> #[trigger] marked@[p] < s0.drops@.len(),
                forall|p1: int, p2: int|
                    0 <= p1 < p2 < mlen ==> marked@[p1] < marked@[p2],
                self.drops@.len() == s0.drops@.len() - (mlen - k),
                remove_desc(s0.drops@, marked@) == remove_desc(
                    self.drops@,
                    marked@.subrange(0, k as int),
                ),
                self.id_allocator == s0.id_allocator,
                self.counter == s0.counter,
                self.map == s0.map,
                self.monsters == s0.monsters,
                self.collectors == s0.collectors,
                self.spawners == s0.spawners,
                self.towers == s0.towers,
                self.events == s0.events,
                self.leaked == s0.leaked,
                self.collected == s0.collected,
            decreases k,
        {
            k = k - 1;
            let idx = marked[k];
            proof {
                if k < mlen - 1 {
                    lemma_ascending_gap(marked@, k as int, mlen as int - 1);
                }
                assert(idx < self.drops@.len());
                assert(marked@.subrange(0, k as int + 1).last() == marked@[k as int]);
                assert(marked@.subrange(0, k as int + 1).drop_last() =~= marked@.subrange(
                    0,
                    k as int,
                ));
            }
            self.remove_dropped(idx);
        }
        proof {
            assert(marked@.subrange(0, 0) =~= Seq::<usize>::empty());
        }
    }

    /// Inserts the queued monsters, allocating a fresh id for each in
    /// queue order.
    fn phase_insert_spawned(&mut self, queued: &Vec<(RectCoordinate, Monster)>)
        requires
            old(self).wf(),
            forall|k: int|
                0 <= k < queued@.len() ==> old(self).map.in_grid((#[trigger] queued@[k]).0),
            old(self).id_allocator + queued@.len() <= u64::MAX,
        ensures
            final(self).wf(),
            final(self).id_allocator == old(self).id_allocator + queued@.len(),
            final(self).monsters@ == old(self).monsters@ + Seq::new(
                queued@.len(),
                |i: int|
                    PositionedObject {
                        id: (old(self).id_allocator + 1 + i) as u64,
                        position: queued@[i].0,
                        object: queued@[i].1,
                    },
            ),
            final(self).counter == old(self).counter,
            final(self).map == old(self).map,
            final(self).drops == old(self).drops,
            final(self).collectors == old(self).collectors,
            final(self).spawners == old(self).spawners,
            final(self).towers == old(self).towers,
            final(self).events == old(self).events,
            final(self).leaked == old(self).leaked,
            final(self).collected == old(self).collected,
    {
        let ghost s0 = *self;
        let n = queued.len();
        let mut i: usize = 0;
        while i < n
            invariant
                i <= n,
                n == queued@.len(),
                s0.wf(),
                self.wf(),
                forall|k: int| 0 <= k < n ==> s0.map.in_grid((#[trigger] queued@[k]).0),
                s0.id_allocator + n <= u64::MAX,
                self.id_allocator == s0.id_allocator + i,
                self.monsters@ == s0.monsters@ + Seq::new(
                    i as nat,
                    |p: int|
                        PositionedObject {
                            id: (s0.id_allocator + 1 + p) as u64,
                            position: queued@[p].0,
                            object: queued@[p].1,
                        },
                ),
                self.counter == s0.counter,
                self.map == s0.map,
                self.drops == s0.drops,
                self.collectors == s0.collectors,
                self.spawners == s0.spawners,
                self.towers == s0.towers,
                self.events == s0.events,
                self.leaked == s0.leaked,
                self.collected == s0.collected,
            decreases n - i,
        {
            let entry = queued[i];
            self.spawn_monster_at(entry.1, entry.0);
            proof {
                assert(self.monsters@ =~= s0.monsters@ + Seq::new(
                    (i + 1) as nat,
                    |p: int|
                        PositionedObject {
                            id: (s0.id_allocator + 1 + p) as u64,
                            position: queued@[p].0,
                            object: queued@[p].1,
                        },
                ));
            }
            i = i + 1;
        }
    }

    /// One simulation tick, advancing the whole world exactly one step in
    /// the fixed order: count the tick; move or collect monsters and
    /// dropped loot; count down spawners; fire towers over the moved
    /// monsters; apply the queued terminations, highest index first;
    /// insert the queued spawns under fresh ids; replace the transient
    /// event list and leak and loot totals.  The result is exactly
    /// `spec_run` of the old world.
    pub fn run(&mut self)
        requires
            old(self).wf(),
            run_ok(*old(self)),
        ensures
            final(self).wf(),
            final(self).id_allocator >= old(self).id_allocator,
            final(self).id_allocator == spec_run(*old(self)).id_allocator,
            final(self).counter == spec_run(*old(self)).counter,
            final(self).monsters@ == spec_run(*old(self)).monsters,
            final(self).drops@ == spec_run(*old(self)).drops,
            final(self).spawners@ == spec_run(*old(self)).spawners,
            final(self).towers@ == spec_run(*old(self)).towers,
            final(self).events@ == spec_run(*old(self)).events,
            final(self).leaked == spec_run(*old(self)).leaked,
            final(self).collected == spec_run(*old(self)).collected,
            final(self).collectors == old(self).collectors,
            final(self).map == old(self).map,
    {
        let ghost s0 = *self;
        let nm0 = self.monsters.len();
        let nd0 = self.drops.len();
        proof {
            assert(s0.monsters@.len() == nm0 && s0.drops@.len() == nd0);
        }
        self.counter = self.counter + 1;
        proof {
            assert(self.wf());
            assert(self.collector_positions() == s0.collector_positions());
        }
        let cols = self.collector_position_vec();
        let moved = self.phase_move_monsters(&cols);
        let marked_m = moved.0;
        let leaked_acc = moved.1;
        let movedd = self.phase_move_drops(&cols);
        let marked_d = movedd.0;
        let collected_acc = movedd.1;
        let queued = self.phase_spawners();
        proof {
            // The reward bound carries to the moved monsters: movement
            // leaves every monster's entity untouched.
            assert forall|a: int, b: int|
                0 <= a < self.monsters@.len() && 0 <= b < self.towers@.len() implies (
            #[trigger] self.towers@[b]).object.reward + (#[trigger] self.monsters@[a]).object.hit
                + self.monsters@[a].object.kill <= u64::MAX by {
                assert(self.monsters@[a] == moved_monster(s0.map, cols@, s0.monsters@[a]));
                assert(self.monsters@[a].object == s0.monsters@[a].object);
                assert(self.towers@[b] == s0.towers@[b]);
            }
        }
        let events = self.phase_fire();
        proof {
            lemma_fire_fold_preserves(
                moved_monsters(s0.map, cols@, s0.monsters@),
                s0.towers@,
                s0.towers@.len() as int,
            );
            lemma_marked_prefix_shape(
                cols@,
                s0.monsters@.map_values(|p: PositionedObject<Monster>| p.position),
                s0.monsters@.len() as int,
            );
            lemma_marked_prefix_shape(
                cols@,
                s0.drops@.map_values(|p: PositionedObject<Dropped>| p.position),
                s0.drops@.len() as int,
            );
        }
        self.phase_remove_monsters(&marked_m);
        self.phase_remove_drops(&marked_d);
        proof {
            lemma_spawned_len(s0.spawners@, s0.spawners@.len() as int);
            lemma_spawned_in_grid(s0.map, s0.spawners@, s0.spawners@.len() as int);
        }
        self.phase_insert_spawned(&queued);
        self.events = events;
        self.leaked = leaked_acc;
        self.collected = collected_acc;
    }
}


impl State {
    /// Decides `run_ok` at runtime: whether this tick can be taken
    /// without any counter, id, reward or total overflowing a word.
    pub fn check_run_ok(&self) -> (r: bool)
        ensures
            r == run_ok(*self),
    {
        if self.counter >= u64::MAX {
            return false;
        }
        let sn = self.spawners.len();
        let mut cnt: u64 = 0;
        let mut i: usize = 0;
        while i < sn
            invariant
                i <= sn,
                sn == self.spawners@.len(),
                cnt == spawn_count(self.spawners@, i as int),
                cnt <= i,
                forall|j: int|
                    0 <= j < i && (#[trigger] self.spawners@[j]).object.count == 0
                        ==> self.spawners@[j].object.seq < u64::MAX,
            decreases sn - i,
        {
            let sp = self.spawners[i];
            if sp.object.count == 0 {
                if sp.object.seq >= u64::MAX {
                    return false;
                }
                cnt = cnt + 1;
            }
            i = i + 1;
        }
        proof {
            lemma_spawned_len(self.spawners@, sn as int);
        }
        if self.id_allocator > u64::MAX - cnt {
            return false;
        }
        let cols = self.collector_position_vec();
        let mn = self.monsters.len();
        let mut leak: u64 = 0;
        let mut i2: usize = 0;
        while i2 < mn
            invariant
                i2 <= mn,
                mn == self.monsters@.len(),
                cols@ == self.collector_positions(),
                leak == leak_total(cols@, self.monsters@, i2 as int),
            decreases mn - i2,
        {
            let pos = self.monsters[i2].position;
            if contains_position(&cols, &pos) {
                let hp = self.monsters[i2].object.hp;
                if leak > u64::MAX - hp {
                    proof {
                        lemma_leak_total_mono(cols@, self.monsters@, i2 as int + 1, mn as int);
                    }
                    return false;
                }
                leak = leak + hp;
            }
            i2 = i2 + 1;
        }
        let dn = self.drops.len();
        let mut coll: u64 = 0;
        let mut i3: usize = 0;
        while i3 < dn
            invariant
                i3 <= dn,
                dn == self.drops@.len(),
                cols@ == self.collector_positions(),
                coll == collect_total(cols@, self.drops@, i3 as int),
            decreases dn - i3,
        {
            let pos = self.drops[i3].position;
            if contains_position(&cols, &pos) {
                let delta = self.drops[i3].object.delta;
                if coll > u64::MAX - delta {
                    proof {
                        lemma_collect_total_mono(cols@, self.drops@, i3 as int + 1, dn as int);
                    }
                    return false;
                }
                coll = coll + delta;
            }
            i3 = i3 + 1;
        }
        let tn = self.towers.len();
        let mut j: usize = 0;
        while j < tn
            invariant
                j <= tn,
                tn == self.towers@.len(),
                mn == self.monsters@.len(),
                forall|a: int, b: int|
                    0 <= a < mn && 0 <= b < j ==> (#[trigger] self.towers@[b]).object.reward + (
                    #[trigger] self.monsters@[a]).object.hit + self.monsters@[a].object.kill
                        <= u64::MAX,
            decreases tn - j,
        {
            let reward = self.towers[j].object.reward;
            let mut a: usize = 0;
            while a < mn
                invariant
                    a <= mn,
                    mn == self.monsters@.len(),
                    j < tn,
                    tn == self.towers@.len(),
                    reward == self.towers@[j as int].object.reward,
                    forall|p: int|
                        0 <= p < a ==> reward + (#[trigger] self.monsters@[p]).object.hit
                            + self.monsters@[p].object.kill <= u64::MAX,
                decreases mn - a,
            {
                let hit = self.monsters[a].object.hit;
                let kill = self.monsters[a].object.kill;
                if kill > u64::MAX - hit {
                    return false;
                }
                if reward > u64::MAX - (hit + kill) {
                    return false;
                }
                a = a + 1;
            }
            j = j + 1;
        }
        true
    }
}

} // verus!
