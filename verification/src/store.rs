//! A reference model of the content-addressed key-value store the engine
//! persists into: fixed four-word keys, word-sequence values, `get`
//! returning empty for an absent key.  Snapshots live under the all-zero
//! key; inventory and player records under their id-derived keys.

use vstd::prelude::*;
use crate::codec::Snapshot;
use crate::codec::decode_snapshot;
use crate::codec::decode_inventory;
use crate::codec::enc_inventory;
use crate::codec::enc_snapshot;
use crate::codec::encode_inventory;
use crate::codec::encode_state;
use crate::codec::sdec_inventory;
use crate::codec::sdec_snapshot;
use crate::codec::snapshot_of;
use crate::object::Collector;
use crate::object::InventoryObject;
use crate::object::Monster;
use crate::object::Spawner;
use crate::player::Player;
use crate::player::enc_player;
use crate::player::sdec_player;
use crate::state::PositionedObject;
use crate::state::State;
use crate::tile::RectCoordinate;

verus! {

/// One stored binding.
pub struct KvEntry {
    pub key: [u64; 4],
    pub value: Vec<u64>,
}

/// First-match lookup over the entry log: a newer binding for a key
/// shadows an older one.
pub open spec fn kv_lookup(entries: Seq<KvEntry>, key: Seq<u64>) -> Option<Seq<u64>>
    decreases entries.len(),
{
    if entries.len() == 0 {
        None
    } else if entries[0].key@ == key {
        Some(entries[0].value@)
    } else {
        kv_lookup(entries.subrange(1, entries.len() as int), key)
    }
}

/// The store: a log of bindings, newest first.
pub struct KvStore {
    pub entries: Vec<KvEntry>,
}

impl KvStore {
    pub fn new() -> (r: KvStore)
        ensures
            r.entries@.len() == 0,
            forall|k: Seq<u64>| kv_lookup(r.entries@, k) is None,
    {
        KvStore { entries: Vec::new() }
    }

    /// The value bound to `key`, or the empty sequence when absent.
    pub fn get(&self, key: &[u64; 4]) -> (r: Vec<u64>)
        ensures
            match kv_lookup(self.entries@, key@) {
                Some(v) => r@ == v,
                None => r@.len() == 0,
            },
    {
        let n = self.entries.len();
        proof {
            assert(self.entries@.subrange(0, n as int) =~= self.entries@);
        }
        let mut i: usize = 0;
        while i < n
            invariant
                i <= n,
                n == self.entries@.len(),
                kv_lookup(self.entries@, key@) == kv_lookup(
                    self.entries@.subrange(i as int, n as int),
                    key@,
                ),
            decreases n - i,
        {
            let e = &self.entries[i];
            if e.key[0] == key[0] && e.key[1] == key[1] && e.key[2] == key[2] && e.key[3]
                == key[3] {
                proof {
                    assert(self.entries@.subrange(i as int, n as int)[0] == self.entries@[i as int]);
                    assert(self.entries@[i as int].key@ =~= key@);
                }
                let m = e.value.len();
                let mut out: Vec<u64> = Vec::new();
                let mut j: usize = 0;
                while j < m
                    invariant
                        j <= m,
                        m == self.entries@[i as int].value@.len(),
                        i < n == self.entries@.len(),
                        out@ == self.entries@[i as int].value@.subrange(0, j as int),
                    decreases m - j,
                {
                    out.push(self.entries[i].value[j]);
                    proof {
                        assert(out@ =~= self.entries@[i as int].value@.subrange(0, j as int + 1));
                    }
                    j = j + 1;
                }
                proof {
                    assert(self.entries@[i as int].value@.subrange(0, m as int) =~= self.entries@[
                        i as int
                    ].value@);
                }
                return out;
            }
            proof {
                let sub = self.entries@.subrange(i as int, n as int);
                assert(sub[0] == self.entries@[i as int]);
                assert(!(sub[0].key@ =~= key@)) by {
                    if sub[0].key@ =~= key@ {
                        assert(self.entries@[i as int].key@[0] == key@[0]);
                        assert(self.entries@[i as int].key@[1] == key@[1]);
                        assert(self.entries@[i as int].key@[2] == key@[2]);
                        assert(self.entries@[i as int].key@[3] == key@[3]);
                    }
                }
                assert(sub.subrange(1, sub.len() as int) =~= self.entries@.subrange(
                    i as int + 1,
                    n as int,
                ));
            }
            i = i + 1;
        }
        Vec::new()
    }

    /// Binds `key` to `value`, shadowing any earlier binding; every other
    /// key is untouched.
    pub fn set(&mut self, key: &[u64; 4], value: &Vec<u64>)
        ensures
            kv_lookup(final(self).entries@, key@) == Some(value@),
            forall|k: Seq<u64>|
                k != key@ ==> #[trigger] kv_lookup(final(self).entries@, k) == kv_lookup(
                    old(self).entries@,
                    k,
                ),
    {
        let m = value.len();
        let mut copied: Vec<u64> = Vec::new();
        let mut j: usize = 0;
        while j < m
            invariant
                j <= m,
                m == value@.len(),
                copied@ == value@.subrange(0, j as int),
            decreases m - j,
        {
            copied.push(value[j]);
            proof {
                assert(copied@ =~= value@.subrange(0, j as int + 1));
            }
            j = j + 1;
        }
        proof {
            assert(value@.subrange(0, m as int) =~= value@);
        }
        let entry = KvEntry { key: *key, value: copied };
        self.entries.insert(0, entry);
        proof {
            let es = self.entries@;
            assert(es[0].key@ =~= key@);
            assert(es.subrange(1, es.len() as int) =~= old(self).entries@);
            assert forall|k: Seq<u64>| k != key@ implies #[trigger] kv_lookup(es, k) == kv_lookup(
                old(self).entries@,
                k,
            ) by {
                assert(!(es[0].key@ == k));
            }
        }
    }
}

/// The fixed all-zero key of the single world snapshot.
pub open spec fn zero_key() -> Seq<u64> {
    seq![0u64, 0u64, 0u64, 0u64]
}

/// The key of a player record: the two id limbs, zero-padded.
pub open spec fn player_key(pid: (u64, u64)) -> Seq<u64> {
    seq![pid.0, pid.1, 0u64, 0u64]
}

impl State {
    /// Persists the world snapshot under the all-zero key.
    pub fn store(&self, kv: &mut KvStore)
        requires
            self.wf(),
        ensures
            kv_lookup(final(kv).entries@, zero_key()) == Some(enc_snapshot(snapshot_of(*self))),
            forall|k: Seq<u64>|
                k != zero_key() ==> #[trigger] kv_lookup(final(kv).entries@, k) == kv_lookup(
                    old(kv).entries@,
                    k,
                ),
    {
        let data = encode_state(self);
        let key = [0u64, 0u64, 0u64, 0u64];
        proof {
            assert(key@ =~= zero_key());
        }
        kv.set(&key, &data);
    }

    /// Loads the world snapshot back: absent or empty means no snapshot;
    /// a present value that is not a snapshot is store corruption, a
    /// fatal condition.
    pub fn fetch(kv: &KvStore) -> (r: Result<Option<Snapshot>, u32>)
        ensures
            match kv_lookup(kv.entries@, zero_key()) {
                None => r == Ok::<Option<Snapshot>, u32>(None),
                Some(d) => {
                    if d.len() == 0 {
                        r == Ok::<Option<Snapshot>, u32>(None)
                    } else {
                        match sdec_snapshot(d, 0) {
                            Some(w) => r matches Ok(Some(snap)) && snap.model() == w.0,
                            None => r == Err::<Option<Snapshot>, u32>(
                                crate::command::FATAL_STORE_CORRUPT,
                            ),
                        }
                    }
                },
            },
    {
        let key = [0u64, 0u64, 0u64, 0u64];
        proof {
            assert(key@ =~= zero_key());
        }
        let data = kv.get(&key);
        if data.len() == 0 {
            return Ok(None);
        }
        match decode_snapshot(&data, 0) {
            Some(v) => Ok(Some(v.0)),
            None => Err(crate::command::FATAL_STORE_CORRUPT),
        }
    }
}

impl InventoryObject {
    /// Loads one inventory record by its full key: absent gives `None`,
    /// a value that is not a record is store corruption.
    pub fn get(kv: &KvStore, object_id: &[u64; 4]) -> (r: Result<Option<InventoryObject>, u32>)
        ensures
            match kv_lookup(kv.entries@, object_id@) {
                None => r == Ok::<Option<InventoryObject>, u32>(None),
                Some(d) => {
                    if d.len() == 0 {
                        r == Ok::<Option<InventoryObject>, u32>(None)
                    } else {
                        match sdec_inventory(d, 0) {
                            Some(w) => r == Ok::<Option<InventoryObject>, u32>(Some(w.0)),
                            None => r == Err::<Option<InventoryObject>, u32>(
                                crate::command::FATAL_STORE_CORRUPT,
                            ),
                        }
                    }
                },
            },
    {
        let data = kv.get(object_id);
        if data.len() == 0 {
            return Ok(None);
        }
        match decode_inventory(&data, 0) {
            Some(v) => Ok(Some(v.0)),
            None => Err(crate::command::FATAL_STORE_CORRUPT),
        }
    }

    /// Persists this record under its full key.
    pub fn store(&self, kv: &mut KvStore)
        ensures
            kv_lookup(final(kv).entries@, crate::object::full_obj_id(self.object_id)) == Some(
                enc_inventory(*self),
            ),
            forall|k: Seq<u64>|
                k != crate::object::full_obj_id(self.object_id) ==> #[trigger] kv_lookup(
                    final(kv).entries@,
                    k,
                ) == kv_lookup(old(kv).entries@, k),
    {
        let key = crate::object::to_full_obj_id(self.object_id);
        let mut data: Vec<u64> = Vec::new();
        encode_inventory(self, &mut data);
        kv.set(&key, &data);
    }
}

impl Player {
    /// Loads one player record by id: absent gives `None`, a value that
    /// is not a record is store corruption.
    pub fn get_from_pid(kv: &KvStore, pid: (u64, u64)) -> (r: Result<Option<Player>, u32>)
        ensures
            match kv_lookup(kv.entries@, player_key(pid)) {
                None => r == Ok::<Option<Player>, u32>(None),
                Some(d) => {
                    if d.len() == 0 {
                        r == Ok::<Option<Player>, u32>(None)
                    } else {
                        match sdec_player(d, 0) {
                            Some(w) => r matches Ok(Some(p)) && p.player_id == pid && p.nonce
                                == w.0.0 && p.data.inventory@ == w.0.1 && p.data.reward == w.0.2,
                            None => r == Err::<Option<Player>, u32>(
                                crate::command::FATAL_STORE_CORRUPT,
                            ),
                        }
                    }
                },
            },
    {
        let key = [pid.0, pid.1, 0u64, 0u64];
        proof {
            assert(key@ =~= player_key(pid));
        }
        let data = kv.get(&key);
        if data.len() == 0 {
            return Ok(None);
        }
        match Player::decode(&data, 0, pid) {
            Some(v) => Ok(Some(v.0)),
            None => Err(crate::command::FATAL_STORE_CORRUPT),
        }
    }

    /// Persists this player's record under its id key.
    pub fn store(&self, kv: &mut KvStore)
        ensures
            kv_lookup(final(kv).entries@, player_key(self.player_id)) == Some(
                enc_player(self.nonce, self.data.inventory@, self.data.reward),
            ),
            forall|k: Seq<u64>|
                k != player_key(self.player_id) ==> #[trigger] kv_lookup(final(kv).entries@, k)
                    == kv_lookup(old(kv).entries@, k),
    {
        let key = [self.player_id.0, self.player_id.1, 0u64, 0u64];
        proof {
            assert(key@ =~= player_key(self.player_id));
        }
        let mut data: Vec<u64> = Vec::new();
        self.encode(&mut data);
        kv.set(&key, &data);
    }
}


// ===== rebuilding a world from a snapshot =====

/// A snapshot fits a `width` by `height` grid when every position lies
/// inside it, all ids are positive, bounded by the allocator and
/// pairwise distinct, every placed inventory record holds a tower, and
/// no two stationary objects share a position.  Anything else is store
/// corruption.
pub open spec fn snapshot_valid(m: crate::codec::SnapshotModel, width: int, height: int) -> bool {
    &&& forall|i: int|
        0 <= i < m.monsters.len() ==> (#[trigger] m.monsters[i]).position.x < width
            && m.monsters[i].position.y < height
    &&& forall|i: int|
        0 <= i < m.spawners.len() ==> (#[trigger] m.spawners[i]).position.x < width
            && m.spawners[i].position.y < height
    &&& forall|i: int|
        0 <= i < m.collectors.len() ==> (#[trigger] m.collectors[i]).position.x < width
            && m.collectors[i].position.y < height
    &&& forall|i: int|
        0 <= i < m.towers.len() ==> (#[trigger] m.towers[i]).position.x < width
            && m.towers[i].position.y < height
    &&& crate::seqs::ids_bounded(snapshot_ids(m), m.id_allocator)
    &&& crate::seqs::distinct_seq(snapshot_ids(m))
    &&& crate::seqs::distinct_seq(snapshot_stationary(m))
    &&& forall|i: int| 0 <= i < m.towers.len() ==> (#[trigger] m.towers[i]).object.object is Tower
}

/// Every id of the snapshot, in collection order.
pub open spec fn snapshot_ids(m: crate::codec::SnapshotModel) -> Seq<u64> {
    ((m.monsters.map_values(|p: PositionedObject<Monster>| p.id) + m.spawners.map_values(
        |p: PositionedObject<Spawner>| p.id,
    )) + m.collectors.map_values(|p: PositionedObject<Collector>| p.id)) + m.towers.map_values(
        |p: PositionedObject<InventoryObject>| p.id,
    )
}

/// Every stationary position of the snapshot, in collection order.
pub open spec fn snapshot_stationary(m: crate::codec::SnapshotModel) -> Seq<RectCoordinate> {
    (m.spawners.map_values(|p: PositionedObject<Spawner>| p.position) + m.collectors.map_values(
        |p: PositionedObject<Collector>| p.position,
    )) + m.towers.map_values(|p: PositionedObject<InventoryObject>| p.position)
}

/// Are all positions of the collection inside the grid?
fn positions_in_grid<O>(v: &Vec<PositionedObject<O>>, width: usize, height: usize) -> (r: bool)
    ensures
        r == (forall|i: int|
            0 <= i < v@.len() ==> (#[trigger] v@[i]).position.x < width && v@[i].position.y
                < height),
{
    let n = v.len();
    let mut i: usize = 0;
    while i < n
        invariant
            i <= n,
            n == v@.len(),
            forall|j: int|
                0 <= j < i ==> (#[trigger] v@[j]).position.x < width && v@[j].position.y < height,
        decreases n - i,
    {
        if !(v[i].position.x < width as u64 && v[i].position.y < height as u64) {
            return false;
        }
        i = i + 1;
    }
    true
}

/// Appends the collection's ids.
fn gather_ids<O>(v: &Vec<PositionedObject<O>>, out: &mut Vec<u64>)
    ensures
        final(out)@ == old(out)@ + v@.map_values(|p: PositionedObject<O>| p.id),
{
    let n = v.len();
    let mut i: usize = 0;
    while i < n
        invariant
            i <= n,
            n == v@.len(),
            out@ == old(out)@ + v@.map_values(|p: PositionedObject<O>| p.id).subrange(
                0,
                i as int,
            ),
        decreases n - i,
    {
        out.push(v[i].id);
        proof {
            assert(out@ =~= old(out)@ + v@.map_values(|p: PositionedObject<O>| p.id).subrange(
                0,
                i as int + 1,
            ));
        }
        i = i + 1;
    }
    proof {
        assert(v@.map_values(|p: PositionedObject<O>| p.id).subrange(0, n as int)
            =~= v@.map_values(|p: PositionedObject<O>| p.id));
    }
}

/// Appends the collection's positions.
fn gather_positions<O>(v: &Vec<PositionedObject<O>>, out: &mut Vec<RectCoordinate>)
    ensures
        final(out)@ == old(out)@ + v@.map_values(|p: PositionedObject<O>| p.position),
{
    let n = v.len();
    let mut i: usize = 0;
    while i < n
        invariant
            i <= n,
            n == v@.len(),
            out@ == old(out)@ + v@.map_values(|p: PositionedObject<O>| p.position).subrange(
                0,
                i as int,
            ),
        decreases n - i,
    {
        out.push(v[i].position);
        proof {
            assert(out@ =~= old(out)@ + v@.map_values(
                |p: PositionedObject<O>| p.position,
            ).subrange(0, i as int + 1));
        }
        i = i + 1;
    }
    proof {
        assert(v@.map_values(|p: PositionedObject<O>| p.position).subrange(0, n as int)
            =~= v@.map_values(|p: PositionedObject<O>| p.position));
    }
}

/// Are the ids positive, bounded by `hi` and pairwise distinct?
fn ids_ok_check(v: &Vec<u64>, hi: u64) -> (r: bool)
    ensures
        r == (crate::seqs::ids_bounded(v@, hi) && crate::seqs::distinct_seq(v@)),
{
    let n = v.len();
    let mut i: usize = 0;
    while i < n
        invariant
            i <= n,
            n == v@.len(),
            forall|j: int| 0 <= j < i ==> 1 <= #[trigger] v@[j] <= hi,
        decreases n - i,
    {
        if !(1 <= v[i] && v[i] <= hi) {
            return false;
        }
        i = i + 1;
    }
    let mut a: usize = 0;
    while a < n
        invariant
            a <= n,
            n == v@.len(),
            forall|p: int, q: int| 0 <= p < q < n && p < a ==> v@[p] != v@[q],
            crate::seqs::ids_bounded(v@, hi),
        decreases n - a,
    {
        let mut b: usize = a + 1;
        while b < n
            invariant
                a < b <= n || (a + 1 == b && b > n),
                a < n,
                n == v@.len(),
                forall|q: int| a < q < b ==> v@[a as int] != v@[q],
            decreases n - b,
        {
            if v[a] == v[b] {
                return false;
            }
            b = b + 1;
        }
        proof {
            assert forall|p: int, q: int| 0 <= p < q < n && p < a + 1 implies v@[p] != v@[q] by {
                if p < a {
                } else {
                    assert(p == a);
                }
            }
        }
        a = a + 1;
    }
    true
}

/// Are the positions pairwise distinct?
fn positions_distinct_check(v: &Vec<RectCoordinate>) -> (r: bool)
    ensures
        r == crate::seqs::distinct_seq(v@),
{
    let n = v.len();
    let mut a: usize = 0;
    while a < n
        invariant
            a <= n,
            n == v@.len(),
            forall|p: int, q: int| 0 <= p < q < n && p < a ==> v@[p] != v@[q],
        decreases n - a,
    {
        let mut b: usize = a + 1;
        while b < n
            invariant
                a < b <= n || (a + 1 == b && b > n),
                a < n,
                n == v@.len(),
                forall|q: int| a < q < b ==> v@[a as int] != v@[q],
            decreases n - b,
        {
            if v[a] == v[b] {
                return false;
            }
            b = b + 1;
        }
        proof {
            assert forall|p: int, q: int| 0 <= p < q < n && p < a + 1 implies v@[p] != v@[q] by {
                if p < a {
                } else {
                    assert(p == a);
                }
            }
        }
        a = a + 1;
    }
    true
}

/// Does every placed inventory record hold a tower?
fn towers_hold_towers(v: &Vec<PositionedObject<InventoryObject>>) -> (r: bool)
    ensures
        r == (forall|i: int| 0 <= i < v@.len() ==> (#[trigger] v@[i]).object.object is Tower),
{
    let n = v.len();
    let mut i: usize = 0;
    while i < n
        invariant
            i <= n,
            n == v@.len(),
            forall|j: int| 0 <= j < i ==> (#[trigger] v@[j]).object.object is Tower,
        decreases n - i,
    {
        match v[i].object.object {
            crate::object::Object::Tower(_) => {},
            _ => {
                return false;
            },
        }
        i = i + 1;
    }
    true
}

/// Marks the tile under each position occupied, leaving features alone.
fn mark_positions(map: &mut crate::tile::TileMap, ps: &Vec<RectCoordinate>)
    requires
        old(map).wf(),
        forall|i: int|
            0 <= i < ps@.len() ==> (#[trigger] ps@[i]).x < old(map).width && ps@[i].y < old(
                map,
            ).height,
    ensures
        final(map).wf(),
        final(map).width == old(map).width,
        final(map).height == old(map).height,
        final(map).tiles@.len() == old(map).tiles@.len(),
        forall|k: int|
            0 <= k < old(map).tiles@.len() ==> (#[trigger] final(map).tiles@[k]).feature == old(
                map,
            ).tiles@[k].feature,
        forall|k: int|
            0 <= k < old(map).tiles@.len() ==> (((#[trigger] final(map).tiles@[k]).occupied != 0)
                <==> (old(map).tiles@[k].occupied != 0 || crate::state::hits(
                ps@,
                k,
                old(map).width as int,
            ))),
{
    let ghost m0 = *map;
    let n = ps.len();
    let mut i: usize = 0;
    while i < n
        invariant
            i <= n,
            n == ps@.len(),
            m0.wf(),
            map.wf(),
            map.width == m0.width,
            map.height == m0.height,
            map.tiles@.len() == m0.tiles@.len(),
            forall|j: int|
                0 <= j < n ==> (#[trigger] ps@[j]).x < m0.width && ps@[j].y < m0.height,
            forall|k: int|
                0 <= k < m0.tiles@.len() ==> (#[trigger] map.tiles@[k]).feature
                    == m0.tiles@[k].feature,
            forall|k: int|
                0 <= k < m0.tiles@.len() ==> (((#[trigger] map.tiles@[k]).occupied != 0) <==> (
                m0.tiles@[k].occupied != 0 || crate::state::hits(
                    ps@.subrange(0, i as int),
                    k,
                    m0.width as int,
                ))),
        decreases n - i,
    {
        let pos = ps[i];
        map.set_occupy(&pos, 1);
        proof {
            let w = m0.width as int;
            let t0 = crate::tile::spec_index_of(ps@[i as int], w);
            crate::tile::lemma_coordinate_index_in_range(ps@[i as int], w, m0.height as int);
            let pre = ps@.subrange(0, i as int);
            let cur = ps@.subrange(0, i as int + 1);
            assert(cur =~= pre.push(ps@[i as int]));
            assert forall|k: int|
                0 <= k < m0.tiles@.len() implies (((#[trigger] map.tiles@[k]).occupied != 0) <==> (
            m0.tiles@[k].occupied != 0 || crate::state::hits(cur, k, w))) by {
                if k == t0 {
                    assert(cur[i as int] == ps@[i as int]);
                    assert(crate::state::hits(cur, t0, w));
                } else {
                    if crate::state::hits(cur, k, w) {
                        let j = choose|j: int|
                            0 <= j < cur.len() && crate::tile::spec_index_of(
                                #[trigger] cur[j],
                                w,
                            ) == k;
                        assert(j < pre.len());
                        assert(pre[j] == cur[j]);
                        assert(crate::state::hits(pre, k, w));
                    }
                    if crate::state::hits(pre, k, w) {
                        let j = choose|j: int|
                            0 <= j < pre.len() && crate::tile::spec_index_of(
                                #[trigger] pre[j],
                                w,
                            ) == k;
                        assert(cur[j] == pre[j]);
                        assert(crate::state::hits(cur, k, w));
                    }
                }
            }
        }
        i = i + 1;
    }
    proof {
        assert(ps@.subrange(0, n as int) =~= ps@);
    }
}

impl State {
    /// Rebuilds a world from a decoded snapshot on a fresh map layout:
    /// positions are checked against the grid, ids for uniqueness and
    /// the allocator bound, stationary objects for one-per-tile, placed
    /// records for holding towers, and every stationary tile is marked
    /// occupied.  A snapshot failing any check is store corruption, a
    /// fatal condition; an accepted one yields a well-formed world.
    pub fn restore(snap: Snapshot, map: crate::tile::TileMap) -> (r: Result<State, u32>)
        requires
            map.wf(),
            forall|k: int| 0 <= k < map.tiles@.len() ==> (#[trigger] map.tiles@[k]).occupied == 0,
        ensures
            r is Ok <==> snapshot_valid(snap.model(), map.width as int, map.height as int),
            r is Err ==> r == Err::<State, u32>(crate::command::FATAL_STORE_CORRUPT),
            r matches Ok(s) ==> {
                &&& s.wf()
                &&& s.id_allocator == snap.id_allocator
                &&& s.counter == snap.counter
                &&& s.monsters == snap.monsters
                &&& s.spawners == snap.spawners
                &&& s.collectors == snap.collectors
                &&& s.towers == snap.towers
                &&& s.drops@.len() == 0
                &&& s.events@.len() == 0
                &&& s.leaked == 0
                &&& s.collected == 0
                &&& s.map.width == map.width
                &&& s.map.height == map.height
                &&& forall|k: int|
                    0 <= k < map.tiles@.len() ==> (#[trigger] s.map.tiles@[k]).feature
                        == map.tiles@[k].feature
            },
    {
        let width = map.width;
        let height = map.height;
        if !positions_in_grid(&snap.monsters, width, height) {
            return Err(crate::command::FATAL_STORE_CORRUPT);
        }
        if !positions_in_grid(&snap.spawners, width, height) {
            return Err(crate::command::FATAL_STORE_CORRUPT);
        }
        if !positions_in_grid(&snap.collectors, width, height) {
            return Err(crate::command::FATAL_STORE_CORRUPT);
        }
        if !positions_in_grid(&snap.towers, width, height) {
            return Err(crate::command::FATAL_STORE_CORRUPT);
        }
        let mut ids: Vec<u64> = Vec::new();
        gather_ids(&snap.monsters, &mut ids);
        gather_ids(&snap.spawners, &mut ids);
        gather_ids(&snap.collectors, &mut ids);
        gather_ids(&snap.towers, &mut ids);
        proof {
            assert(ids@ =~= snapshot_ids(snap.model()));
        }
        if !ids_ok_check(&ids, snap.id_allocator) {
            return Err(crate::command::FATAL_STORE_CORRUPT);
        }
        let mut stationary: Vec<RectCoordinate> = Vec::new();
        gather_positions(&snap.spawners, &mut stationary);
        gather_positions(&snap.collectors, &mut stationary);
        gather_positions(&snap.towers, &mut stationary);
        proof {
            assert(stationary@ =~= snapshot_stationary(snap.model()));
        }
        if !positions_distinct_check(&stationary) {
            return Err(crate::command::FATAL_STORE_CORRUPT);
        }
        if !towers_hold_towers(&snap.towers) {
            return Err(crate::command::FATAL_STORE_CORRUPT);
        }
        let mut marked = map;
        mark_positions(&mut marked, &stationary);
        let s = State {
            id_allocator: snap.id_allocator,
            counter: snap.counter,
            map: marked,
            monsters: snap.monsters,
            drops: Vec::new(),
            collectors: snap.collectors,
            spawners: snap.spawners,
            towers: snap.towers,
            events: Vec::new(),
            leaked: 0,
            collected: 0,
        };
        proof {
            lemma_restore_wf(s, snap.model(), map, stationary@);
        }
        Ok(s)
    }
}

/// The rebuilt world is well-formed: the checked snapshot facts and the
/// marked map assemble into every clause of `State::wf`.
proof fn lemma_restore_wf(
    s: State,
    m: crate::codec::SnapshotModel,
    base: crate::tile::TileMap,
    stationary: Seq<RectCoordinate>,
)
    requires
        base.wf(),
        forall|k: int| 0 <= k < base.tiles@.len() ==> (#[trigger] base.tiles@[k]).occupied == 0,
        snapshot_valid(m, base.width as int, base.height as int),
        stationary == snapshot_stationary(m),
        s.id_allocator == m.id_allocator,
        s.monsters@ == m.monsters,
        s.spawners@ == m.spawners,
        s.collectors@ == m.collectors,
        s.towers@ == m.towers,
        s.drops@.len() == 0,
        s.map.wf(),
        s.map.width == base.width,
        s.map.height == base.height,
        s.map.tiles@.len() == base.tiles@.len(),
        forall|k: int|
            0 <= k < base.tiles@.len() ==> (((#[trigger] s.map.tiles@[k]).occupied != 0) <==> (
            base.tiles@[k].occupied != 0 || crate::state::hits(
                stationary,
                k,
                base.width as int,
            ))),
    ensures
        s.wf(),
{
    let w = base.width as int;
    let mids = m.monsters.map_values(|p: PositionedObject<Monster>| p.id);
    let sids = m.spawners.map_values(|p: PositionedObject<Spawner>| p.id);
    let cids = m.collectors.map_values(|p: PositionedObject<Collector>| p.id);
    let tids = m.towers.map_values(|p: PositionedObject<InventoryObject>| p.id);
    crate::seqs::lemma_distinct_concat_split(((mids + sids) + cids), tids);
    crate::seqs::lemma_distinct_concat_split((mids + sids), cids);
    crate::seqs::lemma_distinct_concat_split(mids, sids);
    crate::seqs::lemma_disjoint_concat_left_split((mids + sids), cids, tids);
    crate::seqs::lemma_disjoint_concat_left_split(mids, sids, tids);
    crate::seqs::lemma_disjoint_concat_left_split(mids, sids, cids);
    crate::seqs::lemma_bounded_concat_split(((mids + sids) + cids), tids, m.id_allocator);
    crate::seqs::lemma_bounded_concat_split((mids + sids), cids, m.id_allocator);
    crate::seqs::lemma_bounded_concat_split(mids, sids, m.id_allocator);
    assert(s.monster_ids() =~= mids);
    assert(s.spawner_ids() =~= sids);
    assert(s.collector_ids() =~= cids);
    assert(s.tower_ids() =~= tids);
    assert(s.drop_ids() =~= Seq::<u64>::empty());
    let sp = m.spawners.map_values(|p: PositionedObject<Spawner>| p.position);
    let cp = m.collectors.map_values(|p: PositionedObject<Collector>| p.position);
    let tp = m.towers.map_values(|p: PositionedObject<InventoryObject>| p.position);
    crate::seqs::lemma_distinct_concat_split((sp + cp), tp);
    crate::seqs::lemma_distinct_concat_split(sp, cp);
    crate::seqs::lemma_disjoint_concat_left_split(sp, cp, tp);
    assert(s.spawner_positions() =~= sp);
    assert(s.collector_positions() =~= cp);
    assert(s.tower_positions() =~= tp);
    assert forall|k: int|
        0 <= k < s.map.tiles@.len() implies (((#[trigger] s.map.tiles@[k]).occupied != 0) <==> (
    crate::state::hits(sp, k, w) || crate::state::hits(cp, k, w) || crate::state::hits(
        tp,
        k,
        w,
    ))) by {
        crate::state::lemma_hits_concat(sp + cp, tp, k, w);
        crate::state::lemma_hits_concat(sp, cp, k, w);
        assert(stationary =~= (sp + cp) + tp);
    }
}

} // verus!
