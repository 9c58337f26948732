//! The flat-array codec: every entity, collection and the whole world
//! snapshot map to a fixed-order sequence of unsigned 64-bit words, and
//! back.
//!
//! Wire layout (one word each unless noted):
//! - monster: `born, hp, hit, kill`
//! - tower: `lvl, range, power, cooldown, count, owner.0, owner.1,
//!   direction tag`
//! - spawner: `rate, count, seq`
//! - collector: `buf`; dropped: `delta`
//! - object: a tag word (0 monster, 1 tower, 2 spawner, 3 dropped,
//!   4 collector) before the body
//! - placed object: `id, packed position` before the object body, the
//!   position packed as `x * 2^32 + y`
//! - inventory record: object body, then `reward`, then the low id word
//! - world snapshot: `id_allocator, counter, n_monsters, n_spawners,
//!   n_collectors, n_towers`, then the four collections in that order
//!
//! Decoding consumes exactly the words encoding appended and fails loudly
//! (`None`) on a truncated input or a tag outside the table.

use vstd::prelude::*;
use crate::object::Collector;
use crate::object::Dropped;
use crate::object::InventoryObject;
use crate::object::Monster;
use crate::object::Object;
use crate::object::Spawner;
use crate::object::Tower;
use crate::state::PositionedObject;
use crate::tile::RectCoordinate;
use crate::tile::RectDirection;
use crate::tile::direction_code;
use crate::tile::code_of_direction;
use crate::tile::direction_of_code;

verus! {

// ===== positions =====

/// A position packed into one word: `x` in the high half, `y` in the low.
pub open spec fn pack_position(c: RectCoordinate) -> u64 {
    (c.x * 0x1_0000_0000 + c.y) as u64
}

pub open spec fn unpack_position(w: u64) -> RectCoordinate {
    RectCoordinate { x: w / 0x1_0000_0000, y: w % 0x1_0000_0000 }
}

/// Packing is lossless for positions whose components fit a half word.
pub proof fn lemma_position_roundtrip(c: RectCoordinate)
    requires
        c.x < 0x1_0000_0000,
        c.y < 0x1_0000_0000,
    ensures
        unpack_position(pack_position(c)) == c,
{
    let v = c.x * 0x1_0000_0000 + c.y;
    assert(v < 0x1_0000_0000_0000_0000) by (nonlinear_arith)
        requires
            0 <= c.x < 0x1_0000_0000,
            0 <= c.y < 0x1_0000_0000,
            v == c.x * 0x1_0000_0000 + c.y,
    ;
    assert(v / 0x1_0000_0000 == c.x && v % 0x1_0000_0000 == c.y) by (nonlinear_arith)
        requires
            0 <= c.x < 0x1_0000_0000,
            0 <= c.y < 0x1_0000_0000,
            v == c.x * 0x1_0000_0000 + c.y,
    ;
}

fn pack_position_exec(c: &RectCoordinate) -> (r: u64)
    requires
        c.x < 0x1_0000_0000,
        c.y < 0x1_0000_0000,
    ensures
        r == pack_position(*c),
{
    proof {
        assert(c.x * 0x1_0000_0000 + c.y < 0x1_0000_0000_0000_0000) by (nonlinear_arith)
            requires
                0 <= c.x < 0x1_0000_0000,
                0 <= c.y < 0x1_0000_0000,
        ;
    }
    c.x * 0x1_0000_0000 + c.y
}

fn unpack_position_exec(w: u64) -> (r: RectCoordinate)
    ensures
        r == unpack_position(w),
        r.x < 0x1_0000_0000,
        r.y < 0x1_0000_0000,
{
    proof {
        assert(w / 0x1_0000_0000 < 0x1_0000_0000 && w % 0x1_0000_0000 < 0x1_0000_0000)
            by (nonlinear_arith)
        ;
    }
    RectCoordinate { x: w / 0x1_0000_0000, y: w % 0x1_0000_0000 }
}

// ===== monsters =====

pub open spec fn enc_monster(m: Monster) -> Seq<u64> {
    seq![m.born, m.hp, m.hit, m.kill]
}

pub open spec fn sdec_monster(s: Seq<u64>, i: int) -> Option<(Monster, int)> {
    if 0 <= i && i + 4 <= s.len() {
        Some((Monster { born: s[i], hp: s[i + 1], hit: s[i + 2], kill: s[i + 3] }, i + 4))
    } else {
        None
    }
}

/// Decoding undoes encoding, wherever the encoding sits in the word
/// stream.
pub proof fn lemma_monster_roundtrip(m: Monster, pre: Seq<u64>, post: Seq<u64>)
    ensures
        sdec_monster(pre + enc_monster(m) + post, pre.len() as int) == Some(
            (m, pre.len() + 4 as int),
        ),
{
    let s = pre + enc_monster(m) + post;
    assert(s[pre.len() as int] == m.born);
    assert(s[pre.len() as int + 1] == m.hp);
    assert(s[pre.len() as int + 2] == m.hit);
    assert(s[pre.len() as int + 3] == m.kill);
}

pub fn encode_monster(m: &Monster, data: &mut Vec<u64>)
    ensures
        final(data)@ == old(data)@ + enc_monster(*m),
{
    data.push(m.born);
    data.push(m.hp);
    data.push(m.hit);
    data.push(m.kill);
    proof {
        assert(data@ =~= old(data)@ + enc_monster(*m));
    }
}

pub fn decode_monster(data: &Vec<u64>, pos: usize) -> (r: Option<(Monster, usize)>)
    ensures
        match r {
            Some(v) => sdec_monster(data@, pos as int) == Some((v.0, v.1 as int)),
            None => sdec_monster(data@, pos as int) is None,
        },
{
    if pos < data.len() && data.len() - pos >= 4 {
        let m = Monster { born: data[pos], hp: data[pos + 1], hit: data[pos + 2], kill: data[pos + 3] };
        Some((m, pos + 4))
    } else {
        None
    }
}

// ===== towers =====

pub open spec fn enc_tower(t: Tower) -> Seq<u64> {
    seq![
        t.lvl,
        t.range,
        t.power,
        t.cooldown,
        t.count,
        t.owner.0,
        t.owner.1,
        direction_code(t.direction),
    ]
}

/// The direction behind a wire tag below 4.
pub open spec fn spec_direction_of_code(c: u64) -> RectDirection {
    if c == 0 {
        RectDirection::Top
    } else if c == 1 {
        RectDirection::Bottom
    } else if c == 2 {
        RectDirection::Left
    } else {
        RectDirection::Right
    }
}

pub open spec fn sdec_tower(s: Seq<u64>, i: int) -> Option<(Tower, int)> {
    if 0 <= i && i + 8 <= s.len() && s[i + 7] < 4 {
        Some(
            (
                Tower {
                    lvl: s[i],
                    range: s[i + 1],
                    power: s[i + 2],
                    cooldown: s[i + 3],
                    count: s[i + 4],
                    owner: (s[i + 5], s[i + 6]),
                    direction: spec_direction_of_code(s[i + 7]),
                },
                i + 8,
            ),
        )
    } else {
        None
    }
}

pub proof fn lemma_tower_roundtrip(t: Tower, pre: Seq<u64>, post: Seq<u64>)
    ensures
        sdec_tower(pre + enc_tower(t) + post, pre.len() as int) == Some(
            (t, pre.len() + 8 as int),
        ),
{
    let s = pre + enc_tower(t) + post;
    assert(s[pre.len() as int + 7] == direction_code(t.direction));
    assert(spec_direction_of_code(direction_code(t.direction)) == t.direction);
    assert(s[pre.len() as int] == t.lvl);
    assert(s[pre.len() as int + 1] == t.range);
    assert(s[pre.len() as int + 2] == t.power);
    assert(s[pre.len() as int + 3] == t.cooldown);
    assert(s[pre.len() as int + 4] == t.count);
    assert(s[pre.len() as int + 5] == t.owner.0);
    assert(s[pre.len() as int + 6] == t.owner.1);
}

pub fn encode_tower(t: &Tower, data: &mut Vec<u64>)
    ensures
        final(data)@ == old(data)@ + enc_tower(*t),
{
    data.push(t.lvl);
    data.push(t.range);
    data.push(t.power);
    data.push(t.cooldown);
    data.push(t.count);
    data.push(t.owner.0);
    data.push(t.owner.1);
    data.push(code_of_direction(t.direction));
    proof {
        assert(data@ =~= old(data)@ + enc_tower(*t));
    }
}

pub fn decode_tower(data: &Vec<u64>, pos: usize) -> (r: Option<(Tower, usize)>)
    ensures
        match r {
            Some(v) => sdec_tower(data@, pos as int) == Some((v.0, v.1 as int)),
            None => sdec_tower(data@, pos as int) is None,
        },
{
    if pos < data.len() && data.len() - pos >= 8 {
        match direction_of_code(data[pos + 7]) {
            Some(direction) => {
                proof {
                    assert(spec_direction_of_code(data@[pos + 7]) == direction);
                }
                Some(
                    (
                        Tower {
                            lvl: data[pos],
                            range: data[pos + 1],
                            power: data[pos + 2],
                            cooldown: data[pos + 3],
                            count: data[pos + 4],
                            owner: (data[pos + 5], data[pos + 6]),
                            direction,
                        },
                        pos + 8,
                    ),
                )
            },
            None => None,
        }
    } else {
        None
    }
}

// ===== spawners, collectors, dropped =====

pub open spec fn enc_spawner(sp: Spawner) -> Seq<u64> {
    seq![sp.rate, sp.count, sp.seq]
}

pub open spec fn sdec_spawner(s: Seq<u64>, i: int) -> Option<(Spawner, int)> {
    if 0 <= i && i + 3 <= s.len() {
        Some((Spawner { rate: s[i], count: s[i + 1], seq: s[i + 2] }, i + 3))
    } else {
        None
    }
}

pub proof fn lemma_spawner_roundtrip(sp: Spawner, pre: Seq<u64>, post: Seq<u64>)
    ensures
        sdec_spawner(pre + enc_spawner(sp) + post, pre.len() as int) == Some(
            (sp, pre.len() + 3 as int),
        ),
{
    let s = pre + enc_spawner(sp) + post;
    assert(s[pre.len() as int] == sp.rate);
    assert(s[pre.len() as int + 1] == sp.count);
    assert(s[pre.len() as int + 2] == sp.seq);
}

pub fn encode_spawner(sp: &Spawner, data: &mut Vec<u64>)
    ensures
        final(data)@ == old(data)@ + enc_spawner(*sp),
{
    data.push(sp.rate);
    data.push(sp.count);
    data.push(sp.seq);
    proof {
        assert(data@ =~= old(data)@ + enc_spawner(*sp));
    }
}

pub fn decode_spawner(data: &Vec<u64>, pos: usize) -> (r: Option<(Spawner, usize)>)
    ensures
        match r {
            Some(v) => sdec_spawner(data@, pos as int) == Some((v.0, v.1 as int)),
            None => sdec_spawner(data@, pos as int) is None,
        },
{
    if pos < data.len() && data.len() - pos >= 3 {
        Some((Spawner { rate: data[pos], count: data[pos + 1], seq: data[pos + 2] }, pos + 3))
    } else {
        None
    }
}

pub open spec fn enc_collector(c: Collector) -> Seq<u64> {
    seq![c.buf]
}

pub open spec fn sdec_collector(s: Seq<u64>, i: int) -> Option<(Collector, int)> {
    if 0 <= i && i + 1 <= s.len() {
        Some((Collector { buf: s[i] }, i + 1))
    } else {
        None
    }
}

pub proof fn lemma_collector_roundtrip(c: Collector, pre: Seq<u64>, post: Seq<u64>)
    ensures
        sdec_collector(pre + enc_collector(c) + post, pre.len() as int) == Some(
            (c, pre.len() + 1 as int),
        ),
{
    let s = pre + enc_collector(c) + post;
    assert(s[pre.len() as int] == c.buf);
}

pub fn encode_collector(c: &Collector, data: &mut Vec<u64>)
    ensures
        final(data)@ == old(data)@ + enc_collector(*c),
{
    data.push(c.buf);
    proof {
        assert(data@ =~= old(data)@ + enc_collector(*c));
    }
}

pub fn decode_collector(data: &Vec<u64>, pos: usize) -> (r: Option<(Collector, usize)>)
    ensures
        match r {
            Some(v) => sdec_collector(data@, pos as int) == Some((v.0, v.1 as int)),
            None => sdec_collector(data@, pos as int) is None,
        },
{
    if pos < data.len() {
        Some((Collector { buf: data[pos] }, pos + 1))
    } else {
        None
    }
}

pub open spec fn enc_dropped(d: Dropped) -> Seq<u64> {
    seq![d.delta]
}

pub open spec fn sdec_dropped(s: Seq<u64>, i: int) -> Option<(Dropped, int)> {
    if 0 <= i && i + 1 <= s.len() {
        Some((Dropped { delta: s[i] }, i + 1))
    } else {
        None
    }
}

pub proof fn lemma_dropped_roundtrip(d: Dropped, pre: Seq<u64>, post: Seq<u64>)
    ensures
        sdec_dropped(pre + enc_dropped(d) + post, pre.len() as int) == Some(
            (d, pre.len() + 1 as int),
        ),
{
    let s = pre + enc_dropped(d) + post;
    assert(s[pre.len() as int] == d.delta);
}

pub fn encode_dropped(d: &Dropped, data: &mut Vec<u64>)
    ensures
        final(data)@ == old(data)@ + enc_dropped(*d),
{
    data.push(d.delta);
    proof {
        assert(data@ =~= old(data)@ + enc_dropped(*d));
    }
}

pub fn decode_dropped(data: &Vec<u64>, pos: usize) -> (r: Option<(Dropped, usize)>)
    ensures
        match r {
            Some(v) => sdec_dropped(data@, pos as int) == Some((v.0, v.1 as int)),
            None => sdec_dropped(data@, pos as int) is None,
        },
{
    if pos < data.len() {
        Some((Dropped { delta: data[pos] }, pos + 1))
    } else {
        None
    }
}

// ===== the tagged union =====

/// The versioned wire-tag table of the object union.
pub open spec fn object_tag(o: Object) -> u64 {
    match o {
        Object::Monster(_) => 0,
        Object::Tower(_) => 1,
        Object::Spawner(_) => 2,
        Object::Dropped(_) => 3,
        Object::Collector(_) => 4,
    }
}

pub open spec fn enc_object(o: Object) -> Seq<u64> {
    seq![object_tag(o)] + match o {
        Object::Monster(m) => enc_monster(m),
        Object::Tower(t) => enc_tower(t),
        Object::Spawner(sp) => enc_spawner(sp),
        Object::Dropped(d) => enc_dropped(d),
        Object::Collector(c) => enc_collector(c),
    }
}

pub open spec fn sdec_object(s: Seq<u64>, i: int) -> Option<(Object, int)> {
    if 0 <= i && i + 1 <= s.len() {
        let tag = s[i];
        if tag == 0 {
            match sdec_monster(s, i + 1) {
                Some(v) => Some((Object::Monster(v.0), v.1)),
                None => None,
            }
        } else if tag == 1 {
            match sdec_tower(s, i + 1) {
                Some(v) => Some((Object::Tower(v.0), v.1)),
                None => None,
            }
        } else if tag == 2 {
            match sdec_spawner(s, i + 1) {
                Some(v) => Some((Object::Spawner(v.0), v.1)),
                None => None,
            }
        } else if tag == 3 {
            match sdec_dropped(s, i + 1) {
                Some(v) => Some((Object::Dropped(v.0), v.1)),
                None => None,
            }
        } else if tag == 4 {
            match sdec_collector(s, i + 1) {
                Some(v) => Some((Object::Collector(v.0), v.1)),
                None => None,
            }
        } else {
            None
        }
    } else {
        None
    }
}

pub proof fn lemma_object_roundtrip(o: Object, pre: Seq<u64>, post: Seq<u64>)
    ensures
        sdec_object(pre + enc_object(o) + post, pre.len() as int) == Some(
            (o, pre.len() + enc_object(o).len() as int),
        ),
{
    let s = pre + enc_object(o) + post;
    let i = pre.len() as int;
    assert(s[i] == object_tag(o));
    match o {
        Object::Monster(m) => {
            assert(pre + enc_object(o) + post =~= (pre + seq![0u64]) + enc_monster(m) + post);
            lemma_monster_roundtrip(m, pre + seq![0u64], post);
        },
        Object::Tower(t) => {
            assert(pre + enc_object(o) + post =~= (pre + seq![1u64]) + enc_tower(t) + post);
            lemma_tower_roundtrip(t, pre + seq![1u64], post);
        },
        Object::Spawner(sp) => {
            assert(pre + enc_object(o) + post =~= (pre + seq![2u64]) + enc_spawner(sp) + post);
            lemma_spawner_roundtrip(sp, pre + seq![2u64], post);
        },
        Object::Dropped(d) => {
            assert(pre + enc_object(o) + post =~= (pre + seq![3u64]) + enc_dropped(d) + post);
            lemma_dropped_roundtrip(d, pre + seq![3u64], post);
        },
        Object::Collector(c) => {
            assert(pre + enc_object(o) + post =~= (pre + seq![4u64]) + enc_collector(c) + post);
            lemma_collector_roundtrip(c, pre + seq![4u64], post);
        },
    }
}

pub fn encode_object(o: &Object, data: &mut Vec<u64>)
    ensures
        final(data)@ == old(data)@ + enc_object(*o),
{
    match o {
        Object::Monster(m) => {
            data.push(0);
            encode_monster(m, data);
        },
        Object::Tower(t) => {
            data.push(1);
            encode_tower(t, data);
        },
        Object::Spawner(sp) => {
            data.push(2);
            encode_spawner(sp, data);
        },
        Object::Dropped(d) => {
            data.push(3);
            encode_dropped(d, data);
        },
        Object::Collector(c) => {
            data.push(4);
            encode_collector(c, data);
        },
    }
    proof {
        assert(data@ =~= old(data)@ + enc_object(*o));
    }
}

pub fn decode_object(data: &Vec<u64>, pos: usize) -> (r: Option<(Object, usize)>)
    ensures
        match r {
            Some(v) => sdec_object(data@, pos as int) == Some((v.0, v.1 as int)),
            None => sdec_object(data@, pos as int) is None,
        },
{
    if pos >= data.len() {
        return None;
    }
    let tag = data[pos];
    if tag == 0 {
        match decode_monster(data, pos + 1) {
            Some(v) => Some((Object::Monster(v.0), v.1)),
            None => None,
        }
    } else if tag == 1 {
        match decode_tower(data, pos + 1) {
            Some(v) => Some((Object::Tower(v.0), v.1)),
            None => None,
        }
    } else if tag == 2 {
        match decode_spawner(data, pos + 1) {
            Some(v) => Some((Object::Spawner(v.0), v.1)),
            None => None,
        }
    } else if tag == 3 {
        match decode_dropped(data, pos + 1) {
            Some(v) => Some((Object::Dropped(v.0), v.1)),
            None => None,
        }
    } else if tag == 4 {
        match decode_collector(data, pos + 1) {
            Some(v) => Some((Object::Collector(v.0), v.1)),
            None => None,
        }
    } else {
        None
    }
}

// ===== inventory records =====

pub open spec fn enc_inventory(io: InventoryObject) -> Seq<u64> {
    enc_object(io.object) + seq![io.reward, io.object_id]
}

pub open spec fn sdec_inventory(s: Seq<u64>, i: int) -> Option<(InventoryObject, int)> {
    match sdec_object(s, i) {
        Some(v) => {
            let j = v.1;
            if j + 2 <= s.len() {
                Some((InventoryObject { object: v.0, reward: s[j], object_id: s[j + 1] }, j + 2))
            } else {
                None
            }
        },
        None => None,
    }
}

pub proof fn lemma_inventory_roundtrip(io: InventoryObject, pre: Seq<u64>, post: Seq<u64>)
    ensures
        sdec_inventory(pre + enc_inventory(io) + post, pre.len() as int) == Some(
            (io, pre.len() + enc_inventory(io).len() as int),
        ),
{
    let tail = seq![io.reward, io.object_id];
    assert(pre + enc_inventory(io) + post =~= pre + enc_object(io.object) + (tail + post));
    lemma_object_roundtrip(io.object, pre, tail + post);
    let s = pre + enc_inventory(io) + post;
    let j = pre.len() + enc_object(io.object).len();
    assert(s[j as int] == io.reward);
    assert(s[j as int + 1] == io.object_id);
}

pub fn encode_inventory(io: &InventoryObject, data: &mut Vec<u64>)
    ensures
        final(data)@ == old(data)@ + enc_inventory(*io),
{
    encode_object(&io.object, data);
    data.push(io.reward);
    data.push(io.object_id);
    proof {
        assert(data@ =~= old(data)@ + enc_inventory(*io));
    }
}

pub fn decode_inventory(data: &Vec<u64>, pos: usize) -> (r: Option<(InventoryObject, usize)>)
    ensures
        match r {
            Some(v) => sdec_inventory(data@, pos as int) == Some((v.0, v.1 as int)),
            None => sdec_inventory(data@, pos as int) is None,
        },
{
    match decode_object(data, pos) {
        Some(v) => {
            let j = v.1;
            if j < data.len() && data.len() - j >= 2 {
                Some((InventoryObject { object: v.0, reward: data[j], object_id: data[j + 1] }, j + 2))
            } else {
                None
            }
        },
        None => None,
    }
}


proof fn lemma_monster_body_roundtrip(m: Monster, pre: Seq<u64>, post: Seq<u64>)
    ensures
        sdec_monster(pre + enc_monster(m) + post, pre.len() as int) == Some(
            (m, pre.len() + enc_monster(m).len() as int),
        ),
{
    lemma_monster_roundtrip(m, pre, post);
}

proof fn lemma_spawner_body_roundtrip(sp: Spawner, pre: Seq<u64>, post: Seq<u64>)
    ensures
        sdec_spawner(pre + enc_spawner(sp) + post, pre.len() as int) == Some(
            (sp, pre.len() + enc_spawner(sp).len() as int),
        ),
{
    lemma_spawner_roundtrip(sp, pre, post);
}

proof fn lemma_collector_body_roundtrip(c: Collector, pre: Seq<u64>, post: Seq<u64>)
    ensures
        sdec_collector(pre + enc_collector(c) + post, pre.len() as int) == Some(
            (c, pre.len() + enc_collector(c).len() as int),
        ),
{
    lemma_collector_roundtrip(c, pre, post);
}

proof fn lemma_inventory_body_roundtrip(io: InventoryObject, pre: Seq<u64>, post: Seq<u64>)
    ensures
        sdec_inventory(pre + enc_inventory(io) + post, pre.len() as int) == Some(
            (io, pre.len() + enc_inventory(io).len() as int),
        ),
{
    lemma_inventory_roundtrip(io, pre, post);
}


pub open spec fn enc_pos_monster(p: PositionedObject<Monster>) -> Seq<u64> {
    seq![p.id, pack_position(p.position)] + enc_monster(p.object)
}

pub open spec fn sdec_pos_monster(s: Seq<u64>, i: int) -> Option<(PositionedObject<Monster>, int)> {
    if 0 <= i && i + 2 <= s.len() {
        match sdec_monster(s, i + 2) {
            Some(v) => Some(
                (PositionedObject { id: s[i], position: unpack_position(s[i + 1]), object: v.0 }, v.1),
            ),
            None => None,
        }
    } else {
        None
    }
}

pub proof fn lemma_pos_monster_roundtrip(p: PositionedObject<Monster>, pre: Seq<u64>, post: Seq<u64>)
    requires
        p.position.x < 0x1_0000_0000,
        p.position.y < 0x1_0000_0000,
    ensures
        sdec_pos_monster(pre + enc_pos_monster(p) + post, pre.len() as int) == Some(
            (p, pre.len() + enc_pos_monster(p).len() as int),
        ),
{
    let head = seq![p.id, pack_position(p.position)];
    assert(pre + enc_pos_monster(p) + post =~= (pre + head) + enc_monster(p.object) + post);
    lemma_monster_body_roundtrip_at(p, pre, post);
    lemma_position_roundtrip(p.position);
    let s = pre + enc_pos_monster(p) + post;
    assert(s[pre.len() as int] == p.id);
    assert(s[pre.len() as int + 1] == pack_position(p.position));
}

pub fn encode_pos_monster(p: &PositionedObject<Monster>, data: &mut Vec<u64>)
    requires
        p.position.x < 0x1_0000_0000,
        p.position.y < 0x1_0000_0000,
    ensures
        final(data)@ == old(data)@ + enc_pos_monster(*p),
{
    data.push(p.id);
    let packed = pack_position_exec(&p.position);
    data.push(packed);
    encode_monster(&p.object, data);
    proof {
        assert(data@ =~= old(data)@ + enc_pos_monster(*p));
    }
}

pub fn decode_pos_monster(data: &Vec<u64>, pos: usize) -> (r: Option<
    (PositionedObject<Monster>, usize),
>)
    ensures
        match r {
            Some(v) => sdec_pos_monster(data@, pos as int) == Some((v.0, v.1 as int)),
            None => sdec_pos_monster(data@, pos as int) is None,
        },
{
    if pos < data.len() && data.len() - pos >= 2 {
        match decode_monster(data, pos + 2) {
            Some(v) => {
                let position = unpack_position_exec(data[pos + 1]);
                Some((PositionedObject { id: data[pos], position, object: v.0 }, v.1))
            },
            None => None,
        }
    } else {
        None
    }
}

proof fn lemma_monster_body_roundtrip_at(p: PositionedObject<Monster>, pre: Seq<u64>, post: Seq<u64>)
    ensures
        sdec_monster(
            (pre + seq![p.id, pack_position(p.position)]) + enc_monster(p.object) + post,
            pre.len() as int + 2,
        ) == Some((p.object, pre.len() + 2 + enc_monster(p.object).len() as int)),
{
    let pre2 = pre + seq![p.id, pack_position(p.position)];
    lemma_monster_body_roundtrip(p.object, pre2, post);
}


pub open spec fn enc_pos_spawner(p: PositionedObject<Spawner>) -> Seq<u64> {
    seq![p.id, pack_position(p.position)] + enc_spawner(p.object)
}

pub open spec fn sdec_pos_spawner(s: Seq<u64>, i: int) -> Option<(PositionedObject<Spawner>, int)> {
    if 0 <= i && i + 2 <= s.len() {
        match sdec_spawner(s, i + 2) {
            Some(v) => Some(
                (PositionedObject { id: s[i], position: unpack_position(s[i + 1]), object: v.0 }, v.1),
            ),
            None => None,
        }
    } else {
        None
    }
}

pub proof fn lemma_pos_spawner_roundtrip(p: PositionedObject<Spawner>, pre: Seq<u64>, post: Seq<u64>)
    requires
        p.position.x < 0x1_0000_0000,
        p.position.y < 0x1_0000_0000,
    ensures
        sdec_pos_spawner(pre + enc_pos_spawner(p) + post, pre.len() as int) == Some(
            (p, pre.len() + enc_pos_spawner(p).len() as int),
        ),
{
    let head = seq![p.id, pack_position(p.position)];
    assert(pre + enc_pos_spawner(p) + post =~= (pre + head) + enc_spawner(p.object) + post);
    lemma_spawner_body_roundtrip_at(p, pre, post);
    lemma_position_roundtrip(p.position);
    let s = pre + enc_pos_spawner(p) + post;
    assert(s[pre.len() as int] == p.id);
    assert(s[pre.len() as int + 1] == pack_position(p.position));
}

pub fn encode_pos_spawner(p: &PositionedObject<Spawner>, data: &mut Vec<u64>)
    requires
        p.position.x < 0x1_0000_0000,
        p.position.y < 0x1_0000_0000,
    ensures
        final(data)@ == old(data)@ + enc_pos_spawner(*p),
{
    data.push(p.id);
    let packed = pack_position_exec(&p.position);
    data.push(packed);
    encode_spawner(&p.object, data);
    proof {
        assert(data@ =~= old(data)@ + enc_pos_spawner(*p));
    }
}

pub fn decode_pos_spawner(data: &Vec<u64>, pos: usize) -> (r: Option<
    (PositionedObject<Spawner>, usize),
>)
    ensures
        match r {
            Some(v) => sdec_pos_spawner(data@, pos as int) == Some((v.0, v.1 as int)),
            None => sdec_pos_spawner(data@, pos as int) is None,
        },
{
    if pos < data.len() && data.len() - pos >= 2 {
        match decode_spawner(data, pos + 2) {
            Some(v) => {
                let position = unpack_position_exec(data[pos + 1]);
                Some((PositionedObject { id: data[pos], position, object: v.0 }, v.1))
            },
            None => None,
        }
    } else {
        None
    }
}

proof fn lemma_spawner_body_roundtrip_at(p: PositionedObject<Spawner>, pre: Seq<u64>, post: Seq<u64>)
    ensures
        sdec_spawner(
            (pre + seq![p.id, pack_position(p.position)]) + enc_spawner(p.object) + post,
            pre.len() as int + 2,
        ) == Some((p.object, pre.len() + 2 + enc_spawner(p.object).len() as int)),
{
    let pre2 = pre + seq![p.id, pack_position(p.position)];
    lemma_spawner_body_roundtrip(p.object, pre2, post);
}


pub open spec fn enc_pos_collector(p: PositionedObject<Collector>) -> Seq<u64> {
    seq![p.id, pack_position(p.position)] + enc_collector(p.object)
}

pub open spec fn sdec_pos_collector(s: Seq<u64>, i: int) -> Option<(PositionedObject<Collector>, int)> {
    if 0 <= i && i + 2 <= s.len() {
        match sdec_collector(s, i + 2) {
            Some(v) => Some(
                (PositionedObject { id: s[i], position: unpack_position(s[i + 1]), object: v.0 }, v.1),
            ),
            None => None,
        }
    } else {
        None
    }
}

pub proof fn lemma_pos_collector_roundtrip(p: PositionedObject<Collector>, pre: Seq<u64>, post: Seq<u64>)
    requires
        p.position.x < 0x1_0000_0000,
        p.position.y < 0x1_0000_0000,
    ensures
        sdec_pos_collector(pre + enc_pos_collector(p) + post, pre.len() as int) == Some(
            (p, pre.len() + enc_pos_collector(p).len() as int),
        ),
{
    let head = seq![p.id, pack_position(p.position)];
    assert(pre + enc_pos_collector(p) + post =~= (pre + head) + enc_collector(p.object) + post);
    lemma_collector_body_roundtrip_at(p, pre, post);
    lemma_position_roundtrip(p.position);
    let s = pre + enc_pos_collector(p) + post;
    assert(s[pre.len() as int] == p.id);
    assert(s[pre.len() as int + 1] == pack_position(p.position));
}

pub fn encode_pos_collector(p: &PositionedObject<Collector>, data: &mut Vec<u64>)
    requires
        p.position.x < 0x1_0000_0000,
        p.position.y < 0x1_0000_0000,
    ensures
        final(data)@ == old(data)@ + enc_pos_collector(*p),
{
    data.push(p.id);
    let packed = pack_position_exec(&p.position);
    data.push(packed);
    encode_collector(&p.object, data);
    proof {
        assert(data@ =~= old(data)@ + enc_pos_collector(*p));
    }
}

pub fn decode_pos_collector(data: &Vec<u64>, pos: usize) -> (r: Option<
    (PositionedObject<Collector>, usize),
>)
    ensures
        match r {
            Some(v) => sdec_pos_collector(data@, pos as int) == Some((v.0, v.1 as int)),
            None => sdec_pos_collector(data@, pos as int) is None,
        },
{
    if pos < data.len() && data.len() - pos >= 2 {
        match decode_collector(data, pos + 2) {
            Some(v) => {
                let position = unpack_position_exec(data[pos + 1]);
                Some((PositionedObject { id: data[pos], position, object: v.0 }, v.1))
            },
            None => None,
        }
    } else {
        None
    }
}

proof fn lemma_collector_body_roundtrip_at(p: PositionedObject<Collector>, pre: Seq<u64>, post: Seq<u64>)
    ensures
        sdec_collector(
            (pre + seq![p.id, pack_position(p.position)]) + enc_collector(p.object) + post,
            pre.len() as int + 2,
        ) == Some((p.object, pre.len() + 2 + enc_collector(p.object).len() as int)),
{
    let pre2 = pre + seq![p.id, pack_position(p.position)];
    lemma_collector_body_roundtrip(p.object, pre2, post);
}


pub open spec fn enc_pos_inventory(p: PositionedObject<InventoryObject>) -> Seq<u64> {
    seq![p.id, pack_position(p.position)] + enc_inventory(p.object)
}

pub open spec fn sdec_pos_inventory(s: Seq<u64>, i: int) -> Option<(PositionedObject<InventoryObject>, int)> {
    if 0 <= i && i + 2 <= s.len() {
        match sdec_inventory(s, i + 2) {
            Some(v) => Some(
                (PositionedObject { id: s[i], position: unpack_position(s[i + 1]), object: v.0 }, v.1),
            ),
            None => None,
        }
    } else {
        None
    }
}

pub proof fn lemma_pos_inventory_roundtrip(p: PositionedObject<InventoryObject>, pre: Seq<u64>, post: Seq<u64>)
    requires
        p.position.x < 0x1_0000_0000,
        p.position.y < 0x1_0000_0000,
    ensures
        sdec_pos_inventory(pre + enc_pos_inventory(p) + post, pre.len() as int) == Some(
            (p, pre.len() + enc_pos_inventory(p).len() as int),
        ),
{
    let head = seq![p.id, pack_position(p.position)];
    assert(pre + enc_pos_inventory(p) + post =~= (pre + head) + enc_inventory(p.object) + post);
    lemma_inventory_body_roundtrip_at(p, pre, post);
    lemma_position_roundtrip(p.position);
    let s = pre + enc_pos_inventory(p) + post;
    assert(s[pre.len() as int] == p.id);
    assert(s[pre.len() as int + 1] == pack_position(p.position));
}

pub fn encode_pos_inventory(p: &PositionedObject<InventoryObject>, data: &mut Vec<u64>)
    requires
        p.position.x < 0x1_0000_0000,
        p.position.y < 0x1_0000_0000,
    ensures
        final(data)@ == old(data)@ + enc_pos_inventory(*p),
{
    data.push(p.id);
    let packed = pack_position_exec(&p.position);
    data.push(packed);
    encode_inventory(&p.object, data);
    proof {
        assert(data@ =~= old(data)@ + enc_pos_inventory(*p));
    }
}

pub fn decode_pos_inventory(data: &Vec<u64>, pos: usize) -> (r: Option<
    (PositionedObject<InventoryObject>, usize),
>)
    ensures
        match r {
            Some(v) => sdec_pos_inventory(data@, pos as int) == Some((v.0, v.1 as int)),
            None => sdec_pos_inventory(data@, pos as int) is None,
        },
{
    if pos < data.len() && data.len() - pos >= 2 {
        match decode_inventory(data, pos + 2) {
            Some(v) => {
                let position = unpack_position_exec(data[pos + 1]);
                Some((PositionedObject { id: data[pos], position, object: v.0 }, v.1))
            },
            None => None,
        }
    } else {
        None
    }
}

proof fn lemma_inventory_body_roundtrip_at(p: PositionedObject<InventoryObject>, pre: Seq<u64>, post: Seq<u64>)
    ensures
        sdec_inventory(
            (pre + seq![p.id, pack_position(p.position)]) + enc_inventory(p.object) + post,
            pre.len() as int + 2,
        ) == Some((p.object, pre.len() + 2 + enc_inventory(p.object).len() as int)),
{
    let pre2 = pre + seq![p.id, pack_position(p.position)];
    lemma_inventory_body_roundtrip(p.object, pre2, post);
}


pub open spec fn enc_monster_list(v: Seq<PositionedObject<Monster>>) -> Seq<u64>
    decreases v.len(),
{
    if v.len() == 0 {
        Seq::empty()
    } else {
        enc_pos_monster(v[0]) + enc_monster_list(v.subrange(1, v.len() as int))
    }
}

pub open spec fn sdec_monster_list(s: Seq<u64>, i: int, n: u64) -> Option<
    (Seq<PositionedObject<Monster>>, int),
>
    decreases n,
{
    if n == 0 {
        Some((Seq::empty(), i))
    } else {
        match sdec_pos_monster(s, i) {
            Some(v) => match sdec_monster_list(s, v.1, (n - 1) as u64) {
                Some(rest) => Some((seq![v.0] + rest.0, rest.1)),
                None => None,
            },
            None => None,
        }
    }
}

pub proof fn lemma_monster_list_roundtrip(
    v: Seq<PositionedObject<Monster>>,
    pre: Seq<u64>,
    post: Seq<u64>,
)
    requires
        v.len() <= u64::MAX,
        forall|k: int|
            0 <= k < v.len() ==> (#[trigger] v[k]).position.x < 0x1_0000_0000
                && v[k].position.y < 0x1_0000_0000,
    ensures
        sdec_monster_list(pre + enc_monster_list(v) + post, pre.len() as int, v.len() as u64)
            == Some((v, pre.len() + enc_monster_list(v).len() as int)),
    decreases v.len(),
{
    if v.len() == 0 {
        assert(enc_monster_list(v) =~= Seq::<u64>::empty());
        assert(pre + enc_monster_list(v) + post =~= pre + post);
    } else {
        let rest = v.subrange(1, v.len() as int);
        assert(pre + enc_monster_list(v) + post =~= pre + enc_pos_monster(v[0]) + (enc_monster_list(
            rest,
        ) + post));
        lemma_pos_monster_roundtrip(v[0], pre, enc_monster_list(rest) + post);
        let pre2 = pre + enc_pos_monster(v[0]);
        assert(pre + enc_pos_monster(v[0]) + (enc_monster_list(rest) + post) =~= pre2
            + enc_monster_list(rest) + post);
        lemma_monster_list_roundtrip(rest, pre2, post);
        assert(seq![v[0]] + rest =~= v);
        assert(pre2.len() + enc_monster_list(rest).len() as int == pre.len() + enc_monster_list(
            v,
        ).len() as int) by {
            assert(enc_monster_list(v) =~= enc_pos_monster(v[0]) + enc_monster_list(rest));
        }
    }
}

pub fn encode_monster_list(v: &Vec<PositionedObject<Monster>>, data: &mut Vec<u64>)
    requires
        forall|k: int|
            0 <= k < v@.len() ==> (#[trigger] v@[k]).position.x < 0x1_0000_0000
                && v@[k].position.y < 0x1_0000_0000,
    ensures
        final(data)@ == old(data)@ + enc_monster_list(v@),
{
    let n = v.len();
    let mut i: usize = 0;
    while i < n
        invariant
            i <= n,
            n == v@.len(),
            forall|k: int|
                0 <= k < n ==> (#[trigger] v@[k]).position.x < 0x1_0000_0000
                    && v@[k].position.y < 0x1_0000_0000,
            data@ == old(data)@ + enc_monster_list(v@.subrange(0, i as int)),
        decreases n - i,
    {
        encode_pos_monster(&v[i], data);
        proof {
            lemma_enc_monster_list_snoc(v@, i as int);
        }
        i = i + 1;
    }
    proof {
        assert(v@.subrange(0, n as int) =~= v@);
    }
}

/// Extending the encoded prefix by one element.
proof fn lemma_enc_monster_list_snoc(v: Seq<PositionedObject<Monster>>, i: int)
    requires
        0 <= i < v.len(),
    ensures
        enc_monster_list(v.subrange(0, i + 1)) == enc_monster_list(v.subrange(0, i)) + enc_pos_monster(
            v[i],
        ),
    decreases i,
{
    if i == 0 {
        assert(v.subrange(0, 1) =~= seq![v[0]]);
        assert(v.subrange(0, 1).subrange(1, 1) =~= Seq::<PositionedObject<Monster>>::empty());
        assert(v.subrange(0, 0) =~= Seq::<PositionedObject<Monster>>::empty());
        assert(enc_monster_list(Seq::<PositionedObject<Monster>>::empty()) =~= Seq::<u64>::empty());
        assert(enc_monster_list(v.subrange(0, 1)) == enc_pos_monster(v.subrange(0, 1)[0])
            + enc_monster_list(v.subrange(0, 1).subrange(1, 1)));
        assert(v.subrange(0, 1)[0] == v[0]);
        assert(enc_pos_monster(v[0]) + Seq::<u64>::empty() =~= enc_pos_monster(v[0]));
        assert(enc_monster_list(v.subrange(0, i)) + enc_pos_monster(v[i]) =~= enc_pos_monster(v[0]));
    } else {
        let w = v.subrange(1, v.len() as int);
        lemma_enc_monster_list_snoc(w, i - 1);
        assert(v.subrange(0, i + 1)[0] == v[0]);
        assert(v.subrange(0, i + 1).subrange(1, i + 1) =~= w.subrange(0, i));
        assert(v.subrange(0, i).subrange(1, i) =~= w.subrange(0, i - 1));
        assert(v.subrange(0, i)[0] == v[0]);
        assert(w[i - 1] == v[i]);
        assert(enc_monster_list(v.subrange(0, i + 1)) =~= enc_pos_monster(v[0]) + enc_monster_list(
            w.subrange(0, i),
        ));
        assert(enc_monster_list(v.subrange(0, i)) =~= enc_pos_monster(v[0]) + enc_monster_list(
            w.subrange(0, i - 1),
        ));
        assert(enc_pos_monster(v[0]) + (enc_monster_list(w.subrange(0, i - 1)) + enc_pos_monster(
            v[i],
        )) =~= (enc_pos_monster(v[0]) + enc_monster_list(w.subrange(0, i - 1))) + enc_pos_monster(
            v[i],
        ));
    }
}

pub fn decode_monster_list(data: &Vec<u64>, pos: usize, n: u64) -> (r: Option<
    (Vec<PositionedObject<Monster>>, usize),
>)
    ensures
        match r {
            Some(v) => sdec_monster_list(data@, pos as int, n) == Some((v.0@, v.1 as int)),
            None => sdec_monster_list(data@, pos as int, n) is None,
        },
{
    let mut v: Vec<PositionedObject<Monster>> = Vec::new();
    let mut cur = pos;
    let mut k: u64 = 0;
    while k < n
        invariant
            k <= n,
            cur <= usize::MAX,
            match sdec_monster_list(data@, cur as int, (n - k) as u64) {
                Some(rest) => sdec_monster_list(data@, pos as int, n) == Some(
                    (v@ + rest.0, rest.1),
                ),
                None => sdec_monster_list(data@, pos as int, n) is None,
            },
        decreases n - k,
    {
        match decode_pos_monster(data, cur) {
            Some(elem) => {
                proof {
                    let tail = sdec_monster_list(data@, elem.1 as int, (n - k - 1) as u64);
                    if tail is Some {
                        assert(v@.push(elem.0) + tail->Some_0.0 =~= v@ + (seq![elem.0]
                            + tail->Some_0.0));
                    }
                }
                v.push(elem.0);
                cur = elem.1;
            },
            None => {
                return None;
            },
        }
        k = k + 1;
    }
    proof {
        assert(v@ + Seq::<PositionedObject<Monster>>::empty() =~= v@);
    }
    Some((v, cur))
}


pub open spec fn enc_spawner_list(v: Seq<PositionedObject<Spawner>>) -> Seq<u64>
    decreases v.len(),
{
    if v.len() == 0 {
        Seq::empty()
    } else {
        enc_pos_spawner(v[0]) + enc_spawner_list(v.subrange(1, v.len() as int))
    }
}

pub open spec fn sdec_spawner_list(s: Seq<u64>, i: int, n: u64) -> Option<
    (Seq<PositionedObject<Spawner>>, int),
>
    decreases n,
{
    if n == 0 {
        Some((Seq::empty(), i))
    } else {
        match sdec_pos_spawner(s, i) {
            Some(v) => match sdec_spawner_list(s, v.1, (n - 1) as u64) {
                Some(rest) => Some((seq![v.0] + rest.0, rest.1)),
                None => None,
            },
            None => None,
        }
    }
}

pub proof fn lemma_spawner_list_roundtrip(
    v: Seq<PositionedObject<Spawner>>,
    pre: Seq<u64>,
    post: Seq<u64>,
)
    requires
        v.len() <= u64::MAX,
        forall|k: int|
            0 <= k < v.len() ==> (#[trigger] v[k]).position.x < 0x1_0000_0000
                && v[k].position.y < 0x1_0000_0000,
    ensures
        sdec_spawner_list(pre + enc_spawner_list(v) + post, pre.len() as int, v.len() as u64)
            == Some((v, pre.len() + enc_spawner_list(v).len() as int)),
    decreases v.len(),
{
    if v.len() == 0 {
        assert(enc_spawner_list(v) =~= Seq::<u64>::empty());
        assert(pre + enc_spawner_list(v) + post =~= pre + post);
    } else {
        let rest = v.subrange(1, v.len() as int);
        assert(pre + enc_spawner_list(v) + post =~= pre + enc_pos_spawner(v[0]) + (enc_spawner_list(
            rest,
        ) + post));
        lemma_pos_spawner_roundtrip(v[0], pre, enc_spawner_list(rest) + post);
        let pre2 = pre + enc_pos_spawner(v[0]);
        assert(pre + enc_pos_spawner(v[0]) + (enc_spawner_list(rest) + post) =~= pre2
            + enc_spawner_list(rest) + post);
        lemma_spawner_list_roundtrip(rest, pre2, post);
        assert(seq![v[0]] + rest =~= v);
        assert(pre2.len() + enc_spawner_list(rest).len() as int == pre.len() + enc_spawner_list(
            v,
        ).len() as int) by {
            assert(enc_spawner_list(v) =~= enc_pos_spawner(v[0]) + enc_spawner_list(rest));
        }
    }
}

pub fn encode_spawner_list(v: &Vec<PositionedObject<Spawner>>, data: &mut Vec<u64>)
    requires
        forall|k: int|
            0 <= k < v@.len() ==> (#[trigger] v@[k]).position.x < 0x1_0000_0000
                && v@[k].position.y < 0x1_0000_0000,
    ensures
        final(data)@ == old(data)@ + enc_spawner_list(v@),
{
    let n = v.len();
    let mut i: usize = 0;
    while i < n
        invariant
            i <= n,
            n == v@.len(),
            forall|k: int|
                0 <= k < n ==> (#[trigger] v@[k]).position.x < 0x1_0000_0000
                    && v@[k].position.y < 0x1_0000_0000,
            data@ == old(data)@ + enc_spawner_list(v@.subrange(0, i as int)),
        decreases n - i,
    {
        encode_pos_spawner(&v[i], data);
        proof {
            lemma_enc_spawner_list_snoc(v@, i as int);
        }
        i = i + 1;
    }
    proof {
        assert(v@.subrange(0, n as int) =~= v@);
    }
}

/// Extending the encoded prefix by one element.
proof fn lemma_enc_spawner_list_snoc(v: Seq<PositionedObject<Spawner>>, i: int)
    requires
        0 <= i < v.len(),
    ensures
        enc_spawner_list(v.subrange(0, i + 1)) == enc_spawner_list(v.subrange(0, i)) + enc_pos_spawner(
            v[i],
        ),
    decreases i,
{
    if i == 0 {
        assert(v.subrange(0, 1) =~= seq![v[0]]);
        assert(v.subrange(0, 1).subrange(1, 1) =~= Seq::<PositionedObject<Spawner>>::empty());
        assert(v.subrange(0, 0) =~= Seq::<PositionedObject<Spawner>>::empty());
        assert(enc_spawner_list(Seq::<PositionedObject<Spawner>>::empty()) =~= Seq::<u64>::empty());
        assert(enc_spawner_list(v.subrange(0, 1)) == enc_pos_spawner(v.subrange(0, 1)[0])
            + enc_spawner_list(v.subrange(0, 1).subrange(1, 1)));
        assert(v.subrange(0, 1)[0] == v[0]);
        assert(enc_pos_spawner(v[0]) + Seq::<u64>::empty() =~= enc_pos_spawner(v[0]));
        assert(enc_spawner_list(v.subrange(0, i)) + enc_pos_spawner(v[i]) =~= enc_pos_spawner(v[0]));
    } else {
        let w = v.subrange(1, v.len() as int);
        lemma_enc_spawner_list_snoc(w, i - 1);
        assert(v.subrange(0, i + 1)[0] == v[0]);
        assert(v.subrange(0, i + 1).subrange(1, i + 1) =~= w.subrange(0, i));
        assert(v.subrange(0, i).subrange(1, i) =~= w.subrange(0, i - 1));
        assert(v.subrange(0, i)[0] == v[0]);
        assert(w[i - 1] == v[i]);
        assert(enc_spawner_list(v.subrange(0, i + 1)) =~= enc_pos_spawner(v[0]) + enc_spawner_list(
            w.subrange(0, i),
        ));
        assert(enc_spawner_list(v.subrange(0, i)) =~= enc_pos_spawner(v[0]) + enc_spawner_list(
            w.subrange(0, i - 1),
        ));
        assert(enc_pos_spawner(v[0]) + (enc_spawner_list(w.subrange(0, i - 1)) + enc_pos_spawner(
            v[i],
        )) =~= (enc_pos_spawner(v[0]) + enc_spawner_list(w.subrange(0, i - 1))) + enc_pos_spawner(
            v[i],
        ));
    }
}

pub fn decode_spawner_list(data: &Vec<u64>, pos: usize, n: u64) -> (r: Option<
    (Vec<PositionedObject<Spawner>>, usize),
>)
    ensures
        match r {
            Some(v) => sdec_spawner_list(data@, pos as int, n) == Some((v.0@, v.1 as int)),
            None => sdec_spawner_list(data@, pos as int, n) is None,
        },
{
    let mut v: Vec<PositionedObject<Spawner>> = Vec::new();
    let mut cur = pos;
    let mut k: u64 = 0;
    while k < n
        invariant
            k <= n,
            cur <= usize::MAX,
            match sdec_spawner_list(data@, cur as int, (n - k) as u64) {
                Some(rest) => sdec_spawner_list(data@, pos as int, n) == Some(
                    (v@ + rest.0, rest.1),
                ),
                None => sdec_spawner_list(data@, pos as int, n) is None,
            },
        decreases n - k,
    {
        match decode_pos_spawner(data, cur) {
            Some(elem) => {
                proof {
                    let tail = sdec_spawner_list(data@, elem.1 as int, (n - k - 1) as u64);
                    if tail is Some {
                        assert(v@.push(elem.0) + tail->Some_0.0 =~= v@ + (seq![elem.0]
                            + tail->Some_0.0));
                    }
                }
                v.push(elem.0);
                cur = elem.1;
            },
            None => {
                return None;
            },
        }
        k = k + 1;
    }
    proof {
        assert(v@ + Seq::<PositionedObject<Spawner>>::empty() =~= v@);
    }
    Some((v, cur))
}


pub open spec fn enc_collector_list(v: Seq<PositionedObject<Collector>>) -> Seq<u64>
    decreases v.len(),
{
    if v.len() == 0 {
        Seq::empty()
    } else {
        enc_pos_collector(v[0]) + enc_collector_list(v.subrange(1, v.len() as int))
    }
}

pub open spec fn sdec_collector_list(s: Seq<u64>, i: int, n: u64) -> Option<
    (Seq<PositionedObject<Collector>>, int),
>
    decreases n,
{
    if n == 0 {
        Some((Seq::empty(), i))
    } else {
        match sdec_pos_collector(s, i) {
            Some(v) => match sdec_collector_list(s, v.1, (n - 1) as u64) {
                Some(rest) => Some((seq![v.0] + rest.0, rest.1)),
                None => None,
            },
            None => None,
        }
    }
}

pub proof fn lemma_collector_list_roundtrip(
    v: Seq<PositionedObject<Collector>>,
    pre: Seq<u64>,
    post: Seq<u64>,
)
    requires
        v.len() <= u64::MAX,
        forall|k: int|
            0 <= k < v.len() ==> (#[trigger] v[k]).position.x < 0x1_0000_0000
                && v[k].position.y < 0x1_0000_0000,
    ensures
        sdec_collector_list(pre + enc_collector_list(v) + post, pre.len() as int, v.len() as u64)
            == Some((v, pre.len() + enc_collector_list(v).len() as int)),
    decreases v.len(),
{
    if v.len() == 0 {
        assert(enc_collector_list(v) =~= Seq::<u64>::empty());
        assert(pre + enc_collector_list(v) + post =~= pre + post);
    } else {
        let rest = v.subrange(1, v.len() as int);
        assert(pre + enc_collector_list(v) + post =~= pre + enc_pos_collector(v[0]) + (enc_collector_list(
            rest,
        ) + post));
        lemma_pos_collector_roundtrip(v[0], pre, enc_collector_list(rest) + post);
        let pre2 = pre + enc_pos_collector(v[0]);
        assert(pre + enc_pos_collector(v[0]) + (enc_collector_list(rest) + post) =~= pre2
            + enc_collector_list(rest) + post);
        lemma_collector_list_roundtrip(rest, pre2, post);
        assert(seq![v[0]] + rest =~= v);
        assert(pre2.len() + enc_collector_list(rest).len() as int == pre.len() + enc_collector_list(
            v,
        ).len() as int) by {
            assert(enc_collector_list(v) =~= enc_pos_collector(v[0]) + enc_collector_list(rest));
        }
    }
}

pub fn encode_collector_list(v: &Vec<PositionedObject<Collector>>, data: &mut Vec<u64>)
    requires
        forall|k: int|
            0 <= k < v@.len() ==> (#[trigger] v@[k]).position.x < 0x1_0000_0000
                && v@[k].position.y < 0x1_0000_0000,
    ensures
        final(data)@ == old(data)@ + enc_collector_list(v@),
{
    let n = v.len();
    let mut i: usize = 0;
    while i < n
        invariant
            i <= n,
            n == v@.len(),
            forall|k: int|
                0 <= k < n ==> (#[trigger] v@[k]).position.x < 0x1_0000_0000
                    && v@[k].position.y < 0x1_0000_0000,
            data@ == old(data)@ + enc_collector_list(v@.subrange(0, i as int)),
        decreases n - i,
    {
        encode_pos_collector(&v[i], data);
        proof {
            lemma_enc_collector_list_snoc(v@, i as int);
        }
        i = i + 1;
    }
    proof {
        assert(v@.subrange(0, n as int) =~= v@);
    }
}

/// Extending the encoded prefix by one element.
proof fn lemma_enc_collector_list_snoc(v: Seq<PositionedObject<Collector>>, i: int)
    requires
        0 <= i < v.len(),
    ensures
        enc_collector_list(v.subrange(0, i + 1)) == enc_collector_list(v.subrange(0, i)) + enc_pos_collector(
            v[i],
        ),
    decreases i,
{
    if i == 0 {
        assert(v.subrange(0, 1) =~= seq![v[0]]);
        assert(v.subrange(0, 1).subrange(1, 1) =~= Seq::<PositionedObject<Collector>>::empty());
        assert(v.subrange(0, 0) =~= Seq::<PositionedObject<Collector>>::empty());
        assert(enc_collector_list(Seq::<PositionedObject<Collector>>::empty()) =~= Seq::<u64>::empty());
        assert(enc_collector_list(v.subrange(0, 1)) == enc_pos_collector(v.subrange(0, 1)[0])
            + enc_collector_list(v.subrange(0, 1).subrange(1, 1)));
        assert(v.subrange(0, 1)[0] == v[0]);
        assert(enc_pos_collector(v[0]) + Seq::<u64>::empty() =~= enc_pos_collector(v[0]));
        assert(enc_collector_list(v.subrange(0, i)) + enc_pos_collector(v[i]) =~= enc_pos_collector(v[0]));
    } else {
        let w = v.subrange(1, v.len() as int);
        lemma_enc_collector_list_snoc(w, i - 1);
        assert(v.subrange(0, i + 1)[0] == v[0]);
        assert(v.subrange(0, i + 1).subrange(1, i + 1) =~= w.subrange(0, i));
        assert(v.subrange(0, i).subrange(1, i) =~= w.subrange(0, i - 1));
        assert(v.subrange(0, i)[0] == v[0]);
        assert(w[i - 1] == v[i]);
        assert(enc_collector_list(v.subrange(0, i + 1)) =~= enc_pos_collector(v[0]) + enc_collector_list(
            w.subrange(0, i),
        ));
        assert(enc_collector_list(v.subrange(0, i)) =~= enc_pos_collector(v[0]) + enc_collector_list(
            w.subrange(0, i - 1),
        ));
        assert(enc_pos_collector(v[0]) + (enc_collector_list(w.subrange(0, i - 1)) + enc_pos_collector(
            v[i],
        )) =~= (enc_pos_collector(v[0]) + enc_collector_list(w.subrange(0, i - 1))) + enc_pos_collector(
            v[i],
        ));
    }
}

pub fn decode_collector_list(data: &Vec<u64>, pos: usize, n: u64) -> (r: Option<
    (Vec<PositionedObject<Collector>>, usize),
>)
    ensures
        match r {
            Some(v) => sdec_collector_list(data@, pos as int, n) == Some((v.0@, v.1 as int)),
            None => sdec_collector_list(data@, pos as int, n) is None,
        },
{
    let mut v: Vec<PositionedObject<Collector>> = Vec::new();
    let mut cur = pos;
    let mut k: u64 = 0;
    while k < n
        invariant
            k <= n,
            cur <= usize::MAX,
            match sdec_collector_list(data@, cur as int, (n - k) as u64) {
                Some(rest) => sdec_collector_list(data@, pos as int, n) == Some(
                    (v@ + rest.0, rest.1),
                ),
                None => sdec_collector_list(data@, pos as int, n) is None,
            },
        decreases n - k,
    {
        match decode_pos_collector(data, cur) {
            Some(elem) => {
                proof {
                    let tail = sdec_collector_list(data@, elem.1 as int, (n - k - 1) as u64);
                    if tail is Some {
                        assert(v@.push(elem.0) + tail->Some_0.0 =~= v@ + (seq![elem.0]
                            + tail->Some_0.0));
                    }
                }
                v.push(elem.0);
                cur = elem.1;
            },
            None => {
                return None;
            },
        }
        k = k + 1;
    }
    proof {
        assert(v@ + Seq::<PositionedObject<Collector>>::empty() =~= v@);
    }
    Some((v, cur))
}


pub open spec fn enc_inventory_list(v: Seq<PositionedObject<InventoryObject>>) -> Seq<u64>
    decreases v.len(),
{
    if v.len() == 0 {
        Seq::empty()
    } else {
        enc_pos_inventory(v[0]) + enc_inventory_list(v.subrange(1, v.len() as int))
    }
}

pub open spec fn sdec_inventory_list(s: Seq<u64>, i: int, n: u64) -> Option<
    (Seq<PositionedObject<InventoryObject>>, int),
>
    decreases n,
{
    if n == 0 {
        Some((Seq::empty(), i))
    } else {
        match sdec_pos_inventory(s, i) {
            Some(v) => match sdec_inventory_list(s, v.1, (n - 1) as u64) {
                Some(rest) => Some((seq![v.0] + rest.0, rest.1)),
                None => None,
            },
            None => None,
        }
    }
}

pub proof fn lemma_inventory_list_roundtrip(
    v: Seq<PositionedObject<InventoryObject>>,
    pre: Seq<u64>,
    post: Seq<u64>,
)
    requires
        v.len() <= u64::MAX,
        forall|k: int|
            0 <= k < v.len() ==> (#[trigger] v[k]).position.x < 0x1_0000_0000
                && v[k].position.y < 0x1_0000_0000,
    ensures
        sdec_inventory_list(pre + enc_inventory_list(v) + post, pre.len() as int, v.len() as u64)
            == Some((v, pre.len() + enc_inventory_list(v).len() as int)),
    decreases v.len(),
{
    if v.len() == 0 {
        assert(enc_inventory_list(v) =~= Seq::<u64>::empty());
        assert(pre + enc_inventory_list(v) + post =~= pre + post);
    } else {
        let rest = v.subrange(1, v.len() as int);
        assert(pre + enc_inventory_list(v) + post =~= pre + enc_pos_inventory(v[0]) + (enc_inventory_list(
            rest,
        ) + post));
        lemma_pos_inventory_roundtrip(v[0], pre, enc_inventory_list(rest) + post);
        let pre2 = pre + enc_pos_inventory(v[0]);
        assert(pre + enc_pos_inventory(v[0]) + (enc_inventory_list(rest) + post) =~= pre2
            + enc_inventory_list(rest) + post);
        lemma_inventory_list_roundtrip(rest, pre2, post);
        assert(seq![v[0]] + rest =~= v);
        assert(pre2.len() + enc_inventory_list(rest).len() as int == pre.len() + enc_inventory_list(
            v,
        ).len() as int) by {
            assert(enc_inventory_list(v) =~= enc_pos_inventory(v[0]) + enc_inventory_list(rest));
        }
    }
}

pub fn encode_inventory_list(v: &Vec<PositionedObject<InventoryObject>>, data: &mut Vec<u64>)
    requires
        forall|k: int|
            0 <= k < v@.len() ==> (#[trigger] v@[k]).position.x < 0x1_0000_0000
                && v@[k].position.y < 0x1_0000_0000,
    ensures
        final(data)@ == old(data)@ + enc_inventory_list(v@),
{
    let n = v.len();
    let mut i: usize = 0;
    while i < n
        invariant
            i <= n,
            n == v@.len(),
            forall|k: int|
                0 <= k < n ==> (#[trigger] v@[k]).position.x < 0x1_0000_0000
                    && v@[k].position.y < 0x1_0000_0000,
            data@ == old(data)@ + enc_inventory_list(v@.subrange(0, i as int)),
        decreases n - i,
    {
        encode_pos_inventory(&v[i], data);
        proof {
            lemma_enc_inventory_list_snoc(v@, i as int);
        }
        i = i + 1;
    }
    proof {
        assert(v@.subrange(0, n as int) =~= v@);
    }
}

/// Extending the encoded prefix by one element.
proof fn lemma_enc_inventory_list_snoc(v: Seq<PositionedObject<InventoryObject>>, i: int)
    requires
        0 <= i < v.len(),
    ensures
        enc_inventory_list(v.subrange(0, i + 1)) == enc_inventory_list(v.subrange(0, i)) + enc_pos_inventory(
            v[i],
        ),
    decreases i,
{
    if i == 0 {
        assert(v.subrange(0, 1) =~= seq![v[0]]);
        assert(v.subrange(0, 1).subrange(1, 1) =~= Seq::<PositionedObject<InventoryObject>>::empty());
        assert(v.subrange(0, 0) =~= Seq::<PositionedObject<InventoryObject>>::empty());
        assert(enc_inventory_list(Seq::<PositionedObject<InventoryObject>>::empty()) =~= Seq::<u64>::empty());
        assert(enc_inventory_list(v.subrange(0, 1)) == enc_pos_inventory(v.subrange(0, 1)[0])
            + enc_inventory_list(v.subrange(0, 1).subrange(1, 1)));
        assert(v.subrange(0, 1)[0] == v[0]);
        assert(enc_pos_inventory(v[0]) + Seq::<u64>::empty() =~= enc_pos_inventory(v[0]));
        assert(enc_inventory_list(v.subrange(0, i)) + enc_pos_inventory(v[i]) =~= enc_pos_inventory(v[0]));
    } else {
        let w = v.subrange(1, v.len() as int);
        lemma_enc_inventory_list_snoc(w, i - 1);
        assert(v.subrange(0, i + 1)[0] == v[0]);
        assert(v.subrange(0, i + 1).subrange(1, i + 1) =~= w.subrange(0, i));
        assert(v.subrange(0, i).subrange(1, i) =~= w.subrange(0, i - 1));
        assert(v.subrange(0, i)[0] == v[0]);
        assert(w[i - 1] == v[i]);
        assert(enc_inventory_list(v.subrange(0, i + 1)) =~= enc_pos_inventory(v[0]) + enc_inventory_list(
            w.subrange(0, i),
        ));
        assert(enc_inventory_list(v.subrange(0, i)) =~= enc_pos_inventory(v[0]) + enc_inventory_list(
            w.subrange(0, i - 1),
        ));
        assert(enc_pos_inventory(v[0]) + (enc_inventory_list(w.subrange(0, i - 1)) + enc_pos_inventory(
            v[i],
        )) =~= (enc_pos_inventory(v[0]) + enc_inventory_list(w.subrange(0, i - 1))) + enc_pos_inventory(
            v[i],
        ));
    }
}

pub fn decode_inventory_list(data: &Vec<u64>, pos: usize, n: u64) -> (r: Option<
    (Vec<PositionedObject<InventoryObject>>, usize),
>)
    ensures
        match r {
            Some(v) => sdec_inventory_list(data@, pos as int, n) == Some((v.0@, v.1 as int)),
            None => sdec_inventory_list(data@, pos as int, n) is None,
        },
{
    let mut v: Vec<PositionedObject<InventoryObject>> = Vec::new();
    let mut cur = pos;
    let mut k: u64 = 0;
    while k < n
        invariant
            k <= n,
            cur <= usize::MAX,
            match sdec_inventory_list(data@, cur as int, (n - k) as u64) {
                Some(rest) => sdec_inventory_list(data@, pos as int, n) == Some(
                    (v@ + rest.0, rest.1),
                ),
                None => sdec_inventory_list(data@, pos as int, n) is None,
            },
        decreases n - k,
    {
        match decode_pos_inventory(data, cur) {
            Some(elem) => {
                proof {
                    let tail = sdec_inventory_list(data@, elem.1 as int, (n - k - 1) as u64);
                    if tail is Some {
                        assert(v@.push(elem.0) + tail->Some_0.0 =~= v@ + (seq![elem.0]
                            + tail->Some_0.0));
                    }
                }
                v.push(elem.0);
                cur = elem.1;
            },
            None => {
                return None;
            },
        }
        k = k + 1;
    }
    proof {
        assert(v@ + Seq::<PositionedObject<InventoryObject>>::empty() =~= v@);
    }
    Some((v, cur))
}


// ===== the world snapshot =====

/// The durable part of the world, as one mathematical value: the
/// transient event list and per-tick totals are not persisted, and the
/// dropped-loot collection is likewise outside the snapshot (loot
/// emission is disabled under the recycle policy, so it is empty in every
/// reachable world).
pub struct SnapshotModel {
    pub id_allocator: u64,
    pub counter: u64,
    pub monsters: Seq<PositionedObject<Monster>>,
    pub spawners: Seq<PositionedObject<Spawner>>,
    pub collectors: Seq<PositionedObject<Collector>>,
    pub towers: Seq<PositionedObject<InventoryObject>>,
}

pub open spec fn snapshot_of(s: crate::state::State) -> SnapshotModel {
    SnapshotModel {
        id_allocator: s.id_allocator,
        counter: s.counter,
        monsters: s.monsters@,
        spawners: s.spawners@,
        collectors: s.collectors@,
        towers: s.towers@,
    }
}

pub open spec fn enc_snapshot(m: SnapshotModel) -> Seq<u64> {
    seq![
        m.id_allocator,
        m.counter,
        m.monsters.len() as u64,
        m.spawners.len() as u64,
        m.collectors.len() as u64,
        m.towers.len() as u64,
    ] + enc_monster_list(m.monsters) + enc_spawner_list(m.spawners) + enc_collector_list(
        m.collectors,
    ) + enc_inventory_list(m.towers)
}

pub open spec fn sdec_snapshot(s: Seq<u64>, i: int) -> Option<(SnapshotModel, int)> {
    if 0 <= i && i + 6 <= s.len() {
        match sdec_monster_list(s, i + 6, s[i + 2]) {
            Some(ms) => match sdec_spawner_list(s, ms.1, s[i + 3]) {
                Some(sps) => match sdec_collector_list(s, sps.1, s[i + 4]) {
                    Some(cs) => match sdec_inventory_list(s, cs.1, s[i + 5]) {
                        Some(ts) => Some(
                            (
                                SnapshotModel {
                                    id_allocator: s[i],
                                    counter: s[i + 1],
                                    monsters: ms.0,
                                    spawners: sps.0,
                                    collectors: cs.0,
                                    towers: ts.0,
                                },
                                ts.1,
                            ),
                        ),
                        None => None,
                    },
                    None => None,
                },
                None => None,
            },
            None => None,
        }
    } else {
        None
    }
}

/// Positions below `2^32` on both axes, as the packed-word codec needs.
pub open spec fn snapshot_packable(m: SnapshotModel) -> bool {
    &&& m.monsters.len() <= u64::MAX
    &&& m.spawners.len() <= u64::MAX
    &&& m.collectors.len() <= u64::MAX
    &&& m.towers.len() <= u64::MAX
    &&& forall|k: int|
        0 <= k < m.monsters.len() ==> (#[trigger] m.monsters[k]).position.x < 0x1_0000_0000
            && m.monsters[k].position.y < 0x1_0000_0000
    &&& forall|k: int|
        0 <= k < m.spawners.len() ==> (#[trigger] m.spawners[k]).position.x < 0x1_0000_0000
            && m.spawners[k].position.y < 0x1_0000_0000
    &&& forall|k: int|
        0 <= k < m.collectors.len() ==> (#[trigger] m.collectors[k]).position.x < 0x1_0000_0000
            && m.collectors[k].position.y < 0x1_0000_0000
    &&& forall|k: int|
        0 <= k < m.towers.len() ==> (#[trigger] m.towers[k]).position.x < 0x1_0000_0000
            && m.towers[k].position.y < 0x1_0000_0000
}

/// Decoding a whole snapshot undoes encoding it: the codec round-trip
/// law at world level.
pub proof fn lemma_snapshot_roundtrip(m: SnapshotModel)
    requires
        snapshot_packable(m),
    ensures
        sdec_snapshot(enc_snapshot(m), 0) == Some((m, enc_snapshot(m).len() as int)),
{
    let header = seq![
        m.id_allocator,
        m.counter,
        m.monsters.len() as u64,
        m.spawners.len() as u64,
        m.collectors.len() as u64,
        m.towers.len() as u64,
    ];
    let em = enc_monster_list(m.monsters);
    let es = enc_spawner_list(m.spawners);
    let ec = enc_collector_list(m.collectors);
    let et = enc_inventory_list(m.towers);
    let s = enc_snapshot(m);
    assert(s =~= header + em + es + ec + et);
    assert(s =~= header + em + (es + (ec + et)));
    lemma_monster_list_roundtrip(m.monsters, header, es + (ec + et));
    let p1 = header + em;
    assert(s =~= p1 + es + (ec + et));
    lemma_spawner_list_roundtrip(m.spawners, p1, ec + et);
    let p2 = p1 + es;
    assert(s =~= p2 + ec + et);
    lemma_collector_list_roundtrip(m.collectors, p2, et);
    let p3 = p2 + ec;
    assert(s =~= p3 + et + Seq::<u64>::empty());
    lemma_inventory_list_roundtrip(m.towers, p3, Seq::<u64>::empty());
    assert(s[2] == m.monsters.len() as u64);
    assert(s[3] == m.spawners.len() as u64);
    assert(s[4] == m.collectors.len() as u64);
    assert(s[5] == m.towers.len() as u64);
}

/// A well-formed world is packable: the grid bounds its positions.
pub proof fn lemma_wf_state_packable(st: crate::state::State)
    requires
        st.wf(),
        st.monsters@.len() <= u64::MAX,
        st.spawners@.len() <= u64::MAX,
        st.collectors@.len() <= u64::MAX,
        st.towers@.len() <= u64::MAX,
    ensures
        snapshot_packable(snapshot_of(st)),
{
    assert(st.map.width <= 0xffff && st.map.height <= 0xffff);
}

/// The round-trip law for the whole world: decoding the encoding of any
/// well-formed world yields that world's durable state exactly.
pub proof fn lemma_world_roundtrip(st: crate::state::State)
    requires
        st.wf(),
        st.monsters@.len() <= u64::MAX,
        st.spawners@.len() <= u64::MAX,
        st.collectors@.len() <= u64::MAX,
        st.towers@.len() <= u64::MAX,
    ensures
        sdec_snapshot(enc_snapshot(snapshot_of(st)), 0) == Some(
            (snapshot_of(st), enc_snapshot(snapshot_of(st)).len() as int),
        ),
{
    lemma_wf_state_packable(st);
    lemma_snapshot_roundtrip(snapshot_of(st));
}

/// The decoded durable state, as plain data.
pub struct Snapshot {
    pub id_allocator: u64,
    pub counter: u64,
    pub monsters: Vec<PositionedObject<Monster>>,
    pub spawners: Vec<PositionedObject<Spawner>>,
    pub collectors: Vec<PositionedObject<Collector>>,
    pub towers: Vec<PositionedObject<InventoryObject>>,
}

impl Snapshot {
    pub open spec fn model(self) -> SnapshotModel {
        SnapshotModel {
            id_allocator: self.id_allocator,
            counter: self.counter,
            monsters: self.monsters@,
            spawners: self.spawners@,
            collectors: self.collectors@,
            towers: self.towers@,
        }
    }
}

/// Serializes the durable part of the world in snapshot order.
pub fn encode_state(st: &crate::state::State) -> (r: Vec<u64>)
    requires
        st.wf(),
    ensures
        r@ == enc_snapshot(snapshot_of(*st)),
{
    let mut data: Vec<u64> = Vec::new();
    data.push(st.id_allocator);
    data.push(st.counter);
    data.push(st.monsters.len() as u64);
    data.push(st.spawners.len() as u64);
    data.push(st.collectors.len() as u64);
    data.push(st.towers.len() as u64);
    encode_monster_list(&st.monsters, &mut data);
    encode_spawner_list(&st.spawners, &mut data);
    encode_collector_list(&st.collectors, &mut data);
    encode_inventory_list(&st.towers, &mut data);
    proof {
        assert(data@ =~= enc_snapshot(snapshot_of(*st)));
    }
    data
}

/// Parses a snapshot back; fails loudly (`None`) exactly when the words
/// are not a snapshot: truncation or a tag outside the table.
pub fn decode_snapshot(data: &Vec<u64>, pos: usize) -> (r: Option<(Snapshot, usize)>)
    ensures
        match r {
            Some(v) => sdec_snapshot(data@, pos as int) matches Some(w) && v.0.model() == w.0
                && v.1 == w.1,
            None => sdec_snapshot(data@, pos as int) is None,
        },
{
    if pos >= data.len() || data.len() - pos < 6 {
        return None;
    }
    let id_allocator = data[pos];
    let counter = data[pos + 1];
    let nm = data[pos + 2];
    let ns = data[pos + 3];
    let nc = data[pos + 4];
    let nt = data[pos + 5];
    let monsters = match decode_monster_list(data, pos + 6, nm) {
        Some(v) => v,
        None => {
            return None;
        },
    };
    let spawners = match decode_spawner_list(data, monsters.1, ns) {
        Some(v) => v,
        None => {
            return None;
        },
    };
    let collectors = match decode_collector_list(data, spawners.1, nc) {
        Some(v) => v,
        None => {
            return None;
        },
    };
    let towers = match decode_inventory_list(data, collectors.1, nt) {
        Some(v) => v,
        None => {
            return None;
        },
    };
    Some(
        (
            Snapshot {
                id_allocator,
                counter,
                monsters: monsters.0,
                spawners: spawners.0,
                collectors: collectors.0,
                towers: towers.0,
            },
            towers.1,
        ),
    )
}

} // verus!
