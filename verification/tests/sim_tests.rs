use tower_defence::config::build_map;
use tower_defence::config::init_state;
use tower_defence::config::layout_codes;
use tower_defence::config::spawn_monster;
use tower_defence::object::Collector;
use tower_defence::object::InventoryObject;
use tower_defence::object::Monster;
use tower_defence::object::Object;
use tower_defence::object::Spawner;
use tower_defence::object::Tower;
use tower_defence::state::Event;
use tower_defence::state::PositionedObject;
use tower_defence::state::State;
use tower_defence::tile::RectCoordinate;
use tower_defence::tile::RectDirection;

/// A 5 by 1 corridor: path features pointing right on the first four
/// tiles, a featureless last tile.
fn corridor() -> State {
    let codes: Vec<u8> = vec![4, 4, 4, 4, 0];
    let map = build_map(5, 1, &codes).unwrap();
    State {
        id_allocator: 0,
        counter: 0,
        map,
        monsters: Vec::new(),
        drops: Vec::new(),
        collectors: Vec::new(),
        spawners: Vec::new(),
        towers: Vec::new(),
        events: Vec::new(),
        leaked: 0,
        collected: 0,
    }
}

#[test]
fn spawner_tier_table() {
    let m1 = spawn_monster(1);
    assert_eq!((m1.hp, m1.hit, m1.kill), (30, 1, 6));
    let m3 = spawn_monster(3);
    assert_eq!((m3.hp, m3.hit, m3.kill), (150, 1, 12));
    let m10 = spawn_monster(10);
    assert_eq!((m10.hp, m10.hit, m10.kill), (750, 1, 56));
    // every 10th outranks every 3rd
    let m30 = spawn_monster(30);
    assert_eq!(m30.hp, 750);
    let m9 = spawn_monster(9);
    assert_eq!(m9.hp, 150);
}

#[test]
fn scenario_spawn_path_collect() {
    // A spawner with rate 3 at (0,0), a collector at (4,0), the corridor
    // pointing right in between.
    let mut s = corridor();
    s.place_spawner_at(Spawner { rate: 3, count: 3, seq: 0 }, RectCoordinate::new(0, 0));
    s.place_collector_at(Collector::new(5), RectCoordinate::new(4, 0));
    // Three ticks count the spawner down to zero; nothing spawns yet.
    for _ in 0..3 {
        assert!(s.check_run_ok());
        s.run();
        assert!(s.monsters.is_empty());
    }
    // The counter has reached zero: the fourth tick spawns a tier-1
    // monster at the spawner's position.
    s.run();
    assert_eq!(s.monsters.len(), 1);
    assert_eq!(s.monsters[0].position, RectCoordinate::new(0, 0));
    assert_eq!(s.monsters[0].object, Monster::new(30, 1, 6));
    assert_eq!(s.spawners[0].object.count, 3); // rate reloaded
    assert_eq!(s.spawners[0].object.seq, 1);
    // Four further ticks walk it to the collector tile (the spawner
    // keeps counting and emits a second monster on the last of them).
    for _ in 0..4 {
        s.run();
    }
    assert!(s.monsters.iter().any(|m| m.position == RectCoordinate::new(4, 0)));
    // The next tick consumes it and records its hit points as leak
    // damage.
    s.run();
    assert!(s.monsters.iter().all(|m| m.position != RectCoordinate::new(4, 0)));
    assert_eq!(s.leaked, 30);
}

fn kill_arena() -> State {
    // A tower with power 10 and no cooldown at (0,0) firing right; a
    // monster with 10 hit points, hit reward 1 and kill reward 5 at
    // (3,0) on its row.
    let codes: Vec<u8> = vec![0, 0, 0, 0, 0];
    let map = build_map(5, 1, &codes).unwrap();
    let mut tower = Tower::new(1, 3, 10, 0, (0, 0), RectDirection::Right);
    tower.count = 0;
    let record = InventoryObject::new(7, Object::Tower(tower));
    let mut s = State {
        id_allocator: 0,
        counter: 0,
        map,
        monsters: Vec::new(),
        drops: Vec::new(),
        collectors: Vec::new(),
        spawners: Vec::new(),
        towers: Vec::new(),
        events: Vec::new(),
        leaked: 0,
        collected: 0,
    };
    s.map.set_occupy(&RectCoordinate::new(0, 0), 1);
    s.towers.push(PositionedObject::new(record, RectCoordinate::new(0, 0), 1));
    s.monsters.push(PositionedObject::new(Monster::new(10, 1, 5), RectCoordinate::new(3, 0), 2));
    s
}

#[test]
fn scenario_tower_kill_accrues_reward() {
    let mut s = kill_arena();
    assert!(s.check_run_ok());
    s.run();
    // The kill recycles the monster in place: hit points reset to its
    // born value, and the tower's record gains hit plus kill reward.
    assert_eq!(s.monsters.len(), 1);
    assert_eq!(s.monsters[0].object.hp, 10);
    assert_eq!(s.towers[0].object.reward, 6);
    assert_eq!(
        s.events,
        vec![Event::Attack((0, 0), (3, 0), 10)]
    );
}

#[test]
fn tower_counts_down_and_reloads() {
    let mut s = kill_arena();
    // Give the tower a cooldown of 2, mid-countdown.
    let mut po = s.towers[0];
    if let Object::Tower(ref mut t) = po.object.object {
        t.cooldown = 2;
        t.count = 2;
    }
    s.towers[0] = po;
    s.run();
    if let Object::Tower(t) = s.towers[0].object.object {
        assert_eq!(t.count, 1);
    } else {
        panic!("placed record must hold a tower");
    }
    assert!(s.events.is_empty());
    s.run();
    // countdown reached zero: still no shot this tick
    s.run();
    // now it fires and reloads
    if let Object::Tower(t) = s.towers[0].object.object {
        assert_eq!(t.count, 2);
    } else {
        panic!("placed record must hold a tower");
    }
    assert_eq!(s.events.len(), 1);
}

#[test]
fn targeting_prefers_closest_then_scan_order() {
    let mut s = kill_arena();
    s.monsters.clear();
    s.monsters.push(PositionedObject::new(Monster::new(50, 1, 5), RectCoordinate::new(4, 0), 2));
    s.monsters.push(PositionedObject::new(Monster::new(50, 1, 5), RectCoordinate::new(2, 0), 3));
    s.monsters.push(PositionedObject::new(Monster::new(50, 1, 5), RectCoordinate::new(2, 0), 4));
    s.run();
    // The closer column wins; among the two equally close monsters the
    // first in scan order is hit.
    assert_eq!(s.monsters[0].object.hp, 50);
    assert_eq!(s.monsters[1].object.hp, 40);
    assert_eq!(s.monsters[2].object.hp, 50);
}

#[test]
fn targeting_ignores_wrong_side_and_off_axis() {
    let codes: Vec<u8> = vec![0; 9];
    let map = build_map(3, 3, &codes).unwrap();
    let mut tower = Tower::new(1, 3, 10, 0, (0, 0), RectDirection::Right);
    tower.count = 0;
    let record = InventoryObject::new(7, Object::Tower(tower));
    let mut s = State {
        id_allocator: 0,
        counter: 0,
        map,
        monsters: Vec::new(),
        drops: Vec::new(),
        collectors: Vec::new(),
        spawners: Vec::new(),
        towers: Vec::new(),
        events: Vec::new(),
        leaked: 0,
        collected: 0,
    };
    s.map.set_occupy(&RectCoordinate::new(1, 1), 1);
    s.towers.push(PositionedObject::new(record, RectCoordinate::new(1, 1), 1));
    // off-axis and wrong-side monsters: none qualifies for a
    // right-facing tower at (1,1)
    s.monsters.push(PositionedObject::new(Monster::new(50, 1, 5), RectCoordinate::new(0, 1), 2));
    s.monsters.push(PositionedObject::new(Monster::new(50, 1, 5), RectCoordinate::new(1, 0), 3));
    s.monsters.push(PositionedObject::new(Monster::new(50, 1, 5), RectCoordinate::new(2, 2), 4));
    s.run();
    assert!(s.events.is_empty());
    assert!(s.monsters.iter().all(|m| m.object.hp == 50));
}

#[test]
fn run_is_deterministic() {
    // Identical worlds advance identically, tick after tick.
    let codes = layout_codes();
    let mut a = init_state(&codes).unwrap();
    let mut b = init_state(&codes).unwrap();
    for _ in 0..25 {
        a.run();
        b.run();
        assert_eq!(a.monsters, b.monsters);
        assert_eq!(a.spawners, b.spawners);
        assert_eq!(a.towers, b.towers);
        assert_eq!(a.events, b.events);
        assert_eq!(a.id_allocator, b.id_allocator);
        assert_eq!(a.counter, b.counter);
    }
}

#[test]
fn ids_stay_unique_across_ticks() {
    let codes = layout_codes();
    let mut s = init_state(&codes).unwrap();
    for _ in 0..40 {
        s.run();
    }
    let mut ids: Vec<u64> = Vec::new();
    for m in s.monsters.iter() {
        ids.push(m.id);
    }
    for sp in s.spawners.iter() {
        ids.push(sp.id);
    }
    for c in s.collectors.iter() {
        ids.push(c.id);
    }
    for t in s.towers.iter() {
        ids.push(t.id);
    }
    let mut sorted = ids.clone();
    sorted.sort_unstable();
    sorted.dedup();
    assert_eq!(sorted.len(), ids.len());
    assert!(ids.iter().all(|&id| 1 <= id && id <= s.id_allocator));
}

#[test]
fn occupancy_tracks_placement_and_removal() {
    let mut s = corridor();
    let pos = RectCoordinate::new(2, 0);
    assert_eq!(s.map.get_occupy(&pos), 0);
    let record = InventoryObject::new(5, Object::Tower(Tower::new(1, 3, 1, 3, (0, 0), RectDirection::Top)));
    let id = s.place_tower_at(&record, pos).unwrap();
    assert_eq!(id, 1);
    assert_ne!(s.map.get_occupy(&pos), 0);
    // a second placement on the same tile is rejected
    assert_eq!(s.place_tower_at(&record, pos), Err(tower_defence::command::ERROR_POSITION_OCCUPIED));
    let removed = s.remove_tower_at(0);
    assert_eq!(removed.id, id);
    assert_eq!(s.map.get_occupy(&pos), 0);
    assert!(s.towers.is_empty());
}

#[test]
fn initial_world_layout() {
    let codes = layout_codes();
    assert_eq!(codes.len(), 400);
    let s = init_state(&codes).unwrap();
    assert_eq!(s.map.width, 20);
    assert_eq!(s.map.height, 20);
    assert_eq!(s.map.tiles.len(), 400);
    assert_eq!(s.spawners.len(), 1);
    assert_eq!(s.spawners[0].id, 1);
    assert_eq!(s.spawners[0].position, RectCoordinate::new(0, 0));
    assert_eq!(s.collectors.len(), 1);
    assert_eq!(s.collectors[0].id, 2);
    assert_eq!(s.collectors[0].position, RectCoordinate::new(19, 19));
    assert_eq!(s.map.get_feature(0), Some(RectDirection::Right));
    assert_eq!(s.map.get_feature(399), None);
    // the spawner and collector tiles are the only occupied ones
    let occupied: Vec<usize> =
        (0..400).filter(|&i| s.map.tiles[i].occupied != 0).collect();
    assert_eq!(occupied, vec![0, 399]);
}

#[test]
fn bad_layout_rejected() {
    // a right-pointing feature on the right edge would displace off-grid
    let codes: Vec<u8> = vec![0, 0, 0, 0, 4];
    assert!(build_map(5, 1, &codes).is_none());
    assert!(init_state(&vec![0u8; 399]).is_none());
    // a code outside the table
    let codes2: Vec<u8> = vec![5, 0, 0, 0, 0];
    assert!(build_map(5, 1, &codes2).is_none());
}
