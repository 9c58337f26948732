use tower_defence::codec::decode_collector;
use tower_defence::codec::decode_dropped;
use tower_defence::codec::decode_inventory;
use tower_defence::codec::decode_monster;
use tower_defence::codec::decode_object;
use tower_defence::codec::decode_pos_monster;
use tower_defence::codec::decode_snapshot;
use tower_defence::codec::decode_spawner;
use tower_defence::codec::decode_tower;
use tower_defence::codec::encode_collector;
use tower_defence::codec::encode_dropped;
use tower_defence::codec::encode_inventory;
use tower_defence::codec::encode_monster;
use tower_defence::codec::encode_object;
use tower_defence::codec::encode_pos_monster;
use tower_defence::codec::encode_state;
use tower_defence::codec::encode_spawner;
use tower_defence::codec::encode_tower;
use tower_defence::config::init_state;
use tower_defence::config::layout_codes;
use tower_defence::object::Collector;
use tower_defence::object::Dropped;
use tower_defence::object::InventoryObject;
use tower_defence::object::Monster;
use tower_defence::object::Object;
use tower_defence::object::Spawner;
use tower_defence::object::Tower;
use tower_defence::player::Player;
use tower_defence::player::PlayerData;
use tower_defence::state::PositionedObject;
use tower_defence::tile::RectCoordinate;
use tower_defence::tile::RectDirection;

#[test]
fn monster_roundtrip() {
    let m = Monster::new(30, 1, 6);
    let mut data = Vec::new();
    encode_monster(&m, &mut data);
    assert_eq!(data, vec![30, 30, 1, 6]);
    let (back, end) = decode_monster(&data, 0).unwrap();
    assert_eq!(back, m);
    assert_eq!(end, 4);
}

#[test]
fn monster_truncated_fails() {
    let data = vec![1, 2, 3];
    assert!(decode_monster(&data, 0).is_none());
}

#[test]
fn tower_roundtrip_mid_cooldown() {
    // A tower whose countdown differs from its cooldown still survives
    // the codec: the countdown is part of the wire format.
    let mut t = Tower::new(2, 5, 3, 2, (7, 9), RectDirection::Left);
    t.count = 1;
    let mut data = Vec::new();
    encode_tower(&t, &mut data);
    assert_eq!(data, vec![2, 5, 3, 2, 1, 7, 9, 2]);
    let (back, end) = decode_tower(&data, 0).unwrap();
    assert_eq!(back, t);
    assert_eq!(end, 8);
}

#[test]
fn tower_max_level_roundtrip() {
    let t = tower_defence::config::build_tower(3, RectDirection::Bottom);
    let mut data = Vec::new();
    encode_tower(&t, &mut data);
    let (back, _) = decode_tower(&data, 0).unwrap();
    assert_eq!(back, t);
    assert_eq!(back.range, 7);
    assert_eq!(back.power, 10);
    assert_eq!(back.cooldown, 1);
}

#[test]
fn tower_bad_direction_fails() {
    let data = vec![1, 3, 1, 3, 3, 0, 0, 4];
    assert!(decode_tower(&data, 0).is_none());
}

#[test]
fn spawner_roundtrip() {
    let mut sp = Spawner::new(6, 2);
    sp.seq = 11;
    let mut data = Vec::new();
    encode_spawner(&sp, &mut data);
    assert_eq!(data, vec![6, 2, 11]);
    let (back, _) = decode_spawner(&data, 0).unwrap();
    assert_eq!(back, sp);
}

#[test]
fn collector_and_dropped_roundtrip() {
    let c = Collector::new(5);
    let d = Dropped::new(10);
    let mut data = Vec::new();
    encode_collector(&c, &mut data);
    encode_dropped(&d, &mut data);
    assert_eq!(data, vec![5, 10]);
    let (cb, end) = decode_collector(&data, 0).unwrap();
    let (db, _) = decode_dropped(&data, end).unwrap();
    assert_eq!(cb, c);
    assert_eq!(db, d);
}

#[test]
fn object_tags_roundtrip() {
    let objects = vec![
        Object::Monster(Monster::new(30, 1, 6)),
        Object::Tower(Tower::new(1, 3, 1, 3, (0, 0), RectDirection::Top)),
        Object::Spawner(Spawner::new(6, 0)),
        Object::Dropped(Dropped::new(10)),
        Object::Collector(Collector::new(5)),
    ];
    for (tag, o) in objects.iter().enumerate() {
        let mut data = Vec::new();
        encode_object(o, &mut data);
        assert_eq!(data[0], tag as u64);
        let (back, end) = decode_object(&data, 0).unwrap();
        assert_eq!(back, *o);
        assert_eq!(end, data.len());
    }
}

#[test]
fn object_bad_tag_fails_loudly() {
    let data = vec![9, 1, 2, 3, 4];
    assert!(decode_object(&data, 0).is_none());
}

#[test]
fn inventory_record_roundtrip_zero_reward() {
    let io = InventoryObject::new(42, Object::Tower(Tower::new(1, 3, 1, 3, (0, 0), RectDirection::Right)));
    assert_eq!(io.reward, 0);
    let mut data = Vec::new();
    encode_inventory(&io, &mut data);
    // object body, then the reward word, then the low id word
    assert_eq!(data[data.len() - 2], 0);
    assert_eq!(data[data.len() - 1], 42);
    let (back, _) = decode_inventory(&data, 0).unwrap();
    assert_eq!(back, io);
}

#[test]
fn positioned_monster_roundtrip_packs_position() {
    let p = PositionedObject::new(Monster::new(150, 1, 12), RectCoordinate::new(3, 17), 9);
    let mut data = Vec::new();
    encode_pos_monster(&p, &mut data);
    assert_eq!(data[0], 9);
    assert_eq!(data[1], (3u64 << 32) | 17);
    let (back, _) = decode_pos_monster(&data, 0).unwrap();
    assert_eq!(back, p);
}

#[test]
fn world_snapshot_roundtrip() {
    let codes = layout_codes();
    let state = init_state(&codes).unwrap();
    let data = encode_state(&state);
    assert_eq!(data[0], 2); // id allocator
    assert_eq!(data[1], 0); // tick counter
    assert_eq!(data[2], 0); // monsters
    assert_eq!(data[3], 1); // spawners
    assert_eq!(data[4], 1); // collectors
    assert_eq!(data[5], 0); // towers
    let (snap, end) = decode_snapshot(&data, 0).unwrap();
    assert_eq!(end, data.len());
    assert_eq!(snap.id_allocator, state.id_allocator);
    assert_eq!(snap.counter, state.counter);
    assert_eq!(snap.monsters, state.monsters);
    assert_eq!(snap.spawners, state.spawners);
    assert_eq!(snap.collectors, state.collectors);
    assert_eq!(snap.towers, state.towers);
}

#[test]
fn world_snapshot_roundtrip_after_ticks() {
    let codes = layout_codes();
    let mut state = init_state(&codes).unwrap();
    for _ in 0..12 {
        assert!(state.check_run_ok());
        state.run();
    }
    assert!(!state.monsters.is_empty());
    let data = encode_state(&state);
    let (snap, _) = decode_snapshot(&data, 0).unwrap();
    assert_eq!(snap.monsters, state.monsters);
    assert_eq!(snap.spawners, state.spawners);
    assert_eq!(snap.collectors, state.collectors);
    assert_eq!(snap.towers, state.towers);
}

#[test]
fn snapshot_truncated_fails() {
    let codes = layout_codes();
    let state = init_state(&codes).unwrap();
    let mut data = encode_state(&state);
    data.pop();
    assert!(decode_snapshot(&data, 0).is_none());
}

#[test]
fn player_data_roundtrip() {
    let pd = PlayerData { inventory: vec![4, 8, 15], reward: 99 };
    let mut data = Vec::new();
    pd.to_data(&mut data);
    assert_eq!(data, vec![3, 4, 8, 15, 99]);
    let (back, end) = PlayerData::from_data(&data, 0).unwrap();
    assert_eq!(back.inventory, pd.inventory);
    assert_eq!(back.reward, pd.reward);
    assert_eq!(end, 5);
}

#[test]
fn player_record_roundtrip() {
    let p = Player {
        player_id: (11, 22),
        nonce: 7,
        data: PlayerData { inventory: vec![42], reward: 1500 },
    };
    let mut data = Vec::new();
    p.encode(&mut data);
    assert_eq!(data, vec![7, 1, 42, 1500]);
    let (back, _) = Player::decode(&data, 0, (11, 22)).unwrap();
    assert_eq!(back, p);
}

#[test]
fn player_record_truncated_fails() {
    let data = vec![7, 2, 42];
    assert!(Player::decode(&data, 0, (1, 2)).is_none());
}
