use tower_defence::command::Engine;
use tower_defence::command::Transaction;
use tower_defence::command::CMD_COLLECT_REWARDS;
use tower_defence::command::CMD_DROP_TOWER;
use tower_defence::command::CMD_MINT_TOWER;
use tower_defence::command::CMD_PLACE_TOWER;
use tower_defence::command::CMD_RUN;
use tower_defence::command::CMD_UPGRADE_TOWER;
use tower_defence::command::CMD_WITHDRAW_REWARDS;
use tower_defence::command::CMD_WITHDRAW_TOWER;
use tower_defence::command::ERROR_POSITION_OCCUPIED;
use tower_defence::command::FATAL_INSUFFICIENT_BALANCE;
use tower_defence::command::FATAL_INSUFFICIENT_REWARD;
use tower_defence::command::FATAL_LEVEL_LIMIT;
use tower_defence::command::FATAL_NONCE_MISMATCH;
use tower_defence::command::FATAL_NOT_OWNED;
use tower_defence::command::FATAL_PLAYER_NOT_FOUND;
use tower_defence::command::FATAL_STORE_CORRUPT;
use tower_defence::codec::Snapshot;
use tower_defence::config::build_map;
use tower_defence::object::Spawner;
use tower_defence::state::State;
use tower_defence::config::init_state;
use tower_defence::object::InventoryObject;
use tower_defence::store::KvStore;
use tower_defence::config::layout_codes;
use tower_defence::object::Monster;
use tower_defence::object::Object;
use tower_defence::object::Tower;
use tower_defence::state::PositionedObject;
use tower_defence::tile::RectCoordinate;
use tower_defence::player::Player;
use tower_defence::player::PlayerData;
use tower_defence::tile::RectDirection;

const PKEY: [u64; 4] = [0, 11, 22, 0];
const PID0: u64 = 11;
const PID1: u64 = 22;

fn fresh_engine() -> Engine {
    let codes = layout_codes();
    Engine::new(init_state(&codes).unwrap())
}

fn word0(op: u64, feature: u64, nonce: u64) -> u64 {
    op | (feature << 8) | (nonce << 16)
}

fn run_cmd(engine: &mut Engine, cmd: [u64; 4]) -> u32 {
    Transaction::decode(cmd).process(engine, &PKEY)
}

/// Mints inventory object `iid` (direction feature 1: firing right) to
/// the test player.  A player created by the mint starts at nonce 1.
fn mint(engine: &mut Engine, iid: u64) {
    let r = run_cmd(engine, [word0(CMD_MINT_TOWER, 1, 0), iid, PID0, PID1]);
    assert_eq!(r, 0);
}

#[test]
fn mint_creates_record_and_player() {
    let mut e = fresh_engine();
    mint(&mut e, 42);
    assert_eq!(e.players.len(), 1);
    assert_eq!(e.players[0].player_id, (PID0, PID1));
    assert_eq!(e.players[0].nonce, 1);
    assert_eq!(e.players[0].data.inventory, vec![42]);
    assert_eq!(e.inventory.len(), 1);
    assert_eq!(e.inventory[0].object_id, 42);
    if let Object::Tower(t) = e.inventory[0].object {
        assert_eq!(t.lvl, 1);
        assert_eq!(t.owner, (PID0, PID1));
        assert_eq!(t.direction, RectDirection::Right);
    } else {
        panic!("the minted record must hold a tower");
    }
    // minting again re-owns without duplicating
    mint(&mut e, 42);
    assert_eq!(e.players.len(), 1);
    assert_eq!(e.inventory.len(), 1);
    assert_eq!(e.players[0].data.inventory, vec![42]);
}

#[test]
fn place_tower_flow_and_occupied_tile() {
    let mut e = fresh_engine();
    mint(&mut e, 42);
    // tile 25 = (5,1), free on the canonical map
    let r = run_cmd(&mut e, [word0(CMD_PLACE_TOWER, 1, 1), 42, 25, 0]);
    assert_eq!(r, 0);
    assert_eq!(e.players[0].nonce, 2);
    assert_eq!(e.state.towers.len(), 1);
    assert_eq!(e.state.towers[0].object.object_id, 42);
    assert_ne!(e.state.map.tiles[25].occupied, 0);
    // a second tower on the same tile is rejected, nonce untouched
    mint(&mut e, 43);
    let r2 = run_cmd(&mut e, [word0(CMD_PLACE_TOWER, 1, 2), 43, 25, 0]);
    assert_eq!(r2, ERROR_POSITION_OCCUPIED);
    assert_eq!(e.players[0].nonce, 2);
    assert_eq!(e.state.towers.len(), 1);
}

#[test]
fn place_requires_ownership_and_player() {
    let mut e = fresh_engine();
    // no player record at all
    let r = run_cmd(&mut e, [word0(CMD_PLACE_TOWER, 1, 0), 42, 25, 0]);
    assert_eq!(r, FATAL_PLAYER_NOT_FOUND);
    // player exists but does not own the id
    mint(&mut e, 42);
    let r2 = run_cmd(&mut e, [word0(CMD_PLACE_TOWER, 1, 1), 99, 25, 0]);
    assert_eq!(r2, FATAL_NOT_OWNED);
    assert_eq!(e.players[0].nonce, 1);
}

#[test]
fn nonce_replay_rejected() {
    // P4: the same command twice with the same nonce: the second attempt
    // aborts with a nonce mismatch and changes nothing.
    let mut e = fresh_engine();
    mint(&mut e, 42);
    let cmd = [word0(CMD_COLLECT_REWARDS, 0, 1), 42, 0, 0];
    assert_eq!(run_cmd(&mut e, cmd), 0);
    assert_eq!(e.players[0].nonce, 2);
    let before_reward = e.players[0].data.reward;
    assert_eq!(run_cmd(&mut e, cmd), FATAL_NONCE_MISMATCH);
    assert_eq!(e.players[0].nonce, 2);
    assert_eq!(e.players[0].data.reward, before_reward);
}

#[test]
fn nonce_in_order_succeeds_and_gap_aborts() {
    let mut e = fresh_engine();
    mint(&mut e, 42);
    // nonce 1, then 2: both succeed in order
    assert_eq!(run_cmd(&mut e, [word0(CMD_COLLECT_REWARDS, 0, 1), 42, 0, 0]), 0);
    assert_eq!(run_cmd(&mut e, [word0(CMD_COLLECT_REWARDS, 0, 2), 42, 0, 0]), 0);
    assert_eq!(e.players[0].nonce, 3);
    // nonce 3 then 5: the gap aborts
    assert_eq!(run_cmd(&mut e, [word0(CMD_COLLECT_REWARDS, 0, 3), 42, 0, 0]), 0);
    assert_eq!(
        run_cmd(&mut e, [word0(CMD_COLLECT_REWARDS, 0, 5), 42, 0, 0]),
        FATAL_NONCE_MISMATCH
    );
    assert_eq!(e.players[0].nonce, 4);
}

#[test]
fn scenario_upgrade_cost_gate() {
    // P8: below the level-1 cost the upgrade aborts and the level stays;
    // with enough accrued reward the level rises to 2 and the stats
    // match the level-2 row exactly.
    let mut e = fresh_engine();
    mint(&mut e, 42);
    e.inventory[0].reward = 1499;
    let r = run_cmd(&mut e, [word0(CMD_UPGRADE_TOWER, 0, 1), 42, 0, 0]);
    assert_eq!(r, FATAL_INSUFFICIENT_REWARD);
    if let Object::Tower(t) = e.inventory[0].object {
        assert_eq!(t.lvl, 1);
    } else {
        panic!("record must hold a tower");
    }
    assert_eq!(e.inventory[0].reward, 1499);
    assert_eq!(e.players[0].nonce, 1);
    e.inventory[0].reward = 1500;
    let r2 = run_cmd(&mut e, [word0(CMD_UPGRADE_TOWER, 0, 1), 42, 0, 0]);
    assert_eq!(r2, 0);
    if let Object::Tower(t) = e.inventory[0].object {
        assert_eq!(t.lvl, 2);
        assert_eq!(t.range, 5);
        assert_eq!(t.power, 3);
        assert_eq!(t.cooldown, 2);
    } else {
        panic!("record must hold a tower");
    }
    assert_eq!(e.inventory[0].reward, 0);
    // the queued settlement entry packs the pre-upgrade level
    assert_eq!(e.upgrades.info, vec![(42u32 << 8) + 1]);
}

#[test]
fn upgrade_at_max_level_aborts() {
    let mut e = fresh_engine();
    mint(&mut e, 42);
    e.inventory[0].reward = 100000;
    assert_eq!(run_cmd(&mut e, [word0(CMD_UPGRADE_TOWER, 0, 1), 42, 0, 0]), 0);
    assert_eq!(run_cmd(&mut e, [word0(CMD_UPGRADE_TOWER, 0, 2), 42, 0, 0]), 0);
    let r = run_cmd(&mut e, [word0(CMD_UPGRADE_TOWER, 0, 3), 42, 0, 0]);
    assert_eq!(r, FATAL_LEVEL_LIMIT);
    if let Object::Tower(t) = e.inventory[0].object {
        assert_eq!(t.lvl, 3);
    } else {
        panic!("record must hold a tower");
    }
}

#[test]
fn upgrade_synchronizes_placed_copy() {
    // with a placed copy, the upgrade gates on and deducts from the
    // copy's accrued reward, and both copies take the new level row
    let mut e = fresh_engine();
    mint(&mut e, 42);
    assert_eq!(run_cmd(&mut e, [word0(CMD_PLACE_TOWER, 1, 1), 42, 25, 0]), 0);
    e.state.towers[0].object.reward = 1600;
    assert_eq!(run_cmd(&mut e, [word0(CMD_UPGRADE_TOWER, 0, 2), 42, 0, 0]), 0);
    if let Object::Tower(t) = e.state.towers[0].object.object {
        assert_eq!(t.lvl, 2);
        assert_eq!(t.power, 3);
    } else {
        panic!("placed record must hold a tower");
    }
    assert_eq!(e.state.towers[0].object.reward, 100);
    if let Object::Tower(t) = e.inventory[0].object {
        assert_eq!(t.lvl, 2);
    } else {
        panic!("record must hold a tower");
    }
}

#[test]
fn withdraw_tower_checks_owner() {
    let mut e = fresh_engine();
    mint(&mut e, 42);
    // re-own the record to someone else: withdrawal by this caller fails
    let r = run_cmd(&mut e, [word0(CMD_MINT_TOWER, 1, 0), 42, 777, 888]);
    assert_eq!(r, 0);
    let r2 = run_cmd(&mut e, [word0(CMD_WITHDRAW_TOWER, 0, 1), 42, 0, 0]);
    assert_eq!(r2, tower_defence::command::FATAL_OWNER_MISMATCH);
    // re-own it back; the withdrawal removes the id from the list
    let r3 = run_cmd(&mut e, [word0(CMD_MINT_TOWER, 1, 0), 42, PID0, PID1]);
    assert_eq!(r3, 0);
    let r4 = run_cmd(&mut e, [word0(CMD_WITHDRAW_TOWER, 0, 1), 42, 0, 0]);
    assert_eq!(r4, 0);
    assert!(e.players[0].data.inventory.is_empty());
    assert_eq!(e.players[0].nonce, 2);
}

#[test]
fn drop_tower_writes_back_map_state() {
    let mut e = fresh_engine();
    mint(&mut e, 42);
    assert_eq!(run_cmd(&mut e, [word0(CMD_PLACE_TOWER, 1, 1), 42, 25, 0]), 0);
    // let the placed copy accrue reward, then knock its countdown down a
    // tick so the map copy differs from the record
    e.state.towers[0].object.reward = 5;
    if let Object::Tower(ref mut t) = e.state.towers[0].object.object {
        t.count = 1;
    }
    let r = run_cmd(&mut e, [word0(CMD_DROP_TOWER, 0, 2), 42, 0, 0]);
    assert_eq!(r, 0);
    assert!(e.state.towers.is_empty());
    assert_eq!(e.state.map.tiles[25].occupied, 0);
    // the whole placed state comes back: tower and accrued reward
    if let Object::Tower(t) = e.inventory[0].object {
        assert_eq!(t.count, 1);
    } else {
        panic!("record must hold a tower");
    }
    assert_eq!(e.inventory[0].reward, 5);
}

#[test]
fn collect_drains_record_when_not_placed() {
    let mut e = fresh_engine();
    mint(&mut e, 42);
    e.inventory[0].reward = 77;
    let r = run_cmd(&mut e, [word0(CMD_COLLECT_REWARDS, 0, 1), 42, 0, 0]);
    assert_eq!(r, 0);
    assert_eq!(e.players[0].data.reward, 77);
    assert_eq!(e.inventory[0].reward, 0);
}

#[test]
fn accrued_reward_funds_upgrade_and_survives_drop() {
    // the whole economy in one round: firing funds the placed copy, the
    // upgrade spends from it, dropping writes the rest back, collecting
    // banks it
    let mut e = fresh_engine();
    mint(&mut e, 42);
    // tile 5 = (5,0): a featureless tile; the tower fires right
    assert_eq!(run_cmd(&mut e, [word0(CMD_PLACE_TOWER, 1, 1), 42, 5, 0]), 0);
    // a tough monster on the firing row, off the path so it stays put
    e.state.monsters.push(PositionedObject::new(
        Monster::new(5000, 2000, 500),
        RectCoordinate::new(8, 0),
        e.state.id_allocator + 1,
    ));
    e.state.id_allocator += 1;
    // three ticks count the fresh tower down, the fourth fires
    for _ in 0..4 {
        assert_eq!(run_cmd(&mut e, [word0(CMD_RUN, 0, 0), 0, 0, 0]), 0);
    }
    assert_eq!(e.state.towers[0].object.reward, 2000);
    // the placed accrual funds the upgrade
    assert_eq!(run_cmd(&mut e, [word0(CMD_UPGRADE_TOWER, 0, 2), 42, 0, 0]), 0);
    assert_eq!(e.state.towers[0].object.reward, 500);
    // dropping writes the remainder back into the record
    assert_eq!(run_cmd(&mut e, [word0(CMD_DROP_TOWER, 0, 3), 42, 0, 0]), 0);
    assert_eq!(e.inventory[0].reward, 500);
    if let Object::Tower(t) = e.inventory[0].object {
        assert_eq!(t.lvl, 2);
    } else {
        panic!("record must hold a tower");
    }
    // collecting banks it
    assert_eq!(run_cmd(&mut e, [word0(CMD_COLLECT_REWARDS, 0, 4), 42, 0, 0]), 0);
    assert_eq!(e.players[0].data.reward, 500);
    assert_eq!(e.inventory[0].reward, 0);
}

#[test]
fn collect_rewards_moves_placed_reward() {
    let mut e = fresh_engine();
    mint(&mut e, 42);
    assert_eq!(run_cmd(&mut e, [word0(CMD_PLACE_TOWER, 1, 1), 42, 25, 0]), 0);
    e.state.towers[0].object.reward = 77;
    let r = run_cmd(&mut e, [word0(CMD_COLLECT_REWARDS, 0, 2), 42, 0, 0]);
    assert_eq!(r, 0);
    assert_eq!(e.players[0].data.reward, 77);
    assert_eq!(e.state.towers[0].object.reward, 0);
}

#[test]
fn withdraw_rewards_gate_and_record() {
    let mut e = fresh_engine();
    mint(&mut e, 42);
    // insufficient balance aborts
    let r = run_cmd(&mut e, [word0(CMD_WITHDRAW_REWARDS, 0, 1), 50, 0, 0]);
    assert_eq!(r, FATAL_INSUFFICIENT_BALANCE);
    e.players[0].data.reward = 80;
    let r2 = run_cmd(&mut e, [word0(CMD_WITHDRAW_REWARDS, 0, 1), 50, 0xaabb, 0xccdd]);
    assert_eq!(r2, 0);
    assert_eq!(e.players[0].data.reward, 30);
    let bytes = e.settlement.flush_settlement(&e.upgrades);
    assert_eq!(bytes.len(), 32);
    // opcode and padding
    assert_eq!(&bytes[0..4], &[1, 0, 0, 0]);
    // address: high half of the first limb, then the other two limbs,
    // little-endian
    assert_eq!(&bytes[4..8], &[0, 0, 0, 0]);
    assert_eq!(&bytes[8..16], &[0xbb, 0xaa, 0, 0, 0, 0, 0, 0]);
    assert_eq!(&bytes[16..24], &[0xdd, 0xcc, 0, 0, 0, 0, 0, 0]);
    // amount, big-endian
    assert_eq!(&bytes[24..32], &[0, 0, 0, 0, 0, 0, 0, 50]);
    assert!(e.settlement.bytes.is_empty());
}

#[test]
fn upgrade_batches_flush_in_fours() {
    let mut u = tower_defence::settlement::UpgradeInfo::new();
    for k in 0..5u32 {
        u.append(k + 1, (k + 1) as u8);
    }
    let mut bytes = Vec::new();
    u.flush(&mut bytes);
    // one full batch of four, then a batch of one
    assert_eq!(bytes.len(), 4 + 16 + 4 + 4);
    assert_eq!(&bytes[0..4], &[2, 0, 4, 0]);
    assert_eq!(&bytes[4..8], &[0, 0, 1, 1]); // (1 << 8) + 1, big-endian
    assert_eq!(&bytes[8..12], &[0, 0, 2, 2]);
    assert_eq!(&bytes[12..16], &[0, 0, 3, 3]);
    assert_eq!(&bytes[16..20], &[0, 0, 4, 4]);
    assert_eq!(&bytes[20..24], &[2, 0, 1, 0]);
    assert_eq!(&bytes[24..28], &[0, 0, 5, 5]);
}

#[test]
fn run_command_advances_tick() {
    let mut e = fresh_engine();
    assert_eq!(run_cmd(&mut e, [word0(CMD_RUN, 0, 0), 0, 0, 0]), 0);
    assert_eq!(e.state.counter, 1);
    // unknown opcodes succeed as no-ops
    assert_eq!(run_cmd(&mut e, [word0(99, 0, 0), 0, 0, 0]), 0);
    assert_eq!(e.state.counter, 1);
}

#[test]
fn inventory_not_found_on_place() {
    // a player listing an id whose record is missing: the recoverable
    // inventory-not-found error, state untouched
    let mut e = fresh_engine();
    e.players.push(Player {
        player_id: (PID0, PID1),
        nonce: 0,
        data: PlayerData { inventory: vec![42], reward: 0 },
    });
    let r = run_cmd(&mut e, [word0(CMD_PLACE_TOWER, 1, 0), 42, 25, 0]);
    assert_eq!(r, tower_defence::command::ERROR_INVENTORY_NOT_FOUND);
    assert!(e.state.towers.is_empty());
    assert_eq!(e.players[0].nonce, 0);
}

#[test]
fn decode_error_names() {
    assert_eq!(Transaction::decode_error(ERROR_POSITION_OCCUPIED), "PositionOccupied");
    assert_eq!(Transaction::decode_error(99), "UnknownError");
}

#[test]
fn placed_tower_fires_through_commands() {
    // A full round: mint, place at the spawner's column, run ticks until
    // a monster walks into range, and collect the accrued reward.
    let mut e = fresh_engine();
    mint(&mut e, 42);
    // tile 21 = (1,1): right of it runs the canonical path down column 1
    assert_eq!(run_cmd(&mut e, [word0(CMD_PLACE_TOWER, 3, 1), 42, 21, 0]), 0);
    for k in 0..30u64 {
        assert_eq!(run_cmd(&mut e, [word0(CMD_RUN, 0, 0), 0, 0, 0]), 0);
        let _ = k;
    }
    assert!(!e.state.monsters.is_empty());
}

#[test]
fn store_roundtrip_through_kv() {
    let codes = layout_codes();
    let mut s = init_state(&codes).unwrap();
    for _ in 0..9 {
        s.run();
    }
    let mut kv = KvStore::new();
    s.store(&mut kv);
    let snap = tower_defence::state::State::fetch(&kv).unwrap().unwrap();
    assert_eq!(snap.id_allocator, s.id_allocator);
    assert_eq!(snap.counter, s.counter);
    assert_eq!(snap.monsters, s.monsters);
    assert_eq!(snap.spawners, s.spawners);
    assert_eq!(snap.collectors, s.collectors);
    assert_eq!(snap.towers, s.towers);
}

#[test]
fn kv_records_roundtrip() {
    let mut kv = KvStore::new();
    assert!(tower_defence::state::State::fetch(&kv).unwrap().is_none());
    let rec = InventoryObject::new(
        42,
        Object::Tower(Tower::new(1, 3, 1, 3, (PID0, PID1), RectDirection::Top)),
    );
    rec.store(&mut kv);
    let back = InventoryObject::get(&kv, &tower_defence::object::to_full_obj_id(42))
        .unwrap()
        .unwrap();
    assert_eq!(back, rec);
    let p = Player {
        player_id: (PID0, PID1),
        nonce: 3,
        data: PlayerData { inventory: vec![42], reward: 9 },
    };
    p.store(&mut kv);
    let pback = Player::get_from_pid(&kv, (PID0, PID1)).unwrap().unwrap();
    assert_eq!(pback, p);
    assert!(Player::get_from_pid(&kv, (1, 2)).unwrap().is_none());
}

#[test]
fn snapshot_restore_rebuilds_world() {
    let codes = layout_codes();
    let mut s = init_state(&codes).unwrap();
    let record = InventoryObject::new(
        42,
        Object::Tower(Tower::new(1, 3, 1, 3, (PID0, PID1), RectDirection::Right)),
    );
    s.place_tower_at(&record, RectCoordinate::new(5, 5)).unwrap();
    for _ in 0..9 {
        s.run();
    }
    let mut kv = KvStore::new();
    s.store(&mut kv);
    let snap = State::fetch(&kv).unwrap().unwrap();
    let base = build_map(20, 20, &codes).unwrap();
    let rebuilt = State::restore(snap, base).unwrap();
    assert_eq!(rebuilt.id_allocator, s.id_allocator);
    assert_eq!(rebuilt.counter, s.counter);
    assert_eq!(rebuilt.monsters, s.monsters);
    assert_eq!(rebuilt.spawners, s.spawners);
    assert_eq!(rebuilt.collectors, s.collectors);
    assert_eq!(rebuilt.towers, s.towers);
    // occupancy is reconstructed exactly: the tiles match the live map
    assert_eq!(rebuilt.map.tiles, s.map.tiles);
    // and the rebuilt world is fit to keep running
    let mut rebuilt = rebuilt;
    assert!(rebuilt.check_run_ok());
    rebuilt.run();
}

#[test]
fn snapshot_restore_rejects_corruption() {
    let codes = layout_codes();
    let spawner = |id: u64, x: u64, y: u64| {
        PositionedObject::new(Spawner::new(6, 0), RectCoordinate::new(x, y), id)
    };
    let snap = |spawners: Vec<_>| Snapshot {
        id_allocator: 10,
        counter: 0,
        monsters: Vec::new(),
        spawners,
        collectors: Vec::new(),
        towers: Vec::new(),
    };
    // a sound snapshot passes
    let base = build_map(20, 20, &codes).unwrap();
    assert!(State::restore(snap(vec![spawner(1, 0, 0)]), base).is_ok());
    // a position off the grid is corruption
    let base = build_map(20, 20, &codes).unwrap();
    assert_eq!(
        State::restore(snap(vec![spawner(1, 20, 0)]), base).unwrap_err(),
        FATAL_STORE_CORRUPT
    );
    // a duplicated id is corruption
    let base = build_map(20, 20, &codes).unwrap();
    assert_eq!(
        State::restore(snap(vec![spawner(1, 0, 0), spawner(1, 1, 0)]), base).unwrap_err(),
        FATAL_STORE_CORRUPT
    );
    // an id above the allocator watermark is corruption
    let base = build_map(20, 20, &codes).unwrap();
    assert_eq!(
        State::restore(snap(vec![spawner(11, 0, 0)]), base).unwrap_err(),
        FATAL_STORE_CORRUPT
    );
    // two stationary objects on one tile are corruption
    let base = build_map(20, 20, &codes).unwrap();
    assert_eq!(
        State::restore(snap(vec![spawner(1, 0, 0), spawner(2, 0, 0)]), base).unwrap_err(),
        FATAL_STORE_CORRUPT
    );
}
