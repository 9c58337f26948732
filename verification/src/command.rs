//! The command layer: dispatch on a numeric opcode with packed feature
//! and nonce sub-fields, per-player replay protection, and the
//! ownership-checked inventory operations.
//!
//! Every command either completes with all its effects or returns an
//! error code leaving the whole engine untouched.  Recoverable business
//! errors and fatal precondition failures are both surfaced as codes;
//! the fatal tier corresponds to conditions a correct caller never
//! produces.

use vstd::prelude::*;
use crate::object::InventoryObject;
use crate::object::Object;
use crate::object::Tower;
use crate::player::Player;
use crate::settlement::SettlementInfo;
use crate::settlement::UpgradeInfo;
use crate::settlement::WithdrawInfo;
use crate::settlement::upgrade_entry;
use crate::settlement::withdraw_record;
use crate::state::PositionedObject;
use crate::state::State;
use crate::tile::Tile;
use crate::tile::spec_coordinate_of;
use crate::tile::spec_index_of;
use crate::tick::run_ok;
use crate::tick::spec_run;
use crate::tick::the_tower;
use crate::config::spec_standard_direction;
use crate::config::spec_tower_range;
use crate::config::spec_tower_power;
use crate::config::spec_tower_cooldown;
use crate::config::spec_upgrade_cost;
use crate::config::spec_upgraded_tower;

verus! {

/// Recoverable: placing a tower onto an occupied tile.
pub const ERROR_POSITION_OCCUPIED: u32 = 1;

/// Recoverable: referencing an inventory record that does not exist.
pub const ERROR_INVENTORY_NOT_FOUND: u32 = 1;

/// Fatal: the caller has no player record.
pub const FATAL_PLAYER_NOT_FOUND: u32 = 16;

/// Fatal: a replayed or out-of-order command nonce.
pub const FATAL_NONCE_MISMATCH: u32 = 17;

/// Fatal: the caller's inventory does not list the object.
pub const FATAL_NOT_OWNED: u32 = 18;

/// Fatal: the referenced inventory record does not exist where it must.
pub const FATAL_OBJECT_NOT_FOUND: u32 = 19;

/// Fatal: a feature byte outside the standard tower table.
pub const FATAL_BAD_FEATURE: u32 = 20;

/// Fatal: a tile index outside the map.
pub const FATAL_BAD_POSITION: u32 = 21;

/// Fatal: upgrading a tower at or above the maximum level.
pub const FATAL_LEVEL_LIMIT: u32 = 22;

/// Fatal: the accrued reward does not cover the upgrade cost.
pub const FATAL_INSUFFICIENT_REWARD: u32 = 23;

/// Fatal: the balance does not cover the requested withdrawal.
pub const FATAL_INSUFFICIENT_BALANCE: u32 = 24;

/// Fatal: a counter or balance would overflow its word.
pub const FATAL_OVERFLOW: u32 = 25;

/// Fatal: the tower's recorded owner is not the caller.
pub const FATAL_OWNER_MISMATCH: u32 = 26;

/// Fatal: a stored value is not a record of its kind.
pub const FATAL_STORE_CORRUPT: u32 = 27;

/// The opcodes of the wire protocol.
pub const CMD_RUN: u64 = 0;

pub const CMD_PLACE_TOWER: u64 = 1;

pub const CMD_WITHDRAW_TOWER: u64 = 2;

pub const CMD_MINT_TOWER: u64 = 3;

pub const CMD_DROP_TOWER: u64 = 4;

pub const CMD_UPGRADE_TOWER: u64 = 5;

pub const CMD_COLLECT_REWARDS: u64 = 6;

pub const CMD_WITHDRAW_REWARDS: u64 = 7;

/// The whole engine: the world, the player table, the off-map inventory
/// records and the outbound settlement state, owned by the dispatch
/// entry point and passed by exclusive reference into every handler.
pub struct Engine {
    pub state: State,
    pub players: Vec<Player>,
    pub inventory: Vec<InventoryObject>,
    pub settlement: SettlementInfo,
    pub upgrades: UpgradeInfo,
}

// ===== lookups =====

/// First index at or after `i` whose player carries `pid`.
pub open spec fn find_player_from(players: Seq<Player>, pid: (u64, u64), i: int) -> Option<int>
    decreases players.len() - i,
{
    if i < 0 || i >= players.len() {
        None
    } else if players[i].player_id == pid {
        Some(i)
    } else {
        find_player_from(players, pid, i + 1)
    }
}

pub open spec fn find_player_s(players: Seq<Player>, pid: (u64, u64)) -> Option<int> {
    find_player_from(players, pid, 0)
}

/// First index at or after `i` whose record carries the low id word.
pub open spec fn find_inventory_from(inv: Seq<InventoryObject>, iid: u64, i: int) -> Option<int>
    decreases inv.len() - i,
{
    if i < 0 || i >= inv.len() {
        None
    } else if inv[i].object_id == iid {
        Some(i)
    } else {
        find_inventory_from(inv, iid, i + 1)
    }
}

pub open spec fn find_inventory_s(inv: Seq<InventoryObject>, iid: u64) -> Option<int> {
    find_inventory_from(inv, iid, 0)
}

/// First placed tower whose record carries the low id word.
pub open spec fn find_placed_from(
    towers: Seq<PositionedObject<InventoryObject>>,
    iid: u64,
    i: int,
) -> Option<int>
    decreases towers.len() - i,
{
    if i < 0 || i >= towers.len() {
        None
    } else if towers[i].object.object_id == iid {
        Some(i)
    } else {
        find_placed_from(towers, iid, i + 1)
    }
}

pub open spec fn find_placed_s(towers: Seq<PositionedObject<InventoryObject>>, iid: u64) -> Option<
    int,
> {
    find_placed_from(towers, iid, 0)
}

impl Engine {
    /// A fresh engine around a world.
    pub fn new(state: State) -> (r: Engine)
        ensures
            r.state == state,
            r.players@.len() == 0,
            r.inventory@.len() == 0,
            r.settlement.bytes@.len() == 0,
            r.upgrades.info@.len() == 0,
    {
        Engine {
            state,
            players: Vec::new(),
            inventory: Vec::new(),
            settlement: SettlementInfo::new(),
            upgrades: UpgradeInfo::new(),
        }
    }

    /// Engine well-formedness: a well-formed world, one player per id,
    /// one inventory record per id, and every record holding a tower.
    pub open spec fn wf(self) -> bool {
        &&& self.state.wf()
        &&& forall|i: int, j: int|
            0 <= i < j < self.players@.len() ==> self.players@[i].player_id
                != self.players@[j].player_id
        &&& forall|i: int, j: int|
            0 <= i < j < self.inventory@.len() ==> self.inventory@[i].object_id
                != self.inventory@[j].object_id
        &&& forall|i: int| 0 <= i < self.inventory@.len() ==> (#[trigger] self.inventory@[i]).object
            is Tower
    }

    fn find_player(&self, pid: (u64, u64)) -> (r: Option<usize>)
        ensures
            match r {
                Some(i) => i < self.players@.len() && self.players@[i as int].player_id == pid
                    && find_player_s(self.players@, pid) == Some(i as int),
                None => find_player_s(self.players@, pid) is None,
            },
    {
        let n = self.players.len();
        let mut i: usize = 0;
        while i < n
            invariant
                i <= n,
                n == self.players@.len(),
                find_player_from(self.players@, pid, i as int) == find_player_s(
                    self.players@,
                    pid,
                ),
            decreases n - i,
        {
            if self.players[i].player_id.0 == pid.0 && self.players[i].player_id.1 == pid.1 {
                return Some(i);
            }
            i = i + 1;
        }
        None
    }

    fn find_inventory(&self, iid: u64) -> (r: Option<usize>)
        ensures
            match r {
                Some(i) => i < self.inventory@.len() && self.inventory@[i as int].object_id == iid
                    && find_inventory_s(self.inventory@, iid) == Some(i as int),
                None => find_inventory_s(self.inventory@, iid) is None,
            },
    {
        let n = self.inventory.len();
        let mut i: usize = 0;
        while i < n
            invariant
                i <= n,
                n == self.inventory@.len(),
                find_inventory_from(self.inventory@, iid, i as int) == find_inventory_s(
                    self.inventory@,
                    iid,
                ),
            decreases n - i,
        {
            if self.inventory[i].object_id == iid {
                return Some(i);
            }
            i = i + 1;
        }
        None
    }

    fn find_placed(&self, iid: u64) -> (r: Option<usize>)
        ensures
            match r {
                Some(i) => i < self.state.towers@.len() && self.state.towers@[i as int].object.object_id
                    == iid && find_placed_s(self.state.towers@, iid) == Some(i as int),
                None => find_placed_s(self.state.towers@, iid) is None,
            },
    {
        let n = self.state.towers.len();
        let mut i: usize = 0;
        while i < n
            invariant
                i <= n,
                n == self.state.towers@.len(),
                find_placed_from(self.state.towers@, iid, i as int) == find_placed_s(
                    self.state.towers@,
                    iid,
                ),
            decreases n - i,
        {
            if self.state.towers[i].object.object_id == iid {
                return Some(i);
            }
            i = i + 1;
        }
        None
    }
}


// ===== per-command postconditions =====

/// The world advanced one tick, everything else untouched.
pub open spec fn run_post(pre: Engine, post: Engine, r: Result<(), u32>) -> bool {
    if run_ok(pre.state) {
        &&& r == Ok::<(), u32>(())
        &&& post.state.id_allocator == spec_run(pre.state).id_allocator
        &&& post.state.counter == spec_run(pre.state).counter
        &&& post.state.monsters@ == spec_run(pre.state).monsters
        &&& post.state.drops@ == spec_run(pre.state).drops
        &&& post.state.spawners@ == spec_run(pre.state).spawners
        &&& post.state.towers@ == spec_run(pre.state).towers
        &&& post.state.events@ == spec_run(pre.state).events
        &&& post.state.leaked == spec_run(pre.state).leaked
        &&& post.state.collected == spec_run(pre.state).collected
        &&& post.state.collectors == pre.state.collectors
        &&& post.state.map == pre.state.map
        &&& post.players == pre.players
        &&& post.inventory == pre.inventory
        &&& post.settlement == pre.settlement
        &&& post.upgrades == pre.upgrades
    } else {
        r == Err::<(), u32>(FATAL_OVERFLOW) && post == pre
    }
}

/// Balance withdrawal: gated by player and nonce; the amount is the low
/// half of the first operand; an exact settlement record is emitted.
pub open spec fn withdraw_rewards_post(
    pre: Engine,
    post: Engine,
    r: Result<(), u32>,
    nonce: u64,
    c1: u64,
    c2: u64,
    c3: u64,
    pid: (u64, u64),
) -> bool {
    match find_player_s(pre.players@, pid) {
        None => r == Err::<(), u32>(FATAL_PLAYER_NOT_FOUND) && post == pre,
        Some(pi) => {
            let p = pre.players@[pi];
            if !(nonce == p.nonce && p.nonce < u64::MAX) {
                r == Err::<(), u32>(FATAL_NONCE_MISMATCH) && post == pre
            } else {
                let amount = c1 & 0xffff_ffff;
                if p.data.reward < amount {
                    r == Err::<(), u32>(FATAL_INSUFFICIENT_BALANCE) && post == pre
                } else {
                    &&& r == Ok::<(), u32>(())
                    &&& post.players@.len() == pre.players@.len()
                    &&& post.players@[pi].player_id == p.player_id
                    &&& post.players@[pi].nonce == p.nonce + 1
                    &&& post.players@[pi].data.inventory@ == p.data.inventory@
                    &&& post.players@[pi].data.reward == p.data.reward - amount
                    &&& forall|j: int|
                        0 <= j < pre.players@.len() && j != pi ==> post.players@[j]
                            == pre.players@[j]
                    &&& post.settlement.bytes@ == pre.settlement.bytes@ + withdraw_record(
                        c1,
                        c2,
                        c3,
                    )
                    &&& post.state == pre.state
                    &&& post.inventory == pre.inventory
                    &&& post.upgrades == pre.upgrades
                }
            }
        },
    }
}

/// Reward collection drains the accrued reward that is live for the
/// object — the placed copy's while a copy stands on the map, the
/// off-map record's otherwise — into the player's balance, zeroing it.
/// With neither a placed copy nor a record, only the nonce advances.
pub open spec fn collect_rewards_post(
    pre: Engine,
    post: Engine,
    r: Result<(), u32>,
    nonce: u64,
    objindex: u64,
    pid: (u64, u64),
) -> bool {
    match find_player_s(pre.players@, pid) {
        None => r == Err::<(), u32>(FATAL_PLAYER_NOT_FOUND) && post == pre,
        Some(pi) => {
            let p = pre.players@[pi];
            if !(nonce == p.nonce && p.nonce < u64::MAX) {
                r == Err::<(), u32>(FATAL_NONCE_MISMATCH) && post == pre
            } else {
                match find_placed_s(pre.state.towers@, objindex) {
                    None => match find_inventory_s(pre.inventory@, objindex) {
                        None => {
                            &&& r == Ok::<(), u32>(())
                            &&& post.players@ == pre.players@.update(
                                pi,
                                Player { nonce: (p.nonce + 1) as u64, ..p },
                            )
                            &&& post.state == pre.state
                            &&& post.inventory == pre.inventory
                            &&& post.settlement == pre.settlement
                            &&& post.upgrades == pre.upgrades
                        },
                        Some(ii) => {
                            let gained = pre.inventory@[ii].reward;
                            if p.data.reward + gained > u64::MAX {
                                r == Err::<(), u32>(FATAL_OVERFLOW) && post == pre
                            } else {
                                &&& r == Ok::<(), u32>(())
                                &&& post.players@.len() == pre.players@.len()
                                &&& post.players@[pi].player_id == p.player_id
                                &&& post.players@[pi].nonce == p.nonce + 1
                                &&& post.players@[pi].data.inventory@ == p.data.inventory@
                                &&& post.players@[pi].data.reward == p.data.reward + gained
                                &&& forall|j: int|
                                    0 <= j < pre.players@.len() && j != pi ==> post.players@[j]
                                        == pre.players@[j]
                                &&& post.inventory@ == pre.inventory@.update(
                                    ii,
                                    InventoryObject { reward: 0u64, ..pre.inventory@[ii] },
                                )
                                &&& post.state == pre.state
                                &&& post.settlement == pre.settlement
                                &&& post.upgrades == pre.upgrades
                            }
                        },
                    },
                    Some(ti) => {
                        let gained = pre.state.towers@[ti].object.reward;
                        if p.data.reward + gained > u64::MAX {
                            r == Err::<(), u32>(FATAL_OVERFLOW) && post == pre
                        } else {
                            &&& r == Ok::<(), u32>(())
                            &&& post.players@.len() == pre.players@.len()
                            &&& post.players@[pi].player_id == p.player_id
                            &&& post.players@[pi].nonce == p.nonce + 1
                            &&& post.players@[pi].data.inventory@ == p.data.inventory@
                            &&& post.players@[pi].data.reward == p.data.reward + gained
                            &&& forall|j: int|
                                0 <= j < pre.players@.len() && j != pi ==> post.players@[j]
                                    == pre.players@[j]
                            &&& post.state.towers@ == pre.state.towers@.update(
                                ti,
                                PositionedObject {
                                    object: InventoryObject {
                                        reward: 0u64,
                                        ..pre.state.towers@[ti].object
                                    },
                                    ..pre.state.towers@[ti]
                                },
                            )
                            &&& post.state.id_allocator == pre.state.id_allocator
                            &&& post.state.counter == pre.state.counter
                            &&& post.state.map == pre.state.map
                            &&& post.state.monsters == pre.state.monsters
                            &&& post.state.drops == pre.state.drops
                            &&& post.state.collectors == pre.state.collectors
                            &&& post.state.spawners == pre.state.spawners
                            &&& post.state.events == pre.state.events
                            &&& post.state.leaked == pre.state.leaked
                            &&& post.state.collected == pre.state.collected
                            &&& post.inventory == pre.inventory
                            &&& post.settlement == pre.settlement
                            &&& post.upgrades == pre.upgrades
                        }
                    },
                }
            }
        },
    }
}

impl Engine {
    /// `WithdrawRewards`: deduct the requested amount from the caller's
    /// balance and queue the settlement record.
    pub fn handle_withdraw_rewards(
        &mut self,
        nonce: u64,
        c1: u64,
        c2: u64,
        c3: u64,
        pid: (u64, u64),
    ) -> (r: Result<(), u32>)
        requires
            old(self).wf(),
        ensures
            final(self).wf(),
            withdraw_rewards_post(*old(self), *final(self), r, nonce, c1, c2, c3, pid),
    {
        let pi = match self.find_player(pid) {
            Some(i) => i,
            None => {
                return Err(FATAL_PLAYER_NOT_FOUND);
            },
        };
        let pnonce = self.players[pi].nonce;
        if !(nonce == pnonce && pnonce < u64::MAX) {
            return Err(FATAL_NONCE_MISMATCH);
        }
        let amount = c1 & 0xffff_ffff;
        if self.players[pi].data.reward < amount {
            return Err(FATAL_INSUFFICIENT_BALANCE);
        }
        let mut p = self.players.remove(pi);
        p.nonce = p.nonce + 1;
        p.data.reward = p.data.reward - amount;
        self.players.insert(pi, p);
        self.settlement.append_settlement(WithdrawInfo::new((c1, c2, c3)));
        proof {
            assert(self.players@ =~= old(self).players@.update(
                pi as int,
                self.players@[pi as int],
            ));
        }
        Ok(())
    }

    /// `CollectRewards`: move the live accrued reward — the placed
    /// copy's when placed, the off-map record's otherwise — into the
    /// caller's balance, zeroing it.
    pub fn handle_collect_rewards(&mut self, nonce: u64, objindex: u64, pid: (u64, u64)) -> (r:
        Result<(), u32>)
        requires
            old(self).wf(),
        ensures
            final(self).wf(),
            collect_rewards_post(*old(self), *final(self), r, nonce, objindex, pid),
    {
        let pi = match self.find_player(pid) {
            Some(i) => i,
            None => {
                return Err(FATAL_PLAYER_NOT_FOUND);
            },
        };
        let pnonce = self.players[pi].nonce;
        if !(nonce == pnonce && pnonce < u64::MAX) {
            return Err(FATAL_NONCE_MISMATCH);
        }
        match self.find_placed(objindex) {
            None => match self.find_inventory(objindex) {
                None => {
                    let mut p = self.players.remove(pi);
                    p.nonce = p.nonce + 1;
                    self.players.insert(pi, p);
                    proof {
                        assert(self.players@ =~= old(self).players@.update(
                            pi as int,
                            Player {
                                nonce: (old(self).players@[pi as int].nonce + 1) as u64,
                                ..old(self).players@[pi as int]
                            },
                        ));
                    }
                    Ok(())
                },
                Some(ii) => {
                    let gained = self.inventory[ii].reward;
                    if self.players[pi].data.reward > u64::MAX - gained {
                        return Err(FATAL_OVERFLOW);
                    }
                    let mut p = self.players.remove(pi);
                    p.nonce = p.nonce + 1;
                    p.data.reward = p.data.reward + gained;
                    self.players.insert(pi, p);
                    let mut rec = self.inventory[ii];
                    rec.reward = 0;
                    self.inventory.set(ii, rec);
                    proof {
                        assert(self.players@ =~= old(self).players@.update(
                            pi as int,
                            self.players@[pi as int],
                        ));
                        assert forall|i: int, j: int|
                            0 <= i < j < self.inventory@.len() implies self.inventory@[i].object_id
                            != self.inventory@[j].object_id by {
                            assert(self.inventory@[i].object_id == old(
                                self,
                            ).inventory@[i].object_id);
                            assert(self.inventory@[j].object_id == old(
                                self,
                            ).inventory@[j].object_id);
                        }
                        assert forall|i: int|
                            0 <= i < self.inventory@.len() implies (
                        #[trigger] self.inventory@[i]).object is Tower by {
                            if i != ii {
                                assert(self.inventory@[i] == old(self).inventory@[i]);
                            }
                        }
                    }
                    Ok(())
                },
            },
            Some(ti) => {
                let gained = self.state.towers[ti].object.reward;
                if self.players[pi].data.reward > u64::MAX - gained {
                    return Err(FATAL_OVERFLOW);
                }
                let mut p = self.players.remove(pi);
                p.nonce = p.nonce + 1;
                p.data.reward = p.data.reward + gained;
                self.players.insert(pi, p);
                let mut po = self.state.towers[ti];
                po.object.reward = 0;
                self.state.towers.set(ti, po);
                proof {
                    assert(self.players@ =~= old(self).players@.update(
                        pi as int,
                        self.players@[pi as int],
                    ));
                    assert(self.state.tower_ids() =~= old(self).state.tower_ids());
                    assert(self.state.tower_positions() =~= old(self).state.tower_positions());
                    assert(self.state.wf()) by {
                        assert forall|k: int|
                            0 <= k < self.state.towers@.len() implies self.state.map.in_grid(
                            (#[trigger] self.state.towers@[k]).position,
                        ) && self.state.towers@[k].object.object is Tower by {
                            if k != ti {
                                assert(self.state.towers@[k] == old(self).state.towers@[k]);
                            }
                        }
                    }
                }
                Ok(())
            },
        }
    }
}


// ===== minting, withdrawing and dropping =====

/// `MintOrUpdateInventory`: create or re-own an inventory record for a
/// target player from a feature-selected standard template, and attach
/// the id to the target player's list.  Authorization is by a separate
/// minting authority, so no caller nonce is involved; a player record
/// created here starts at nonce one, the mint standing as its zeroth
/// command.
pub open spec fn update_inventory_post(
    pre: Engine,
    post: Engine,
    r: Result<(), u32>,
    objindex: u64,
    feature: u64,
    target: (u64, u64),
) -> bool {
    if feature >= 4 {
        r == Err::<(), u32>(FATAL_BAD_FEATURE) && post == pre
    } else {
        let inv2 = (match find_inventory_s(pre.inventory@, objindex) {
            Some(ii) => {
                let rec = pre.inventory@[ii];
                pre.inventory@.update(
                    ii,
                    InventoryObject {
                        object: Object::Tower(
                            Tower { owner: target, ..the_tower(rec.object) },
                        ),
                        ..rec
                    },
                )
            },
            None => pre.inventory@.push(
                InventoryObject {
                    object_id: objindex,
                    object: Object::Tower(
                        Tower {
                            lvl: 1,
                            range: spec_tower_range(1),
                            power: spec_tower_power(1),
                            cooldown: spec_tower_cooldown(1),
                            count: spec_tower_cooldown(1),
                            owner: target,
                            direction: spec_standard_direction(feature),
                        },
                    ),
                    reward: 0,
                },
            ),
        });
        &&& r == Ok::<(), u32>(())
        &&& post.inventory@ == inv2
        &&& (match find_player_s(pre.players@, target) {
            Some(pi) => {
                let p = pre.players@[pi];
                &&& post.players@.len() == pre.players@.len()
                &&& post.players@[pi].player_id == p.player_id
                &&& post.players@[pi].nonce == p.nonce
                &&& post.players@[pi].data.reward == p.data.reward
                &&& post.players@[pi].data.inventory@ == (if p.data.inventory@.contains(objindex) {
                    p.data.inventory@
                } else {
                    p.data.inventory@.push(objindex)
                })
                &&& forall|j: int|
                    0 <= j < pre.players@.len() && j != pi ==> post.players@[j] == pre.players@[j]
            },
            None => {
                &&& post.players@.len() == pre.players@.len() + 1
                &&& forall|j: int|
                    0 <= j < pre.players@.len() ==> post.players@[j] == pre.players@[j]
                &&& post.players@.last().player_id == target
                &&& post.players@.last().nonce == 1
                &&& post.players@.last().data.inventory@ =~= seq![objindex]
                &&& post.players@.last().data.reward == 0
            },
        })
        &&& post.state == pre.state
        &&& post.settlement == pre.settlement
        &&& post.upgrades == pre.upgrades
    }
}

/// `WithdrawTower`: verify the recorded owner is the caller, require the
/// nonce, and detach the id from the caller's inventory list by
/// swap-remove.
pub open spec fn withdraw_tower_post(
    pre: Engine,
    post: Engine,
    r: Result<(), u32>,
    nonce: u64,
    objindex: u64,
    pkey: Seq<u64>,
) -> bool {
    let pid = (pkey[1], pkey[2]);
    match find_inventory_s(pre.inventory@, objindex) {
        None => r == Err::<(), u32>(FATAL_OBJECT_NOT_FOUND) && post == pre,
        Some(ii) => {
            let t = the_tower(pre.inventory@[ii].object);
            if !(t.owner.0 == pkey[1] && t.owner.1 == pkey[2]) {
                r == Err::<(), u32>(FATAL_OWNER_MISMATCH) && post == pre
            } else {
                match find_player_s(pre.players@, pid) {
                    None => r == Err::<(), u32>(FATAL_PLAYER_NOT_FOUND) && post == pre,
                    Some(pi) => {
                        let p = pre.players@[pi];
                        if !(nonce == p.nonce && p.nonce < u64::MAX) {
                            r == Err::<(), u32>(FATAL_NONCE_MISMATCH) && post == pre
                        } else {
                            &&& r == Ok::<(), u32>(())
                            &&& post.players@.len() == pre.players@.len()
                            &&& post.players@[pi].player_id == p.player_id
                            &&& post.players@[pi].nonce == p.nonce + 1
                            &&& post.players@[pi].data.reward == p.data.reward
                            &&& (match index_of_id(p.data.inventory@, objindex) {
                                Some(k) => post.players@[pi].data.inventory@
                                    == crate::seqs::swap_removed(p.data.inventory@, k),
                                None => post.players@[pi].data.inventory@ == p.data.inventory@,
                            })
                            &&& forall|j: int|
                                0 <= j < pre.players@.len() && j != pi ==> post.players@[j]
                                    == pre.players@[j]
                            &&& post.state == pre.state
                            &&& post.inventory == pre.inventory
                            &&& post.settlement == pre.settlement
                            &&& post.upgrades == pre.upgrades
                        }
                    },
                }
            }
        },
    }
}

/// First index of an id in an inventory list.
pub open spec fn index_of_id_from(inv: Seq<u64>, id: u64, i: int) -> Option<int>
    decreases inv.len() - i,
{
    if i < 0 || i >= inv.len() {
        None
    } else if inv[i] == id {
        Some(i)
    } else {
        index_of_id_from(inv, id, i + 1)
    }
}

pub open spec fn index_of_id(inv: Seq<u64>, id: u64) -> Option<int> {
    index_of_id_from(inv, id, 0)
}

/// `DropTower`: write the placed copy's state — its tower and its
/// accrued reward — back into the inventory record and remove the copy
/// from the map; with no placed copy, only the nonce advances.
pub open spec fn drop_tower_post(
    pre: Engine,
    post: Engine,
    r: Result<(), u32>,
    nonce: u64,
    objindex: u64,
    pid: (u64, u64),
) -> bool {
    match find_player_s(pre.players@, pid) {
        None => r == Err::<(), u32>(FATAL_PLAYER_NOT_FOUND) && post == pre,
        Some(pi) => {
            let p = pre.players@[pi];
            if !(nonce == p.nonce && p.nonce < u64::MAX) {
                r == Err::<(), u32>(FATAL_NONCE_MISMATCH) && post == pre
            } else {
                match find_inventory_s(pre.inventory@, objindex) {
                    None => r == Err::<(), u32>(FATAL_OBJECT_NOT_FOUND) && post == pre,
                    Some(ii) => {
                        &&& r == Ok::<(), u32>(())
                        &&& post.players@ == pre.players@.update(
                            pi,
                            Player { nonce: (p.nonce + 1) as u64, ..p },
                        )
                        &&& (match find_placed_s(pre.state.towers@, objindex) {
                            None => post.state == pre.state && post.inventory == pre.inventory,
                            Some(ti) => {
                                let placed = pre.state.towers@[ti];
                                &&& post.inventory@ == pre.inventory@.update(
                                    ii,
                                    InventoryObject {
                                        object: placed.object.object,
                                        reward: placed.object.reward,
                                        ..pre.inventory@[ii]
                                    },
                                )
                                &&& post.state.towers@ == crate::seqs::swap_removed(
                                    pre.state.towers@,
                                    ti,
                                )
                                &&& post.state.map.width == pre.state.map.width
                                &&& post.state.map.height == pre.state.map.height
                                &&& post.state.map.tiles@ == pre.state.map.tiles@.update(
                                    spec_index_of(placed.position, pre.state.map.width as int),
                                    Tile {
                                        feature: pre.state.map.tiles@[spec_index_of(
                                            placed.position,
                                            pre.state.map.width as int,
                                        )].feature,
                                        occupied: 0u32,
                                    },
                                )
                                &&& post.state.id_allocator == pre.state.id_allocator
                                &&& post.state.counter == pre.state.counter
                                &&& post.state.monsters == pre.state.monsters
                                &&& post.state.drops == pre.state.drops
                                &&& post.state.collectors == pre.state.collectors
                                &&& post.state.spawners == pre.state.spawners
                                &&& post.state.events == pre.state.events
                                &&& post.state.leaked == pre.state.leaked
                                &&& post.state.collected == pre.state.collected
                            },
                        })
                        &&& post.settlement == pre.settlement
                        &&& post.upgrades == pre.upgrades
                    },
                }
            }
        },
    }
}

impl Engine {
    /// `MintOrUpdateInventory`: see `update_inventory_post`.
    pub fn handle_update_inventory(&mut self, objindex: u64, feature: u64, target: (u64, u64)) -> (r:
        Result<(), u32>)
        requires
            old(self).wf(),
        ensures
            final(self).wf(),
            update_inventory_post(*old(self), *final(self), r, objindex, feature, target),
    {
        if feature >= 4 {
            return Err(FATAL_BAD_FEATURE);
        }
        match self.find_inventory(objindex) {
            Some(ii) => {
                let mut rec = self.inventory[ii];
                let mut t = *rec.object.get_the_tower();
                t.owner = target;
                rec.object = Object::Tower(t);
                self.inventory.set(ii, rec);
                proof {
                    assert forall|i: int, j: int|
                        0 <= i < j < self.inventory@.len() implies self.inventory@[i].object_id
                        != self.inventory@[j].object_id by {
                        assert(self.inventory@[i].object_id == old(self).inventory@[i].object_id);
                        assert(self.inventory@[j].object_id == old(self).inventory@[j].object_id);
                    }
                }
            },
            None => {
                let t = crate::config::standard_tower(feature);
                let t2 = Tower { owner: target, ..t };
                let rec = InventoryObject::new(objindex, Object::Tower(t2));
                self.inventory.push(rec);
                proof {
                    assert forall|i: int, j: int|
                        0 <= i < j < self.inventory@.len() implies self.inventory@[i].object_id
                        != self.inventory@[j].object_id by {
                        if j == self.inventory@.len() - 1 {
                            lemma_find_inventory_none_absent(old(self).inventory@, objindex, i);
                        }
                    }
                }
            },
        }
        let ghost inv_done = self.inventory@;
        match self.find_player(target) {
            Some(pi) => {
                let already = self.players[pi].owns(objindex);
                if !already {
                    let mut p = self.players.remove(pi);
                    p.data.inventory.push(objindex);
                    self.players.insert(pi, p);
                    proof {
                        assert(self.players@ =~= old(self).players@.update(
                            pi as int,
                            self.players@[pi as int],
                        ));
                    }
                }
            },
            None => {
                let mut p = Player::new_from_pid(target);
                p.nonce = 1;
                p.data.inventory.push(objindex);
                self.players.push(p);
                proof {
                    assert(self.players@.last().data.inventory@ =~= seq![objindex]);
                    assert forall|i: int, j: int|
                        0 <= i < j < self.players@.len() implies self.players@[i].player_id
                        != self.players@[j].player_id by {
                        if j == self.players@.len() - 1 {
                            lemma_find_player_none_absent(old(self).players@, target, i);
                        }
                    }
                }
            },
        }
        Ok(())
    }

    /// `WithdrawTower`: see `withdraw_tower_post`.
    pub fn handle_withdraw_tower(&mut self, nonce: u64, objindex: u64, pkey: &[u64; 4]) -> (r:
        Result<(), u32>)
        requires
            old(self).wf(),
        ensures
            final(self).wf(),
            withdraw_tower_post(*old(self), *final(self), r, nonce, objindex, pkey@),
    {
        let ii = match self.find_inventory(objindex) {
            Some(i) => i,
            None => {
                return Err(FATAL_OBJECT_NOT_FOUND);
            },
        };
        let t = *self.inventory[ii].object.get_the_tower();
        if !(t.owner.0 == pkey[1] && t.owner.1 == pkey[2]) {
            return Err(FATAL_OWNER_MISMATCH);
        }
        let pid = Player::pkey_to_pid(pkey);
        let pi = match self.find_player(pid) {
            Some(i) => i,
            None => {
                return Err(FATAL_PLAYER_NOT_FOUND);
            },
        };
        let pnonce = self.players[pi].nonce;
        if !(nonce == pnonce && pnonce < u64::MAX) {
            return Err(FATAL_NONCE_MISMATCH);
        }
        let mut p = self.players.remove(pi);
        p.nonce = p.nonce + 1;
        let found = index_of_inventory_id(&p.data.inventory, objindex);
        match found {
            Some(k2) => {
                p.data.inventory.swap_remove(k2);
            },
            None => {},
        }
        self.players.insert(pi, p);
        proof {
            assert(self.players@ =~= old(self).players@.update(pi as int, self.players@[pi as int]));
        }
        Ok(())
    }

    /// `DropTower`: see `drop_tower_post`.
    pub fn handle_drop_tower(&mut self, nonce: u64, objindex: u64, pid: (u64, u64)) -> (r: Result<
        (),
        u32,
    >)
        requires
            old(self).wf(),
        ensures
            final(self).wf(),
            drop_tower_post(*old(self), *final(self), r, nonce, objindex, pid),
    {
        let pi = match self.find_player(pid) {
            Some(i) => i,
            None => {
                return Err(FATAL_PLAYER_NOT_FOUND);
            },
        };
        let pnonce = self.players[pi].nonce;
        if !(nonce == pnonce && pnonce < u64::MAX) {
            return Err(FATAL_NONCE_MISMATCH);
        }
        let ii = match self.find_inventory(objindex) {
            Some(i) => i,
            None => {
                return Err(FATAL_OBJECT_NOT_FOUND);
            },
        };
        match self.find_placed(objindex) {
            Some(ti) => {
                let placed = self.state.remove_tower_at(ti);
                let mut rec = self.inventory[ii];
                rec.object = placed.object.object;
                rec.reward = placed.object.reward;
                self.inventory.set(ii, rec);
                proof {
                    assert forall|i: int, j: int|
                        0 <= i < j < self.inventory@.len() implies self.inventory@[i].object_id
                        != self.inventory@[j].object_id by {
                        assert(self.inventory@[i].object_id == old(self).inventory@[i].object_id);
                        assert(self.inventory@[j].object_id == old(self).inventory@[j].object_id);
                    }
                    assert(self.inventory@[ii as int].object is Tower) by {
                        assert(old(self).state.towers@[ti as int].object.object is Tower);
                    }
                    assert forall|i: int|
                        0 <= i < self.inventory@.len() implies (#[trigger] self.inventory@[i]).object
                        is Tower by {
                        if i != ii {
                            assert(self.inventory@[i] == old(self).inventory@[i]);
                        }
                    }
                }
            },
            None => {},
        }
        let mut p = self.players.remove(pi);
        p.nonce = p.nonce + 1;
        self.players.insert(pi, p);
        proof {
            assert(self.players@ =~= old(self).players@.update(
                pi as int,
                Player {
                    nonce: (old(self).players@[pi as int].nonce + 1) as u64,
                    ..old(self).players@[pi as int]
                },
            ));
        }
        Ok(())
    }
}

/// First occurrence of an id in an inventory list.
fn index_of_inventory_id(v: &Vec<u64>, id: u64) -> (r: Option<usize>)
    ensures
        match r {
            Some(k) => k < v@.len() && v@[k as int] == id && index_of_id(v@, id) == Some(k as int),
            None => index_of_id(v@, id) is None,
        },
{
    let n = v.len();
    let mut k: usize = 0;
    while k < n
        invariant
            k <= n,
            n == v@.len(),
            index_of_id_from(v@, id, k as int) == index_of_id(v@, id),
        decreases n - k,
    {
        if v[k] == id {
            return Some(k);
        }
        k = k + 1;
    }
    None
}

/// An inventory list in which no record carries the id stays free of it
/// entrywise.
proof fn lemma_find_inventory_none_absent(inv: Seq<InventoryObject>, iid: u64, i: int)
    requires
        find_inventory_s(inv, iid) is None,
        0 <= i < inv.len(),
    ensures
        inv[i].object_id != iid,
{
    lemma_find_inventory_from_none(inv, iid, 0, i);
}

proof fn lemma_find_inventory_from_none(inv: Seq<InventoryObject>, iid: u64, k: int, i: int)
    requires
        find_inventory_from(inv, iid, k) is None,
        0 <= k <= i < inv.len(),
    ensures
        inv[i].object_id != iid,
    decreases i - k,
{
    if k < i {
        lemma_find_inventory_from_none(inv, iid, k + 1, i);
    }
}

/// A player list in which no entry carries `pid` stays free of it
/// entrywise.
proof fn lemma_find_player_none_absent(players: Seq<Player>, pid: (u64, u64), i: int)
    requires
        find_player_s(players, pid) is None,
        0 <= i < players.len(),
    ensures
        players[i].player_id != pid,
{
    lemma_find_player_from_none(players, pid, 0, i);
}

proof fn lemma_find_player_from_none(players: Seq<Player>, pid: (u64, u64), k: int, i: int)
    requires
        find_player_from(players, pid, k) is None,
        0 <= k <= i < players.len(),
    ensures
        players[i].player_id != pid,
    decreases i - k,
{
    if k < i {
        lemma_find_player_from_none(players, pid, k + 1, i);
    }
}


// ===== placing and upgrading =====

/// `PlaceTower`: gated by player, nonce and ownership; the tower copy
/// takes the feature-selected firing direction; placement fails exactly
/// on an occupied tile.
pub open spec fn place_tower_post(
    pre: Engine,
    post: Engine,
    r: Result<(), u32>,
    nonce: u64,
    objindex: u64,
    pos: u64,
    feature: u64,
    pid: (u64, u64),
) -> bool {
    match find_player_s(pre.players@, pid) {
        None => r == Err::<(), u32>(FATAL_PLAYER_NOT_FOUND) && post == pre,
        Some(pi) => {
            let p = pre.players@[pi];
            if !(nonce == p.nonce && p.nonce < u64::MAX) {
                r == Err::<(), u32>(FATAL_NONCE_MISMATCH) && post == pre
            } else if !p.data.inventory@.contains(objindex) {
                r == Err::<(), u32>(FATAL_NOT_OWNED) && post == pre
            } else if feature >= 4 {
                r == Err::<(), u32>(FATAL_BAD_FEATURE) && post == pre
            } else if pos >= pre.state.map.tiles@.len() {
                r == Err::<(), u32>(FATAL_BAD_POSITION) && post == pre
            } else {
                match find_inventory_s(pre.inventory@, objindex) {
                    None => r == Err::<(), u32>(ERROR_INVENTORY_NOT_FOUND) && post == pre,
                    Some(ii) => {
                        let w = pre.state.map.width as int;
                        let position = spec_coordinate_of(pos as int, w);
                        if pre.state.map.tiles@[pos as int].occupied != 0 {
                            r == Err::<(), u32>(ERROR_POSITION_OCCUPIED) && post == pre
                        } else if pre.state.id_allocator == u64::MAX {
                            r == Err::<(), u32>(FATAL_OVERFLOW) && post == pre
                        } else {
                            let rec = pre.inventory@[ii];
                            let copy = InventoryObject {
                                object: Object::Tower(
                                    Tower {
                                        direction: spec_standard_direction(feature),
                                        ..the_tower(rec.object)
                                    },
                                ),
                                ..rec
                            };
                            &&& r == Ok::<(), u32>(())
                            &&& post.players@ == pre.players@.update(
                                pi,
                                Player { nonce: (p.nonce + 1) as u64, ..p },
                            )
                            &&& post.state.towers@ == pre.state.towers@.push(
                                PositionedObject {
                                    id: (pre.state.id_allocator + 1) as u64,
                                    position,
                                    object: copy,
                                },
                            )
                            &&& post.state.id_allocator == pre.state.id_allocator + 1
                            &&& post.state.map.width == pre.state.map.width
                            &&& post.state.map.height == pre.state.map.height
                            &&& post.state.map.tiles@ == pre.state.map.tiles@.update(
                                pos as int,
                                Tile {
                                    feature: pre.state.map.tiles@[pos as int].feature,
                                    occupied: 1u32,
                                },
                            )
                            &&& post.state.counter == pre.state.counter
                            &&& post.state.monsters == pre.state.monsters
                            &&& post.state.drops == pre.state.drops
                            &&& post.state.collectors == pre.state.collectors
                            &&& post.state.spawners == pre.state.spawners
                            &&& post.state.events == pre.state.events
                            &&& post.state.leaked == pre.state.leaked
                            &&& post.state.collected == pre.state.collected
                            &&& post.inventory == pre.inventory
                            &&& post.settlement == pre.settlement
                            &&& post.upgrades == pre.upgrades
                        }
                    },
                }
            }
        },
    }
}

/// `UpgradeTower`: gated by player, nonce and ownership; requires a
/// level below the table's last row and enough accrued reward; the cost
/// is deducted from the accrued reward that is live for the object —
/// the placed copy's while a copy stands on the map, the record's
/// otherwise — the level row recomputed, any placed copy synchronized,
/// and an upgrade settlement entry queued with the level before the
/// upgrade.
pub open spec fn upgrade_inventory_post(
    pre: Engine,
    post: Engine,
    r: Result<(), u32>,
    nonce: u64,
    objindex: u64,
    pid: (u64, u64),
) -> bool {
    match find_player_s(pre.players@, pid) {
        None => r == Err::<(), u32>(FATAL_PLAYER_NOT_FOUND) && post == pre,
        Some(pi) => {
            let p = pre.players@[pi];
            if !(nonce == p.nonce && p.nonce < u64::MAX) {
                r == Err::<(), u32>(FATAL_NONCE_MISMATCH) && post == pre
            } else if !p.data.inventory@.contains(objindex) {
                r == Err::<(), u32>(FATAL_NOT_OWNED) && post == pre
            } else {
                match find_inventory_s(pre.inventory@, objindex) {
                    None => r == Err::<(), u32>(FATAL_OBJECT_NOT_FOUND) && post == pre,
                    Some(ii) => {
                        let rec = pre.inventory@[ii];
                        let t = the_tower(rec.object);
                        let placed = find_placed_s(pre.state.towers@, objindex);
                        let live = (match placed {
                            Some(ti) => pre.state.towers@[ti].object.reward,
                            None => rec.reward,
                        });
                        if !(1 <= t.lvl && t.lvl < crate::config::MAX_TOWER_LEVEL) {
                            r == Err::<(), u32>(FATAL_LEVEL_LIMIT) && post == pre
                        } else if live < spec_upgrade_cost(t.lvl as int) {
                            r == Err::<(), u32>(FATAL_INSUFFICIENT_REWARD) && post == pre
                        } else {
                            let upgraded = Object::Tower(spec_upgraded_tower(t));
                            &&& r == Ok::<(), u32>(())
                            &&& post.players@ == pre.players@.update(
                                pi,
                                Player { nonce: (p.nonce + 1) as u64, ..p },
                            )
                            &&& (match placed {
                                None => {
                                    &&& post.inventory@ == pre.inventory@.update(
                                        ii,
                                        InventoryObject {
                                            object: upgraded,
                                            reward: (live - spec_upgrade_cost(
                                                t.lvl as int,
                                            )) as u64,
                                            ..rec
                                        },
                                    )
                                    &&& post.state == pre.state
                                },
                                Some(ti) => {
                                    &&& post.inventory@ == pre.inventory@.update(
                                        ii,
                                        InventoryObject { object: upgraded, ..rec },
                                    )
                                    &&& post.state.towers@ == pre.state.towers@.update(
                                        ti,
                                        PositionedObject {
                                            object: InventoryObject {
                                                object: upgraded,
                                                reward: (live - spec_upgrade_cost(
                                                    t.lvl as int,
                                                )) as u64,
                                                ..pre.state.towers@[ti].object
                                            },
                                            ..pre.state.towers@[ti]
                                        },
                                    )
                                    &&& post.state.id_allocator == pre.state.id_allocator
                                    &&& post.state.counter == pre.state.counter
                                    &&& post.state.map == pre.state.map
                                    &&& post.state.monsters == pre.state.monsters
                                    &&& post.state.drops == pre.state.drops
                                    &&& post.state.collectors == pre.state.collectors
                                    &&& post.state.spawners == pre.state.spawners
                                    &&& post.state.events == pre.state.events
                                    &&& post.state.leaked == pre.state.leaked
                                    &&& post.state.collected == pre.state.collected
                                },
                            })
                            &&& post.settlement == pre.settlement
                            &&& post.upgrades.info@ == pre.upgrades.info@.push(
                                upgrade_entry(objindex as u32, t.lvl as u8),
                            )
                        }
                    },
                }
            }
        },
    }
}

impl Engine {
    /// `PlaceTower`: see `place_tower_post`.
    pub fn handle_place_tower(
        &mut self,
        nonce: u64,
        objindex: u64,
        pos: u64,
        feature: u64,
        pid: (u64, u64),
    ) -> (r: Result<(), u32>)
        requires
            old(self).wf(),
        ensures
            final(self).wf(),
            place_tower_post(*old(self), *final(self), r, nonce, objindex, pos, feature, pid),
    {
        let pi = match self.find_player(pid) {
            Some(i) => i,
            None => {
                return Err(FATAL_PLAYER_NOT_FOUND);
            },
        };
        let pnonce = self.players[pi].nonce;
        if !(nonce == pnonce && pnonce < u64::MAX) {
            return Err(FATAL_NONCE_MISMATCH);
        }
        if !self.players[pi].owns(objindex) {
            return Err(FATAL_NOT_OWNED);
        }
        if feature >= 4 {
            return Err(FATAL_BAD_FEATURE);
        }
        if pos >= self.state.map.tiles.len() as u64 {
            return Err(FATAL_BAD_POSITION);
        }
        let ii = match self.find_inventory(objindex) {
            Some(i) => i,
            None => {
                return Err(ERROR_INVENTORY_NOT_FOUND);
            },
        };
        let position = self.state.map.coordinate_of_tile_index(pos as usize);
        if self.state.map.get_occupy(&position) != 0 {
            return Err(ERROR_POSITION_OCCUPIED);
        }
        if self.state.id_allocator == u64::MAX {
            return Err(FATAL_OVERFLOW);
        }
        let rec = self.inventory[ii];
        let template = crate::config::standard_tower(feature);
        let mut t = *rec.object.get_the_tower();
        t.direction = template.direction;
        let copy = InventoryObject { object: Object::Tower(t), ..rec };
        let placed = self.state.place_tower_at(&copy, position);
        proof {
            assert(placed is Ok);
        }
        let mut p = self.players.remove(pi);
        p.nonce = p.nonce + 1;
        self.players.insert(pi, p);
        proof {
            assert(self.players@ =~= old(self).players@.update(
                pi as int,
                Player {
                    nonce: (old(self).players@[pi as int].nonce + 1) as u64,
                    ..old(self).players@[pi as int]
                },
            ));
        }
        Ok(())
    }

    /// `UpgradeTower`: see `upgrade_inventory_post`.
    pub fn handle_upgrade_inventory(&mut self, nonce: u64, objindex: u64, pid: (u64, u64)) -> (r:
        Result<(), u32>)
        requires
            old(self).wf(),
        ensures
            final(self).wf(),
            upgrade_inventory_post(*old(self), *final(self), r, nonce, objindex, pid),
    {
        let pi = match self.find_player(pid) {
            Some(i) => i,
            None => {
                return Err(FATAL_PLAYER_NOT_FOUND);
            },
        };
        let pnonce = self.players[pi].nonce;
        if !(nonce == pnonce && pnonce < u64::MAX) {
            return Err(FATAL_NONCE_MISMATCH);
        }
        if !self.players[pi].owns(objindex) {
            return Err(FATAL_NOT_OWNED);
        }
        let ii = match self.find_inventory(objindex) {
            Some(i) => i,
            None => {
                return Err(FATAL_OBJECT_NOT_FOUND);
            },
        };
        let rec = self.inventory[ii];
        let t = *rec.object.get_the_tower();
        let lvl = t.lvl;
        let placed = self.find_placed(objindex);
        if !(1 <= lvl && lvl < crate::config::MAX_TOWER_LEVEL) {
            return Err(FATAL_LEVEL_LIMIT);
        }
        let cost = crate::config::upgrade_cost(lvl);
        let live = match placed {
            Some(ti) => self.state.towers[ti].object.reward,
            None => rec.reward,
        };
        if live < cost {
            return Err(FATAL_INSUFFICIENT_REWARD);
        }
        let mut o = rec.object;
        o.upgrade();
        match placed {
            Some(ti) => {
                let mut rec2 = rec;
                rec2.object = o;
                self.inventory.set(ii, rec2);
                let mut po = self.state.towers[ti];
                po.object.object = o;
                po.object.reward = live - cost;
                self.state.towers.set(ti, po);
                proof {
                    assert(self.state.tower_ids() =~= old(self).state.tower_ids());
                    assert(self.state.tower_positions() =~= old(self).state.tower_positions());
                    assert(self.state.wf()) by {
                        assert forall|k: int|
                            0 <= k < self.state.towers@.len() implies self.state.map.in_grid(
                            (#[trigger] self.state.towers@[k]).position,
                        ) && self.state.towers@[k].object.object is Tower by {
                            if k != ti {
                                assert(self.state.towers@[k] == old(self).state.towers@[k]);
                            }
                        }
                    }
                }
            },
            None => {
                let mut rec2 = rec;
                rec2.object = o;
                rec2.reward = live - cost;
                self.inventory.set(ii, rec2);
            },
        }
        self.upgrades.append(objindex as u32, lvl as u8);
        let mut p = self.players.remove(pi);
        p.nonce = p.nonce + 1;
        self.players.insert(pi, p);
        proof {
            assert(self.players@ =~= old(self).players@.update(
                pi as int,
                Player {
                    nonce: (old(self).players@[pi as int].nonce + 1) as u64,
                    ..old(self).players@[pi as int]
                },
            ));
            assert forall|i: int, j: int|
                0 <= i < j < self.inventory@.len() implies self.inventory@[i].object_id
                != self.inventory@[j].object_id by {
                assert(self.inventory@[i].object_id == old(self).inventory@[i].object_id);
                assert(self.inventory@[j].object_id == old(self).inventory@[j].object_id);
            }
            assert forall|i: int|
                0 <= i < self.inventory@.len() implies (#[trigger] self.inventory@[i]).object
                is Tower by {
                if i != ii {
                    assert(self.inventory@[i] == old(self).inventory@[i]);
                }
            }
        }
        Ok(())
    }
}


// ===== dispatch =====

/// The opcode packed in the low byte of the command's first word.
pub open spec fn cmd_op(cmd: Seq<u64>) -> u64 {
    cmd[0] & 0xff
}

/// The feature byte above the opcode.
pub open spec fn cmd_feature(cmd: Seq<u64>) -> u64 {
    (cmd[0] >> 8) & 0xff
}

/// The nonce in the remaining high bits.
pub open spec fn cmd_nonce(cmd: Seq<u64>) -> u64 {
    cmd[0] >> 16
}

/// Does the opcode demand the caller's nonce?
pub open spec fn nonce_protected(op: u64) -> bool {
    op == CMD_PLACE_TOWER || op == CMD_WITHDRAW_TOWER || op == CMD_DROP_TOWER || op
        == CMD_UPGRADE_TOWER || op == CMD_COLLECT_REWARDS || op == CMD_WITHDRAW_REWARDS
}

/// What one processed command leaves behind, for every opcode: the
/// complete contract of the command layer.
pub open spec fn dispatch_post(
    pre: Engine,
    post: Engine,
    r: Result<(), u32>,
    cmd: Seq<u64>,
    pkey: Seq<u64>,
) -> bool {
    let op = cmd_op(cmd);
    let feature = cmd_feature(cmd);
    let nonce = cmd_nonce(cmd);
    let pid = (pkey[1], pkey[2]);
    if op == CMD_RUN {
        run_post(pre, post, r)
    } else if op == CMD_PLACE_TOWER {
        place_tower_post(pre, post, r, nonce, cmd[1], cmd[2] & 0xffff, feature, pid)
    } else if op == CMD_WITHDRAW_TOWER {
        withdraw_tower_post(pre, post, r, nonce, cmd[1], pkey)
    } else if op == CMD_MINT_TOWER {
        update_inventory_post(pre, post, r, cmd[1], feature, (cmd[2], cmd[3]))
    } else if op == CMD_DROP_TOWER {
        drop_tower_post(pre, post, r, nonce, cmd[1], pid)
    } else if op == CMD_UPGRADE_TOWER {
        upgrade_inventory_post(pre, post, r, nonce, cmd[1], pid)
    } else if op == CMD_COLLECT_REWARDS {
        collect_rewards_post(pre, post, r, nonce, cmd[1], pid)
    } else if op == CMD_WITHDRAW_REWARDS {
        withdraw_rewards_post(pre, post, r, nonce, cmd[1], cmd[2], cmd[3], pid)
    } else {
        r == Ok::<(), u32>(()) && post == pre
    }
}

impl Engine {
    /// Processes one encoded command under the caller's processing key,
    /// dispatching on the opcode in the low byte of the first word.  On
    /// any error the engine is left exactly as it was.
    pub fn handle_command(&mut self, commands: &[u64; 4], pkey: &[u64; 4]) -> (r: Result<(), u32>)
        requires
            old(self).wf(),
        ensures
            final(self).wf(),
            dispatch_post(*old(self), *final(self), r, commands@, pkey@),
            r is Err ==> *final(self) == *old(self),
            final(self).state.id_allocator >= old(self).state.id_allocator,
    {
        let command = commands[0] & 0xff;
        let feature = (commands[0] >> 8) & 0xff;
        let nonce = commands[0] >> 16;
        let pid = Player::pkey_to_pid(pkey);
        let r = if command == CMD_RUN {
            if self.state.check_run_ok() {
                self.state.run();
                Ok(())
            } else {
                Err(FATAL_OVERFLOW)
            }
        } else if command == CMD_PLACE_TOWER {
            self.handle_place_tower(nonce, commands[1], commands[2] & 0xffff, feature, pid)
        } else if command == CMD_WITHDRAW_TOWER {
            self.handle_withdraw_tower(nonce, commands[1], pkey)
        } else if command == CMD_MINT_TOWER {
            self.handle_update_inventory(commands[1], feature, (commands[2], commands[3]))
        } else if command == CMD_DROP_TOWER {
            self.handle_drop_tower(nonce, commands[1], pid)
        } else if command == CMD_UPGRADE_TOWER {
            self.handle_upgrade_inventory(nonce, commands[1], pid)
        } else if command == CMD_COLLECT_REWARDS {
            self.handle_collect_rewards(nonce, commands[1], pid)
        } else if command == CMD_WITHDRAW_REWARDS {
            self.handle_withdraw_rewards(nonce, commands[1], commands[2], commands[3], pid)
        } else {
            Ok(())
        };
        proof {
            if r is Err {
                lemma_dispatch_err_unchanged(*old(self), *self, r, commands@, pkey@);
            }
            lemma_dispatch_alloc_monotone(*old(self), *self, r, commands@, pkey@);
        }
        r
    }
}

/// Any error leaves the engine untouched: both the recoverable and the
/// fatal tier reject the whole command.
pub proof fn lemma_dispatch_err_unchanged(
    pre: Engine,
    post: Engine,
    r: Result<(), u32>,
    cmd: Seq<u64>,
    pkey: Seq<u64>,
)
    requires
        dispatch_post(pre, post, r, cmd, pkey),
        r is Err,
    ensures
        post == pre,
{
}

/// The id allocator never decreases across a command.
pub proof fn lemma_dispatch_alloc_monotone(
    pre: Engine,
    post: Engine,
    r: Result<(), u32>,
    cmd: Seq<u64>,
    pkey: Seq<u64>,
)
    requires
        dispatch_post(pre, post, r, cmd, pkey),
    ensures
        post.state.id_allocator >= pre.state.id_allocator,
{
    let op = cmd_op(cmd);
    if op == CMD_RUN && run_ok(pre.state) {
        crate::tick::lemma_spawned_len(pre.state.spawners@, pre.state.spawners@.len() as int);
    }
}

/// An inbound transaction: the four command words.
pub struct Transaction {
    pub command: [u64; 4],
}

impl Transaction {
    /// Wraps the four wire words.
    pub fn decode(params: [u64; 4]) -> (r: Transaction)
        ensures
            r.command@ == params@,
    {
        Transaction { command: params }
    }

    /// The printable name of a recoverable error code.
    pub fn decode_error(e: u32) -> (r: &'static str)
        ensures
            e == ERROR_POSITION_OCCUPIED ==> r@ == "PositionOccupied"@,
            e != ERROR_POSITION_OCCUPIED ==> r@ == "UnknownError"@,
    {
        if e == ERROR_POSITION_OCCUPIED {
            "PositionOccupied"
        } else {
            "UnknownError"
        }
    }

    /// Processes this transaction against the engine: zero on success,
    /// else the error code.
    pub fn process(&self, engine: &mut Engine, pkey: &[u64; 4]) -> (r: u32)
        requires
            old(engine).wf(),
        ensures
            final(engine).wf(),
            dispatch_post(
                *old(engine),
                *final(engine),
                if r == 0 {
                    Ok(())
                } else {
                    Err(r)
                },
                self.command@,
                pkey@,
            ),
            final(engine).state.id_allocator >= old(engine).state.id_allocator,
    {
        match engine.handle_command(&self.command, pkey) {
            Ok(_) => 0,
            Err(code) => {
                proof {
                    lemma_error_codes_nonzero(*old(engine), *final(engine), code, self.command@, pkey@);
                }
                code
            },
        }
    }
}

/// Every error code the dispatcher can produce is nonzero, so the zero
/// result code is reserved for success.
proof fn lemma_error_codes_nonzero(
    pre: Engine,
    post: Engine,
    code: u32,
    cmd: Seq<u64>,
    pkey: Seq<u64>,
)
    requires
        dispatch_post(pre, post, Err::<(), u32>(code), cmd, pkey),
    ensures
        code != 0,
{
}

// ===== the nonce discipline, as laws =====

/// Replay protection: if a nonce-protected command succeeds, replaying
/// the identical command against the resulting engine is rejected with a
/// nonce mismatch and changes nothing.
pub proof fn lemma_nonce_replay_rejected(
    pre: Engine,
    mid: Engine,
    post: Engine,
    r2: Result<(), u32>,
    cmd: Seq<u64>,
    pkey: Seq<u64>,
)
    requires
        nonce_protected(cmd_op(cmd)),
        dispatch_post(pre, mid, Ok::<(), u32>(()), cmd, pkey),
        dispatch_post(mid, post, r2, cmd, pkey),
    ensures
        r2 == Err::<(), u32>(FATAL_NONCE_MISMATCH),
        post == mid,
{
    let pid = (pkey[1], pkey[2]);
    let nonce = cmd_nonce(cmd);
    let pi = find_player_s(pre.players@, pid)->Some_0;
    lemma_find_player_char(pre.players@, pid, 0);
    assert(mid.players@[pi].player_id == pid);
    assert(mid.players@[pi].nonce == pre.players@[pi].nonce + 1);
    lemma_find_player_step(pre.players@, mid.players@, pid, pi);
    assert(find_player_s(mid.players@, pid) == Some(pi));
    assert(!(nonce == mid.players@[pi].nonce && mid.players@[pi].nonce < u64::MAX));
}

/// In-order nonces are accepted: after a success with nonce `n`, a
/// command carrying `n + 1` is never rejected for its nonce, while one
/// carrying any other nonce (such as `n + 2`) aborts and changes
/// nothing.
pub proof fn lemma_nonce_sequence(
    pre: Engine,
    mid: Engine,
    post: Engine,
    r2: Result<(), u32>,
    cmd1: Seq<u64>,
    cmd2: Seq<u64>,
    pkey: Seq<u64>,
)
    requires
        nonce_protected(cmd_op(cmd1)),
        nonce_protected(cmd_op(cmd2)),
        dispatch_post(pre, mid, Ok::<(), u32>(()), cmd1, pkey),
        dispatch_post(mid, post, r2, cmd2, pkey),
        cmd_nonce(cmd1) + 1 < u64::MAX,
    ensures
        cmd_nonce(cmd2) == cmd_nonce(cmd1) + 1 ==> r2 != Err::<(), u32>(FATAL_NONCE_MISMATCH),
        cmd_nonce(cmd2) != cmd_nonce(cmd1) + 1 ==> r2 is Err && post == mid,
{
    let pid = (pkey[1], pkey[2]);
    let pi = find_player_s(pre.players@, pid)->Some_0;
    lemma_find_player_char(pre.players@, pid, 0);
    assert(mid.players@[pi].player_id == pid);
    assert(pre.players@[pi].nonce == cmd_nonce(cmd1));
    assert(mid.players@[pi].nonce == cmd_nonce(cmd1) + 1);
    lemma_find_player_step(pre.players@, mid.players@, pid, pi);
    assert(find_player_s(mid.players@, pid) == Some(pi));
    if r2 is Err {
        lemma_dispatch_err_unchanged(mid, post, r2, cmd2, pkey);
    }
}

/// The characterization of the first-match player lookup.
proof fn lemma_find_player_char(players: Seq<Player>, pid: (u64, u64), i: int)
    requires
        0 <= i,
    ensures
        match find_player_from(players, pid, i) {
            Some(k) => i <= k < players.len() && players[k].player_id == pid && (forall|j: int|
                i <= j < k ==> players[j].player_id != pid),
            None => forall|j: int| i <= j < players.len() ==> players[j].player_id != pid,
        },
    decreases players.len() - i,
{
    if i < players.len() && players[i].player_id != pid {
        lemma_find_player_char(players, pid, i + 1);
    }
}

/// A success leaves the found player at its index, so the lookup finds
/// the same index afterwards.
proof fn lemma_find_player_step(
    before: Seq<Player>,
    after: Seq<Player>,
    pid: (u64, u64),
    pi: int,
)
    requires
        find_player_s(before, pid) == Some(pi),
        after.len() == before.len(),
        after[pi].player_id == pid,
        forall|j: int| 0 <= j < before.len() && j != pi ==> after[j] == before[j],
    ensures
        find_player_s(after, pid) == Some(pi),
{
    lemma_find_player_char(before, pid, 0);
    lemma_find_player_prefix(after, pid, 0, pi);
    assert forall|j: int| 0 <= j < pi implies after[j].player_id != pid by {
        assert(after[j] == before[j]);
    }
    lemma_find_player_prefix(after, pid, 0, pi);
}

/// If no entry before `k` matches and entry `k` does, the scan finds `k`.
proof fn lemma_find_player_prefix(players: Seq<Player>, pid: (u64, u64), i: int, k: int)
    requires
        0 <= i <= k < players.len(),
        players[k].player_id == pid,
        forall|j: int| i <= j < k ==> players[j].player_id != pid,
    ensures
        find_player_from(players, pid, i) == Some(k),
    decreases k - i,
{
    if i < k {
        lemma_find_player_prefix(players, pid, i + 1, k);
    }
}

} // verus!
