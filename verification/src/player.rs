//! Players: the per-player inventory-id list, reward balance and the
//! replay-protecting nonce, with the player record's word codec.
//!
//! Record layout: `nonce`, then the length-prefixed inventory list, then
//! the reward balance.

use vstd::prelude::*;

verus! {

/// The durable per-player data: owned inventory ids and reward balance.
#[derive(Clone, Debug, PartialEq, Eq)]
pub struct PlayerData {
    pub inventory: Vec<u64>,
    pub reward: u64,
}

impl Default for PlayerData {
    /// An empty inventory and a zero balance.
    fn default() -> (r: PlayerData)
        ensures
            r.inventory@ == Seq::<u64>::empty(),
            r.reward == 0,
    {
        PlayerData { inventory: Vec::new(), reward: 0 }
    }
}

/// A player: the two-limb id drawn from the key tail, the strictly
/// sequential command nonce, and the durable data.
#[derive(Debug, PartialEq, Eq)]
pub struct Player {
    pub player_id: (u64, u64),
    pub nonce: u64,
    pub data: PlayerData,
}

impl Player {
    /// A fresh player under the given id.
    pub fn new_from_pid(pid: (u64, u64)) -> (r: Player)
        ensures
            r.player_id == pid,
            r.nonce == 0,
            r.data.inventory@ == Seq::<u64>::empty(),
            r.data.reward == 0,
    {
        Player { player_id: pid, nonce: 0, data: PlayerData { inventory: Vec::new(), reward: 0 } }
    }

    /// The player id carried in a processing key: its second and third
    /// limbs.
    pub fn pkey_to_pid(pkey: &[u64; 4]) -> (r: (u64, u64))
        ensures
            r.0 == pkey@[1],
            r.1 == pkey@[2],
    {
        (pkey[1], pkey[2])
    }

    /// Does this player's inventory list hold the given id?
    pub fn owns(&self, tower_id: u64) -> (r: bool)
        ensures
            r == self.data.inventory@.contains(tower_id),
    {
        let n = self.data.inventory.len();
        let mut i: usize = 0;
        while i < n
            invariant
                i <= n,
                n == self.data.inventory@.len(),
                forall|j: int| 0 <= j < i ==> self.data.inventory@[j] != tower_id,
            decreases n - i,
        {
            if self.data.inventory[i] == tower_id {
                return true;
            }
            i = i + 1;
        }
        proof {
            if self.data.inventory@.contains(tower_id) {
                let j = choose|j: int|
                    0 <= j < self.data.inventory@.len() && self.data.inventory@[j] == tower_id;
                assert(false);
            }
        }
        false
    }

    /// The nonce discipline: succeeds exactly when the carried nonce
    /// equals the stored one (and the counter has room), then advances
    /// the stored nonce by one.  A mismatch changes nothing: the caller
    /// aborts the command.
    pub fn check_and_inc_nonce(&mut self, nonce: u64) -> (r: bool)
        ensures
            r == (nonce == old(self).nonce && old(self).nonce < u64::MAX),
            r ==> *final(self) == (Player { nonce: (old(self).nonce + 1) as u64, ..*old(self) }),
            !r ==> *final(self) == *old(self),
    {
        if nonce == self.nonce && self.nonce < u64::MAX {
            self.nonce = self.nonce + 1;
            true
        } else {
            false
        }
    }
}

// ===== the player record codec =====

pub open spec fn enc_player_data(inventory: Seq<u64>, reward: u64) -> Seq<u64> {
    seq![inventory.len() as u64] + inventory + seq![reward]
}

pub open spec fn sdec_player_data(s: Seq<u64>, i: int) -> Option<((Seq<u64>, u64), int)> {
    if 0 <= i && i + 1 <= s.len() {
        let n = s[i];
        if i + 1 + n + 1 <= s.len() {
            Some(((s.subrange(i + 1, i + 1 + n), s[i + 1 + n]), i + 2 + n))
        } else {
            None
        }
    } else {
        None
    }
}

pub open spec fn enc_player(nonce: u64, inventory: Seq<u64>, reward: u64) -> Seq<u64> {
    seq![nonce] + enc_player_data(inventory, reward)
}

/// The decoded parts of a player record: nonce, inventory ids, reward.
pub open spec fn sdec_player(s: Seq<u64>, i: int) -> Option<((u64, Seq<u64>, u64), int)> {
    if 0 <= i && i + 1 <= s.len() {
        match sdec_player_data(s, i + 1) {
            Some(v) => Some(((s[i], v.0.0, v.0.1), v.1)),
            None => None,
        }
    } else {
        None
    }
}

/// A player record decodes back to the words it was encoded from.
pub proof fn lemma_player_roundtrip(
    nonce: u64,
    inventory: Seq<u64>,
    reward: u64,
    pre: Seq<u64>,
    post: Seq<u64>,
)
    requires
        inventory.len() <= u64::MAX,
    ensures
        sdec_player(pre + enc_player(nonce, inventory, reward) + post, pre.len() as int) == Some(
            ((nonce, inventory, reward), pre.len() + enc_player(nonce, inventory, reward).len() as int),
        ),
{
    let s = pre + enc_player(nonce, inventory, reward) + post;
    let i = pre.len() as int;
    assert(s[i] == nonce);
    assert(s[i + 1] == inventory.len() as u64);
    let n = inventory.len() as int;
    assert(s.subrange(i + 2, i + 2 + n) =~= inventory);
    assert(s[i + 2 + n] == reward);
    assert(i + 2 + n + 1 <= s.len());
}

impl PlayerData {
    /// Appends this record's length-prefixed inventory list and reward.
    pub fn to_data(&self, data: &mut Vec<u64>)
        ensures
            final(data)@ == old(data)@ + enc_player_data(self.inventory@, self.reward),
    {
        data.push(self.inventory.len() as u64);
        let n = self.inventory.len();
        let mut i: usize = 0;
        while i < n
            invariant
                i <= n,
                n == self.inventory@.len(),
                data@ == old(data)@ + seq![n as u64] + self.inventory@.subrange(0, i as int),
            decreases n - i,
        {
            data.push(self.inventory[i]);
            proof {
                assert(old(data)@ + seq![n as u64] + self.inventory@.subrange(0, i as int + 1)
                    =~= (old(data)@ + seq![n as u64] + self.inventory@.subrange(0, i as int)).push(
                    self.inventory@[i as int],
                ));
            }
            i = i + 1;
        }
        data.push(self.reward);
        proof {
            assert(self.inventory@.subrange(0, n as int) =~= self.inventory@);
            assert(data@ =~= old(data)@ + enc_player_data(self.inventory@, self.reward));
        }
    }

    /// Reads one record back; fails exactly on a truncated input.
    pub fn from_data(data: &Vec<u64>, pos: usize) -> (r: Option<(PlayerData, usize)>)
        ensures
            match r {
                Some(v) => sdec_player_data(data@, pos as int) matches Some(w) && v.0.inventory@
                    == w.0.0 && v.0.reward == w.0.1 && v.1 == w.1,
                None => sdec_player_data(data@, pos as int) is None,
            },
    {
        if pos >= data.len() {
            return None;
        }
        let n64 = data[pos];
        if n64 > (usize::MAX as u64) {
            return None;
        }
        let n = n64 as usize;
        if n >= data.len() || pos >= data.len() - n - 1 {
            proof {
                assert(pos as int + 1 + n64 + 1 > data@.len());
            }
            return None;
        }
        let mut inventory: Vec<u64> = Vec::new();
        let mut i: usize = 0;
        while i < n
            invariant
                i <= n,
                pos + 1 + n + 1 <= data@.len(),
                data@.len() <= usize::MAX,
                inventory@ == data@.subrange(pos as int + 1, pos as int + 1 + i as int),
            decreases n - i,
        {
            inventory.push(data[pos + 1 + i]);
            proof {
                assert(data@.subrange(pos as int + 1, pos as int + 1 + i as int + 1)
                    =~= data@.subrange(pos as int + 1, pos as int + 1 + i as int).push(
                    data@[pos as int + 1 + i as int],
                ));
            }
            i = i + 1;
        }
        let reward = data[pos + 1 + n];
        Some((PlayerData { inventory, reward }, pos + 2 + n))
    }
}

impl Player {
    /// Appends this player's whole record: nonce, then the data.
    pub fn encode(&self, data: &mut Vec<u64>)
        ensures
            final(data)@ == old(data)@ + enc_player(self.nonce, self.data.inventory@, self.data.reward),
    {
        data.push(self.nonce);
        self.data.to_data(data);
        proof {
            assert(data@ =~= old(data)@ + enc_player(
                self.nonce,
                self.data.inventory@,
                self.data.reward,
            ));
        }
    }

    /// Reads a player record back under the given id; fails exactly on a
    /// truncated input.
    pub fn decode(data: &Vec<u64>, pos: usize, pid: (u64, u64)) -> (r: Option<(Player, usize)>)
        ensures
            match r {
                Some(v) => sdec_player(data@, pos as int) matches Some(w) && v.0.player_id == pid
                    && v.0.nonce == w.0.0 && v.0.data.inventory@ == w.0.1 && v.0.data.reward
                    == w.0.2 && v.1 == w.1,
                None => sdec_player(data@, pos as int) is None,
            },
    {
        if pos >= data.len() {
            return None;
        }
        let nonce = data[pos];
        match PlayerData::from_data(data, pos + 1) {
            Some(v) => Some((Player { player_id: pid, nonce, data: v.0 }, v.1)),
            None => None,
        }
    }
}

} // verus!
