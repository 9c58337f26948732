//! Outbound settlement records, bit-exact: withdrawal records of
//! `{opcode 1, 20-byte address, 8-byte amount}` and upgrade batches of
//! `{opcode 2, server id, count}` headers followed by up to four
//! `(object id, level)` words.

use vstd::prelude::*;

verus! {

/// The server identity stamped into upgrade batch headers.
pub const SERVER_ID: u8 = 0;

/// Little-endian bytes of a word.
pub open spec fn le_bytes(v: u64) -> Seq<u8> {
    Seq::new(8, |k: int| ((v >> (8 * k) as u64) & 0xff) as u8)
}

/// Big-endian bytes of a word.
pub open spec fn be_bytes(v: u64) -> Seq<u8> {
    Seq::new(8, |k: int| ((v >> (8 * (7 - k)) as u64) & 0xff) as u8)
}

/// Big-endian bytes of a 32-bit word.
pub open spec fn be_bytes32(v: u32) -> Seq<u8> {
    Seq::new(4, |k: int| ((v >> (8 * (3 - k)) as u32) & 0xff) as u8)
}

fn le_byte(v: u64, k: usize) -> (r: u8)
    requires
        k < 8,
    ensures
        r == le_bytes(v)[k as int],
{
    ((v >> (8 * k as u64)) & 0xff) as u8
}

fn be_byte(v: u64, k: usize) -> (r: u8)
    requires
        k < 8,
    ensures
        r == be_bytes(v)[k as int],
{
    ((v >> (8 * (7 - k) as u64)) & 0xff) as u8
}

fn be_byte32(v: u32, k: usize) -> (r: u8)
    requires
        k < 4,
    ensures
        r == be_bytes32(v)[k as int],
{
    ((v >> (8 * (3 - k) as u32)) & 0xff) as u8
}

/// A pending withdrawal, carried as the three operand limbs of the
/// command that requested it: the first limb holds the amount in its low
/// half and the first four address bytes in its high half; the other two
/// limbs hold the remaining sixteen address bytes.
#[derive(Clone, Copy, Debug, PartialEq, Eq)]
pub struct WithdrawInfo {
    pub limbs: (u64, u64, u64),
}

impl WithdrawInfo {
    pub fn new(limbs: (u64, u64, u64)) -> (r: WithdrawInfo)
        ensures
            r.limbs == limbs,
    {
        WithdrawInfo { limbs }
    }
}

/// The 32-byte withdrawal record: opcode 1 with three bytes of padding,
/// the 20-byte address, and the amount in big-endian order.
pub open spec fn withdraw_record(l0: u64, l1: u64, l2: u64) -> Seq<u8> {
    seq![1u8, 0u8, 0u8, 0u8] + le_bytes(l0).subrange(4, 8) + le_bytes(l1) + le_bytes(l2)
        + be_bytes(l0 & 0xffff_ffff)
}

/// The accumulated settlement byte stream.
#[derive(Clone, Debug, PartialEq, Eq)]
pub struct SettlementInfo {
    pub bytes: Vec<u8>,
}

impl SettlementInfo {
    pub fn new() -> (r: SettlementInfo)
        ensures
            r.bytes@ == Seq::<u8>::empty(),
    {
        SettlementInfo { bytes: Vec::new() }
    }

    /// Appends one withdrawal record, bit for bit.
    pub fn append_settlement(&mut self, info: WithdrawInfo)
        ensures
            final(self).bytes@ == old(self).bytes@ + withdraw_record(
                info.limbs.0,
                info.limbs.1,
                info.limbs.2,
            ),
    {
        self.bytes.push(1);
        self.bytes.push(0);
        self.bytes.push(0);
        self.bytes.push(0);
        let mut k: usize = 4;
        while k < 8
            invariant
                4 <= k <= 8,
                self.bytes@ == old(self).bytes@ + seq![1u8, 0u8, 0u8, 0u8] + le_bytes(
                    info.limbs.0,
                ).subrange(4, k as int),
            decreases 8 - k,
        {
            self.bytes.push(le_byte(info.limbs.0, k));
            proof {
                assert(le_bytes(info.limbs.0).subrange(4, k as int + 1) =~= le_bytes(
                    info.limbs.0,
                ).subrange(4, k as int).push(le_bytes(info.limbs.0)[k as int]));
                assert(self.bytes@ =~= old(self).bytes@ + seq![1u8, 0u8, 0u8, 0u8] + le_bytes(
                    info.limbs.0,
                ).subrange(4, k as int + 1));
            }
            k = k + 1;
        }
        let ghost base1 = self.bytes@;
        let mut k2: usize = 0;
        while k2 < 8
            invariant
                k2 <= 8,
                self.bytes@ == base1 + le_bytes(info.limbs.1).subrange(0, k2 as int),
            decreases 8 - k2,
        {
            self.bytes.push(le_byte(info.limbs.1, k2));
            proof {
                assert(le_bytes(info.limbs.1).subrange(0, k2 as int + 1) =~= le_bytes(
                    info.limbs.1,
                ).subrange(0, k2 as int).push(le_bytes(info.limbs.1)[k2 as int]));
                assert(self.bytes@ =~= base1 + le_bytes(info.limbs.1).subrange(0, k2 as int + 1));
            }
            k2 = k2 + 1;
        }
        let ghost base2 = self.bytes@;
        let mut k3: usize = 0;
        while k3 < 8
            invariant
                k3 <= 8,
                self.bytes@ == base2 + le_bytes(info.limbs.2).subrange(0, k3 as int),
            decreases 8 - k3,
        {
            self.bytes.push(le_byte(info.limbs.2, k3));
            proof {
                assert(le_bytes(info.limbs.2).subrange(0, k3 as int + 1) =~= le_bytes(
                    info.limbs.2,
                ).subrange(0, k3 as int).push(le_bytes(info.limbs.2)[k3 as int]));
                assert(self.bytes@ =~= base2 + le_bytes(info.limbs.2).subrange(0, k3 as int + 1));
            }
            k3 = k3 + 1;
        }
        let ghost base3 = self.bytes@;
        let amount = info.limbs.0 & 0xffff_ffff;
        let mut k4: usize = 0;
        while k4 < 8
            invariant
                k4 <= 8,
                amount == info.limbs.0 & 0xffff_ffff,
                self.bytes@ == base3 + be_bytes(amount).subrange(0, k4 as int),
            decreases 8 - k4,
        {
            self.bytes.push(be_byte(amount, k4));
            proof {
                assert(be_bytes(amount).subrange(0, k4 as int + 1) =~= be_bytes(amount).subrange(
                    0,
                    k4 as int,
                ).push(be_bytes(amount)[k4 as int]));
                assert(self.bytes@ =~= base3 + be_bytes(amount).subrange(0, k4 as int + 1));
            }
            k4 = k4 + 1;
        }
        proof {
            assert(le_bytes(info.limbs.0).subrange(4, 8) =~= le_bytes(info.limbs.0).subrange(
                4,
                8,
            ));
            assert(le_bytes(info.limbs.1).subrange(0, 8) =~= le_bytes(info.limbs.1));
            assert(le_bytes(info.limbs.2).subrange(0, 8) =~= le_bytes(info.limbs.2));
            assert(be_bytes(amount).subrange(0, 8) =~= be_bytes(amount));
            assert(self.bytes@ =~= old(self).bytes@ + withdraw_record(
                info.limbs.0,
                info.limbs.1,
                info.limbs.2,
            ));
        }
    }

    /// Drains the settlement stream: the withdrawal bytes accumulated so
    /// far, followed by the upgrade batches, leaving the stream empty.
    /// The upgrade list itself is kept.
    pub fn flush_settlement(&mut self, upgrades: &UpgradeInfo) -> (r: Vec<u8>)
        ensures
            r@ == old(self).bytes@ + upgrade_bytes(upgrades.info@),
            final(self).bytes@ == Seq::<u8>::empty(),
    {
        let mut r: Vec<u8> = Vec::new();
        std::mem::swap(&mut r, &mut self.bytes);
        upgrades.flush(&mut r);
        r
    }
}

/// One packed upgrade entry: the object id in the high 24 bits, the new
/// level in the low 8.
pub open spec fn upgrade_entry(objid: u32, level: u8) -> u32 {
    ((objid << 8) + level) as u32
}

/// The byte stream of the queued upgrades, in batches of at most four:
/// each batch is a `{2, server id, count, 0}` header followed by its
/// entries in big-endian order.
pub open spec fn upgrade_bytes(info: Seq<u32>) -> Seq<u8>
    decreases info.len(),
{
    if info.len() == 0 {
        Seq::empty()
    } else {
        let c = if info.len() >= 4 {
            4int
        } else {
            info.len() as int
        };
        seq![2u8, SERVER_ID, c as u8, 0u8] + chunk_bytes(info, c) + upgrade_bytes(
            info.skip(c),
        )
    }
}

/// The big-endian bytes of the first `c` entries.
pub open spec fn chunk_bytes(info: Seq<u32>, c: int) -> Seq<u8>
    decreases c,
{
    if c <= 0 {
        Seq::empty()
    } else {
        chunk_bytes(info, c - 1) + be_bytes32(info[c - 1])
    }
}

/// The queued upgrade records of this batch window.
#[derive(Clone, Debug, PartialEq, Eq)]
pub struct UpgradeInfo {
    pub info: Vec<u32>,
}

impl UpgradeInfo {
    pub fn new() -> (r: UpgradeInfo)
        ensures
            r.info@ == Seq::<u32>::empty(),
    {
        UpgradeInfo { info: Vec::new() }
    }

    /// Queues one upgrade record.
    pub fn append(&mut self, objid: u32, level: u8)
        ensures
            final(self).info@ == old(self).info@.push(upgrade_entry(objid, level)),
    {
        proof {
            assert((objid << 8) + level <= 0xffff_ffff) by (bit_vector);
        }
        self.info.push((objid << 8) + level as u32);
    }

    /// Appends the queued upgrades as byte batches.
    pub fn flush(&self, bytes: &mut Vec<u8>)
        ensures
            final(bytes)@ == old(bytes)@ + upgrade_bytes(self.info@),
    {
        let n = self.info.len();
        let mut i: usize = 0;
        while i < n
            invariant
                i <= n,
                n == self.info@.len(),
                i % 4 == 0 || i == n,
                bytes@ == old(bytes)@ + upgrade_bytes(self.info@.subrange(0, i as int)),
            decreases n - i,
        {
            let c: usize = if n - i >= 4 {
                4
            } else {
                n - i
            };
            bytes.push(2);
            bytes.push(SERVER_ID);
            bytes.push(c as u8);
            bytes.push(0);
            let ghost mid = bytes@;
            let mut k: usize = 0;
            while k < c
                invariant
                    k <= c,
                    i + c <= n,
                    n == self.info@.len(),
                    bytes@ == mid + chunk_window(self.info@, i as int, k as int),
                decreases c - k,
            {
                let v = self.info[i + k];
                bytes.push(be_byte32(v, 0));
                bytes.push(be_byte32(v, 1));
                bytes.push(be_byte32(v, 2));
                bytes.push(be_byte32(v, 3));
                proof {
                    assert(be_bytes32(v) =~= seq![
                        be_bytes32(v)[0],
                        be_bytes32(v)[1],
                        be_bytes32(v)[2],
                        be_bytes32(v)[3],
                    ]);
                    assert(bytes@ =~= mid + (chunk_window(self.info@, i as int, k as int)
                        + be_bytes32(self.info@[i as int + k as int])));
                }
                k = k + 1;
            }
            proof {
                lemma_upgrade_bytes_prefix(self.info@, i as int, c as int);
                assert(bytes@ =~= old(bytes)@ + upgrade_bytes(
                    self.info@.subrange(0, i as int + c as int),
                ));
            }
            i = i + c;
        }
        proof {
            assert(self.info@.subrange(0, n as int) =~= self.info@);
            assert(bytes@ =~= old(bytes)@ + upgrade_bytes(self.info@));
        }
    }
}

/// The big-endian bytes of entries `i` to `i + k`.
pub open spec fn chunk_window(info: Seq<u32>, i: int, k: int) -> Seq<u8>
    decreases k,
{
    if k <= 0 {
        Seq::empty()
    } else {
        chunk_window(info, i, k - 1) + be_bytes32(info[i + k - 1])
    }
}


/// Appending one full batch to the encoded prefix.
proof fn lemma_upgrade_bytes_prefix(info: Seq<u32>, i: int, c: int)
    requires
        0 <= i,
        i % 4 == 0,
        c == if info.len() - i >= 4 { 4int } else { info.len() - i },
        i < info.len(),
    ensures
        upgrade_bytes(info.subrange(0, i + c)) == upgrade_bytes(info.subrange(0, i)) + (seq![
            2u8,
            SERVER_ID,
            c as u8,
            0u8,
        ] + chunk_window(info, i, c)),
    decreases i,
{
    if i == 0 {
        let p = info.subrange(0, c);
        assert(p.len() == c);
        assert(upgrade_bytes(p) == seq![2u8, SERVER_ID, c as u8, 0u8] + chunk_bytes(p, c)
            + upgrade_bytes(p.skip(c)));
        assert(p.skip(c) =~= Seq::<u32>::empty());
        assert(upgrade_bytes(Seq::<u32>::empty()) =~= Seq::<u8>::empty());
        assert(chunk_bytes(p, c) =~= chunk_window(info, 0, c)) by {
            lemma_chunk_bytes_is_window(p, c);
            assert(p.subrange(0, c) =~= info.subrange(0, c));
            lemma_chunk_window_agree(p, info, 0, 0, c);
        }
        assert(info.subrange(0, 0) =~= Seq::<u32>::empty());
        assert(upgrade_bytes(info.subrange(0, 0)) =~= Seq::<u8>::empty());
        assert(upgrade_bytes(p) =~= Seq::<u8>::empty() + (seq![2u8, SERVER_ID, c as u8, 0u8]
            + chunk_window(info, 0, c)));
    } else {
        let p = info.subrange(0, i + c);
        let q = info.subrange(0, i);
        assert(p.len() == i + c && q.len() == i);
        assert(upgrade_bytes(p) == seq![2u8, SERVER_ID, 4u8, 0u8] + chunk_bytes(p, 4)
            + upgrade_bytes(p.skip(4)));
        assert(upgrade_bytes(q) == seq![2u8, SERVER_ID, 4u8, 0u8] + chunk_bytes(q, 4)
            + upgrade_bytes(q.skip(4)));
        assert(chunk_bytes(p, 4) =~= chunk_bytes(q, 4)) by {
            lemma_chunk_bytes_is_window(p, 4);
            lemma_chunk_bytes_is_window(q, 4);
            assert(p.subrange(0, 4) =~= q.subrange(0, 4));
            lemma_chunk_window_agree(p, q, 0, 0, 4);
        }
        assert(p.skip(4) =~= info.skip(4).subrange(0, i - 4 + c));
        assert(q.skip(4) =~= info.skip(4).subrange(0, i - 4));
        lemma_upgrade_bytes_prefix(info.skip(4), i - 4, c);
        assert(chunk_window(info.skip(4), i - 4, c) =~= chunk_window(info, i, c)) by {
            assert(info.skip(4).subrange(i - 4, i - 4 + c) =~= info.subrange(i, i + c));
            lemma_chunk_window_agree(info.skip(4), info, i - 4, i, c);
        }
        assert(upgrade_bytes(p) =~= upgrade_bytes(q) + (seq![2u8, SERVER_ID, c as u8, 0u8]
            + chunk_window(info, i, c)));
    }
}

/// The chunk of a whole prefix is the window at its start.
proof fn lemma_chunk_bytes_is_window(a: Seq<u32>, c: int)
    ensures
        chunk_bytes(a, c) == chunk_window(a, 0, c),
    decreases c,
{
    if c > 0 {
        lemma_chunk_bytes_is_window(a, c - 1);
    }
}

/// Windows over equal entry runs have the same bytes.
proof fn lemma_chunk_window_agree(a: Seq<u32>, b: Seq<u32>, ia: int, ib: int, c: int)
    requires
        0 <= c,
        0 <= ia,
        ia + c <= a.len(),
        0 <= ib,
        ib + c <= b.len(),
        a.subrange(ia, ia + c) == b.subrange(ib, ib + c),
    ensures
        chunk_window(a, ia, c) == chunk_window(b, ib, c),
    decreases c,
{
    if c > 0 {
        assert(a.subrange(ia, ia + c - 1) =~= b.subrange(ib, ib + c - 1)) by {
            assert forall|k: int|
                0 <= k < c - 1 implies #[trigger] a.subrange(ia, ia + c - 1)[k] == b.subrange(
                ib,
                ib + c - 1,
            )[k] by {
                assert(a.subrange(ia, ia + c)[k] == b.subrange(ib, ib + c)[k]);
            }
        }
        lemma_chunk_window_agree(a, b, ia, ib, c - 1);
        assert(a[ia + c - 1] == b[ib + c - 1]) by {
            assert(a.subrange(ia, ia + c)[c - 1] == a[ia + c - 1]);
            assert(b.subrange(ib, ib + c)[c - 1] == b[ib + c - 1]);
            assert(a.subrange(ia, ia + c)[c - 1] == b.subrange(ib, ib + c)[c - 1]);
        }
    }
}

} // verus!
