//! The reverse index from transaction digests to block numbers.
//!
//! One entry per indexed block, appended in order; a lookup walks the
//! entries newest first.  The persisted form is an append-only log
//! whose header points at the last entry and whose entries point at
//! their predecessors.

use vstd::prelude::*;

use crate::block::{Block, BlockView};
use crate::blocks_index::{spec_get, ChunkedBlocksIndex};
use crate::bytes::{push_bytes, push_u16_be, push_u64_be, u16_be, u64_be};

verus! {

/// Mathematical model of one log entry.
#[verifier::ext_equal]
pub struct EntryView {
    pub number: u64,
    pub hashes: Seq<Seq<u8>>,
}

/// One indexed block: its number and its transactions' digests.
#[derive(Debug)]
pub struct LogEntry {
    pub(crate) number: u64,
    pub(crate) hashes: Vec<crate::hash::Hash>,
}

impl View for LogEntry {
    type V = EntryView;

    closed spec fn view(&self) -> EntryView {
        EntryView {
            number: self.number,
            hashes: Seq::new(self.hashes@.len(), |i: int| self.hashes@[i]@),
        }
    }
}

/// Whether an entry indexes this digest.
pub open spec fn entry_has(e: EntryView, h: Seq<u8>) -> bool {
    exists|i: int| 0 <= i < e.hashes.len() && e.hashes[i] == h
}

/// The number of the newest indexed block holding this digest.
pub open spec fn spec_lookup(entries: Seq<EntryView>, h: Seq<u8>) -> Option<u64>
    decreases entries.len(),
{
    if entries.len() == 0 {
        None
    } else if entry_has(entries.last(), h) {
        Some(entries.last().number)
    } else {
        spec_lookup(entries.drop_last(), h)
    }
}

/// The number of the last indexed block, if any.
pub open spec fn spec_last_number(entries: Seq<EntryView>) -> Option<u64> {
    if entries.len() == 0 {
        None
    } else {
        Some(entries.last().number)
    }
}


/// The entries appended when the walk climbs from number `n` until a
/// gap in the store.
pub open spec fn indexed_run(bs: Seq<BlockView>, n: u64) -> Seq<EntryView>
    decreases u64::MAX - n,
{
    if n == u64::MAX {
        Seq::empty()
    } else {
        match spec_get(bs, n as int + 1) {
            Some(b) => seq![entry_of(b)] + indexed_run(bs, (n + 1) as u64),
            None => Seq::empty(),
        }
    }
}

proof fn lemma_indexed_run_none(bs: Seq<BlockView>, n: u64)
    requires
        spec_get(bs, n as int + 1) is None,
    ensures
        indexed_run(bs, n) == Seq::<EntryView>::empty(),
{
}

proof fn lemma_indexed_run_step(bs: Seq<BlockView>, n: u64, b: BlockView)
    requires
        n < u64::MAX,
        spec_get(bs, n as int + 1) == Some(b),
    ensures
        indexed_run(bs, n) == seq![entry_of(b)] + indexed_run(bs, (n + 1) as u64),
{
}

/// What catching the index up with a block store leaves in it.
pub open spec fn catch_up(bs: Seq<BlockView>, entries: Seq<EntryView>) -> Seq<EntryView> {
    match spec_last_number(entries) {
        Some(m) => if spec_get(bs, m as int) is Some {
            entries + indexed_run(bs, m)
        } else {
            entries
        },
        None => match crate::blocks_index::spec_head_of(bs) {
            Some(h) => entries.push(entry_of(h)) + indexed_run(bs, h.number),
            None => entries,
        },
    }
}

/// The first transaction of a block with this digest, if any.
pub open spec fn find_tx_from(ts: Seq<crate::transaction::TxView>, h: Seq<u8>) -> Option<
    crate::transaction::TxView,
>
    decreases ts.len(),
{
    if ts.len() == 0 {
        None
    } else if ts.first().hash == h {
        Some(ts.first())
    } else {
        find_tx_from(ts.drop_first(), h)
    }
}

/// The first transaction of a block with this digest, if any.
pub open spec fn find_tx(b: BlockView, h: Seq<u8>) -> Option<crate::transaction::TxView> {
    find_tx_from(b.transactions, h)
}

/// A first match pins `find_tx`.
proof fn lemma_find_tx_at(b: BlockView, h: Seq<u8>, i: int)
    requires
        0 <= i < b.transactions.len(),
        b.transactions[i].hash == h,
        forall|j: int| 0 <= j < i ==> b.transactions[j].hash != h,
    ensures
        find_tx(b, h) == Some(b.transactions[i]),
{
    lemma_find_tx_from_at(b.transactions, h, i);
}

proof fn lemma_find_tx_from_at(ts: Seq<crate::transaction::TxView>, h: Seq<u8>, i: int)
    requires
        0 <= i < ts.len(),
        ts[i].hash == h,
        forall|j: int| 0 <= j < i ==> ts[j].hash != h,
    ensures
        find_tx_from(ts, h) == Some(ts[i]),
    decreases i,
{
    if i > 0 {
        assert(ts.drop_first()[i - 1] == ts[i]);
        assert(forall|j: int| 0 <= j < i - 1 ==> ts.drop_first()[j] == ts[j + 1]);
        lemma_find_tx_from_at(ts.drop_first(), h, i - 1);
    }
}

/// Without a match, `find_tx` finds nothing.
proof fn lemma_find_tx_none(b: BlockView, h: Seq<u8>)
    requires
        forall|j: int| 0 <= j < b.transactions.len() ==> b.transactions[j].hash != h,
    ensures
        find_tx(b, h) is None,
{
    lemma_find_tx_from_none(b.transactions, h);
}

proof fn lemma_find_tx_from_none(ts: Seq<crate::transaction::TxView>, h: Seq<u8>)
    requires
        forall|j: int| 0 <= j < ts.len() ==> ts[j].hash != h,
    ensures
        find_tx_from(ts, h) is None,
    decreases ts.len(),
{
    if ts.len() > 0 {
        assert(forall|j: int| 0 <= j < ts.len() - 1 ==> ts.drop_first()[j] == ts[j + 1]);
        lemma_find_tx_from_none(ts.drop_first(), h);
    }
}

/// The transactions index.
#[derive(Debug)]
pub struct TransactionsFile {
    entries: Vec<LogEntry>,
}

impl View for TransactionsFile {
    type V = Seq<EntryView>;

    closed spec fn view(&self) -> Seq<EntryView> {
        Seq::new(self.entries@.len(), |i: int| self.entries@[i]@)
    }
}

/// What one block contributes to the index.
pub open spec fn entry_of(b: BlockView) -> EntryView {
    EntryView { number: b.number, hashes: Seq::new(b.transactions.len(), |i: int| b.transactions[i].hash) }
}

impl TransactionsFile {
    /// An empty index.
    pub fn open() -> (r: TransactionsFile)
        ensures
            r@.len() == 0,
    {
        let r = TransactionsFile { entries: Vec::new() };
        proof {
            assert(r@ =~= Seq::<EntryView>::empty());
        }
        r
    }

    /// Append one block's entry.
    pub fn index_block(&mut self, block: &Block)
        ensures
            final(self)@ == old(self)@.push(entry_of(block@)),
    {
        let ghost before = self@;
        let txs = block.transactions();
        let mut hashes: Vec<crate::hash::Hash> = Vec::new();
        let n = txs.len();
        let mut i: usize = 0;
        while i < n
            invariant
                n == txs@.len(),
                i <= n,
                forall|j: int| 0 <= j < n ==> txs@[j]@ == block@.transactions[j],
                block@.transactions.len() == n,
                hashes@.len() == i,
                forall|j: int| 0 <= j < i ==> hashes@[j]@ == block@.transactions[j].hash,
            decreases n - i,
        {
            hashes.push(txs[i].get_hash());
            i = i + 1;
        }
        let entry = LogEntry { number: block.number(), hashes };
        proof {
            assert(entry@ =~= entry_of(block@));
        }
        self.entries.push(entry);
        proof {
            assert(self@ =~= before.push(entry_of(block@)));
        }
    }

    /// The number of the newest indexed block holding this digest.
    pub fn lookup_block(&self, transaction: &crate::hash::Hash) -> (r: Option<u64>)
        ensures
            r == spec_lookup(self@, transaction@),
    {
        let ghost gs = self@;
        let ghost h = transaction@;
        let n = self.entries.len();
        let mut k: usize = n;
        proof {
            assert(gs.take(n as int) =~= gs);
        }
        while k > 0
            invariant
                n == self.entries@.len(),
                k <= n,
                gs == self@,
                gs.len() == n,
                forall|j: int| 0 <= j < n ==> gs[j] == self.entries@[j]@,
                h == transaction@,
                spec_lookup(gs, h) == spec_lookup(gs.take(k as int), h),
            decreases k,
        {
            let e = &self.entries[k - 1];
            let m = e.hashes.len();
            let mut i: usize = 0;
            let mut found = false;
            while i < m
                invariant
                    m == e.hashes@.len(),
                    i <= m,
                    h == transaction@,
                    e@ == gs[k - 1],
                    gs[k - 1].hashes.len() == m,
                    forall|j: int| 0 <= j < m ==> #[trigger] gs[k - 1].hashes[j] == e.hashes@[j]@,
                    found ==> entry_has(gs[k - 1], h),
                    !found ==> (forall|j: int| 0 <= j < i ==> #[trigger] gs[k - 1].hashes[j] != h),
                decreases m - i,
            {
                if e.hashes[i] == *transaction {
                    proof {
                        assert(gs[k - 1].hashes[i as int] == h);
                    }
                    found = true;
                }
                i = i + 1;
            }
            proof {
                let taken = gs.take(k as int);
                assert(taken.last() == gs[k - 1]);
                assert(taken.drop_last() =~= gs.take(k - 1));
            }
            if found {
                return Some(e.number);
            }
            k = k - 1;
        }
        proof {
            assert(gs.take(0).len() == 0);
        }
        None
    }

    /// Whether any indexed block holds this digest.
    pub fn has_indexed(&self, transaction: &crate::hash::Hash) -> (r: bool)
        ensures
            r == (spec_lookup(self@, transaction@) is Some),
    {
        match self.lookup_block(transaction) {
            Some(_) => true,
            None => false,
        }
    }

    /// Bring the index up to date with the block store: starting at
    /// the successor of the last indexed number (or the head block of
    /// an empty index), append one entry per stored block, following
    /// numbers upward until a gap.
    pub fn index_if_needed(&mut self, blocks: &ChunkedBlocksIndex)
        ensures
            final(self)@ == catch_up(blocks@, old(self)@),
    {
        let ghost bs = blocks@;
        let ghost before = self@;
        let mut cur: Block;
        match self.last_number() {
            Some(last) => {
                match blocks.get_block(last) {
                    Some(b) => {
                        proof {
                            crate::blocks_index::lemma_spec_get_number(bs, last as int);
                        }
                        cur = b;
                    },
                    None => {
                        proof {
                            assert(catch_up(bs, before) == before);
                        }
                        return ;
                    },
                }
            },
            None => {
                match blocks.get_head_block() {
                    Some(head) => {
                        proof {
                            let i = choose|i: int|
                                crate::blocks_index::is_head_idx(bs, i) && bs[i] == head@;
                            let k = choose|k: int| crate::blocks_index::is_head_idx(bs, k);
                            crate::blocks_index::lemma_head_idx_unique(bs, i, k);
                        }
                        self.index_block(&head);
                        cur = head;
                    },
                    None => {
                        proof {
                            assert(!(exists|i: int| crate::blocks_index::is_head_idx(bs, i)));
                            assert(catch_up(bs, before) == before);
                        }
                        return ;
                    },
                }
            },
        }
        proof {
            assert(catch_up(bs, before) == self@ + indexed_run(bs, cur@.number));
        }
        loop
            invariant
                bs == blocks@,
                catch_up(bs, before) == self@ + indexed_run(bs, cur@.number),
            ensures
                catch_up(bs, before) == self@,
            decreases u64::MAX - cur@.number,
        {
            let next = match blocks.get_next_block(&cur) {
                Some(b) => b,
                None => {
                    proof {
                        assert(spec_get(bs, cur@.number + 1) is None);
                        lemma_indexed_run_none(bs, cur@.number);
                        assert(indexed_run(bs, cur@.number) =~= Seq::<EntryView>::empty());
                        assert(self@ + indexed_run(bs, cur@.number) =~= self@);
                    }
                    break ;
                },
            };
            proof {
                assert(cur@.number < u64::MAX) by {
                    if cur@.number == u64::MAX {
                        assert(crate::blocks_index::has_number(bs, cur@.number + 1));
                        let i = choose|i: int|
                            0 <= i < bs.len() && bs[i].number == cur@.number + 1;
                        assert(bs[i].number <= u64::MAX);
                    }
                }
                crate::blocks_index::lemma_spec_get_number(bs, cur@.number + 1);
            }
            let ghost old_entries = self@;
            self.index_block(&next);
            proof {
                lemma_indexed_run_step(bs, cur@.number, next@);
                assert(indexed_run(bs, cur@.number) == seq![entry_of(next@)] + indexed_run(
                    bs,
                    next@.number,
                ));
                assert(old_entries + indexed_run(bs, cur@.number) =~= self@ + indexed_run(
                    bs,
                    next@.number,
                ));
            }
            cur = next;
        }
    }

    /// Whether this digest is stabilized: after catching up with the
    /// block store, some indexed block holds it.
    pub fn has_transaction(&mut self, blocks: &ChunkedBlocksIndex, transaction: &crate::hash::Hash) -> (r:
        bool)
        ensures
            final(self)@ == catch_up(blocks@, old(self)@),
            r == (spec_lookup(catch_up(blocks@, old(self)@), transaction@) is Some),
    {
        self.index_if_needed(blocks);
        self.has_indexed(transaction)
    }

    /// The stabilized transaction with this digest and the stored
    /// block that holds it, if the index and the store agree on one.
    pub fn get_transaction(&mut self, blocks: &ChunkedBlocksIndex, transaction: &crate::hash::Hash) -> (r:
        Option<(crate::transaction::Transaction, Block)>)
        ensures
            final(self)@ == catch_up(blocks@, old(self)@),
            match spec_lookup(catch_up(blocks@, old(self)@), transaction@) {
                None => r is None,
                Some(num) => match spec_get(blocks@, num as int) {
                    None => r is None,
                    Some(bv) => match find_tx(bv, transaction@) {
                        Some(tv) => r matches Some(p) && p.0@ == tv && p.1@ == bv,
                        None => r is None,
                    },
                },
            },
    {
        self.index_if_needed(blocks);
        let number = match self.lookup_block(transaction) {
            Some(n) => n,
            None => {
                return None;
            },
        };
        let block = match blocks.get_block(number) {
            Some(b) => b,
            None => {
                return None;
            },
        };
        let ghost bv = block@;
        let ghost h = transaction@;
        let ghost target = catch_up(blocks@, old(self)@);
        proof {
            assert(self@ == target);
            assert(spec_lookup(target, h) == Some(number));
            assert(spec_get(blocks@, number as int) == Some(bv));
        }
        let txs = block.transactions();
        let n = txs.len();
        let mut i: usize = 0;
        while i < n
            invariant
                n == txs@.len(),
                bv.transactions.len() == n,
                forall|j: int| 0 <= j < n ==> txs@[j]@ == bv.transactions[j],
                i <= n,
                h == transaction@,
                bv == block@,
                self@ == catch_up(blocks@, old(self)@),
                spec_lookup(catch_up(blocks@, old(self)@), h) == Some(number),
                spec_get(blocks@, number as int) == Some(bv),
                forall|j: int| 0 <= j < i ==> bv.transactions[j].hash != h,
            decreases n - i,
        {
            if txs[i].get_hash() == *transaction {
                proof {
                    lemma_find_tx_at(bv, h, i as int);
                }
                let t = txs[i].clone();
                return Some((t, block));
            }
            i = i + 1;
        }
        proof {
            lemma_find_tx_none(bv, h);
        }
        None
    }

    /// The number of the last indexed block, if any.
    pub fn last_number(&self) -> (r: Option<u64>)
        ensures
            r == spec_last_number(self@),
    {
        let n = self.entries.len();
        if n == 0 {
            None
        } else {
            proof {
                assert(self@.last() == self.entries@[n - 1]@);
            }
            Some(self.entries[n - 1].number)
        }
    }
}


/// The 32-byte digests of an entry, laid end to end.
pub open spec fn hashes_bytes(hs: Seq<Seq<u8>>) -> Seq<u8>
    decreases hs.len(),
{
    if hs.len() == 0 {
        Seq::empty()
    } else {
        hashes_bytes(hs.drop_last()) + hs.last()
    }
}

/// The bytes of one entry: its predecessor's offset, its block
/// number, its transaction count and the digests, all big-endian.
pub open spec fn entry_bytes(e: EntryView, prev: u64) -> Seq<u8> {
    u64_be(prev) + u64_be(e.number) + u16_be(e.hashes.len() as u16) + hashes_bytes(e.hashes)
}

/// How many bytes one entry takes.
pub open spec fn entry_size(e: EntryView) -> int {
    18 + 32 * (e.hashes.len() as int)
}

/// The byte offset of entry `i`: the header is eight bytes, and the
/// entries follow in order.
pub open spec fn offset_of(entries: Seq<EntryView>, i: int) -> int
    decreases i,
{
    if i <= 0 {
        8
    } else {
        offset_of(entries, i - 1) + entry_size(entries[i - 1])
    }
}

/// The bytes of the first `i` entries.
pub open spec fn body_upto(entries: Seq<EntryView>, i: int) -> Seq<u8>
    decreases i,
{
    if i <= 0 {
        Seq::empty()
    } else {
        body_upto(entries, i - 1) + entry_bytes(
            entries[i - 1],
            (if i - 1 == 0 {
                0
            } else {
                offset_of(entries, i - 2)
            }) as u64,
        )
    }
}

/// The persisted form of the whole index: a header holding the last
/// entry's offset (zero when empty), then the entries.
pub open spec fn spec_log_bytes(entries: Seq<EntryView>) -> Seq<u8> {
    u64_be(
        (if entries.len() == 0 {
            0
        } else {
            offset_of(entries, entries.len() - 1)
        }) as u64,
    ) + body_upto(entries, entries.len() as int)
}

/// Whether entries have the shapes the log can carry: counts that
/// fit the 16-bit field, 32-byte digests, and offsets that fit the
/// 64-bit pointers.
pub open spec fn log_shape_ok(entries: Seq<EntryView>) -> bool {
    (forall|i: int|
        0 <= i < entries.len() ==> (#[trigger] entries[i]).hashes.len() <= 0xFFFF) && (forall|
        i: int,
        j: int,
    |
        (0 <= i < entries.len() && 0 <= j < entries[i].hashes.len())
            ==> (#[trigger] entries[i].hashes[j]).len() == 32) && offset_of(
        entries,
        entries.len() as int,
    ) <= u64::MAX
}

proof fn lemma_offset_ge8(entries: Seq<EntryView>, i: int)
    requires
        0 <= i,
    ensures
        offset_of(entries, i) >= 8,
    decreases i,
{
    if i > 0 {
        lemma_offset_ge8(entries, i - 1);
        assert(entry_size(entries[i - 1]) >= 18);
    }
}

proof fn lemma_offset_monotone(entries: Seq<EntryView>, i: int, j: int)
    requires
        0 <= i <= j,
    ensures
        offset_of(entries, i) <= offset_of(entries, j),
        offset_of(entries, i) >= 8,
    decreases j - i,
{
    if i < j {
        lemma_offset_monotone(entries, i, j - 1);
        assert(entry_size(entries[j - 1]) >= 18);
    } else {
        lemma_offset_ge8(entries, i);
    }
}

impl TransactionsFile {
    /// The persisted bytes of the index, exactly as the log format
    /// lays them out.
    pub fn serialized(&self) -> (r: Vec<u8>)
        requires
            log_shape_ok(self@),
            offset_of(self@, self@.len() as int) <= usize::MAX,
        ensures
            r@ == spec_log_bytes(self@),
    {
        let ghost entries = self@;
        let n = self.entries.len();
        let mut body: Vec<u8> = Vec::new();
        let mut prev_off: u64 = 0;
        let mut i: usize = 0;
        proof {
            assert(body@ =~= body_upto(entries, 0));
        }
        while i < n
            invariant
                n == self.entries@.len(),
                i <= n,
                entries == self@,
                entries.len() == n,
                forall|j: int| 0 <= j < n ==> entries[j] == self.entries@[j]@,
                log_shape_ok(entries),
                offset_of(entries, entries.len() as int) <= usize::MAX,
                body@ == body_upto(entries, i as int),
                body@.len() + 8 == offset_of(entries, i as int),
                prev_off == (if i == 0 {
                    0
                } else {
                    offset_of(entries, i as int - 1)
                }),
            decreases n - i,
        {
            proof {
                lemma_offset_monotone(entries, i as int, entries.len() as int);
                lemma_offset_monotone(entries, i + 1, entries.len() as int);
            }
            let ghost body0 = body@;
            let entry = &self.entries[i];
            push_u64_be(&mut body, prev_off);
            push_u64_be(&mut body, entry.number);
            let count = entry.hashes.len();
            proof {
                assert(entries[i as int].hashes.len() <= 0xFFFF);
            }
            push_u16_be(&mut body, count as u16);
            let ghost hs = entries[i as int].hashes;
            let mut k: usize = 0;
            while k < count
                invariant
                    count == entry.hashes@.len(),
                    k <= count,
                    hs.len() == count,
                    forall|j: int| 0 <= j < count ==> hs[j] == entry.hashes@[j]@,
                    forall|j: int| 0 <= j < count ==> (#[trigger] hs[j]).len() == 32,
                    body@ == body0 + u64_be(prev_off) + u64_be(entry.number@) + u16_be(
                        count as u16,
                    ) + hashes_bytes(hs.take(k as int)),
                decreases count - k,
            {
                let digest = entry.hashes[k].as_bytes();
                push_bytes(&mut body, digest.as_slice());
                proof {
                    let taken = hs.take(k + 1);
                    assert(taken.drop_last() =~= hs.take(k as int));
                    assert(taken.last() == hs[k as int]);
                    assert(body@ =~= body0 + u64_be(prev_off) + u64_be(entry.number@) + u16_be(
                        count as u16,
                    ) + hashes_bytes(hs.take(k + 1)));
                }
                k = k + 1;
            }
            proof {
                assert(hs.take(count as int) =~= hs);
                assert(entry_bytes(entries[i as int], prev_off) == u64_be(prev_off) + u64_be(
                    entries[i as int].number,
                ) + u16_be(entries[i as int].hashes.len() as u16) + hashes_bytes(
                    entries[i as int].hashes,
                ));
                assert(body@ =~= body_upto(entries, i + 1));
                assert(hashes_bytes(hs).len() == 32 * hs.len()) by {
                    lemma_hashes_bytes_len(hs);
                }
                assert(body@.len() + 8 == offset_of(entries, i + 1));
            }
            prev_off = (8 + body.len() - (18 + 32 * count)) as u64;
            proof {
                assert(prev_off == offset_of(entries, i as int));
            }
            i = i + 1;
        }
        let mut data: Vec<u8> = Vec::new();
        let header: u64 = if n == 0 {
            0
        } else {
            proof {
                lemma_offset_monotone(entries, n as int - 1, n as int);
            }
            (8 + body.len() - (18 + 32 * self.entries[n - 1].hashes.len())) as u64
        };
        proof {
            if n > 0 {
                assert(hashes_bytes(entries[n - 1].hashes).len() == 32 * entries[n
                    - 1].hashes.len()) by {
                    lemma_hashes_bytes_len(entries[n - 1].hashes);
                }
                assert(body_upto(entries, n as int).len() == offset_of(entries, n as int) - 8);
                assert(header == offset_of(entries, n as int - 1));
            }
        }
        push_u64_be(&mut data, header);
        push_bytes(&mut data, body.as_slice());
        proof {
            assert(data@ =~= spec_log_bytes(entries));
        }
        data
    }

    /// The index read back from persisted bytes: the walk follows the
    /// header and the predecessor pointers, and the result is
    /// accepted only if writing it out again gives exactly the input,
    /// so whatever comes back is the index those bytes canonically
    /// persist.
    pub fn from_log_bytes(data: &Vec<u8>) -> (r: Option<TransactionsFile>)
        ensures
            r matches Some(t) ==> log_shape_ok(t@) && spec_log_bytes(t@) == data@,
    {
        let dlen: usize = data.len();
        let total: u64 = dlen as u64;
        if dlen < 8 {
            return None;
        }
        let header = crate::bytes::read_u64_be(data.as_slice(), 0);
        let mut reversed: Vec<LogEntry> = Vec::new();
        let mut off: u64 = header;
        while off != 0
            invariant
                dlen == data@.len(),
                total == dlen as u64,
                data@.len() >= 8,
                off <= u64::MAX,
                forall|i: int, j: int|
                    (0 <= i < reversed@.len() && 0 <= j < reversed@[i]@.hashes.len())
                        ==> (#[trigger] reversed@[i]@.hashes[j]).len() == 32,
                forall|i: int|
                    0 <= i < reversed@.len() ==> (#[trigger] reversed@[i]@).hashes.len() <= 0xFFFF,
            decreases off,
        {
            if off < 8 || off > total || total - off < 18 {
                return None;
            }
            proof {
                assert(off + 18 <= total);
                assert(off <= dlen as u64);
            }
            let at = off as usize;
            proof {
                assert(at + 18 <= dlen);
            }
            let prev = crate::bytes::read_u64_be(data.as_slice(), at);
            let number = crate::bytes::read_u64_be(data.as_slice(), at + 8);
            let count = crate::bytes::read_u16_be(data.as_slice(), at + 16) as usize;
            if (count as u64) * 32 > total - off - 18 {
                return None;
            }
            proof {
                assert(at + 18 + 32 * count <= dlen);
            }
            let mut hashes: Vec<crate::hash::Hash> = Vec::new();
            let mut k: usize = 0;
            while k < count
                invariant
                    k <= count,
                    count <= 0xFFFF,
                    dlen == data@.len(),
                    at + 18 + 32 * count <= dlen,
                    hashes@.len() == k,
                    forall|j: int| 0 <= j < k ==> (#[trigger] hashes@[j]@).len() == 32,
                decreases count - k,
            {
                proof {
                    assert(32 * k + 32 <= 32 * count);
                }
                let start = at + 18 + 32 * k;
                proof {
                    assert(start + 32 <= data@.len());
                }
                let mut bytes: [u8; 32] = [0; 32];
                let mut b: usize = 0;
                while b < 32
                    invariant
                        b <= 32,
                        dlen == data@.len(),
                        start + 32 <= dlen,
                    decreases 32 - b,
                {
                    bytes[b] = data[start + b];
                    b = b + 1;
                }
                hashes.push(crate::hash::Hash::from_bytes(bytes));
                k = k + 1;
            }
            reversed.push(LogEntry { number, hashes });
            if prev >= off {
                return None;
            }
            off = prev;
        }
        let mut entries: Vec<LogEntry> = Vec::new();
        while reversed.len() > 0
            invariant
                forall|i: int, j: int|
                    (0 <= i < reversed@.len() && 0 <= j < reversed@[i]@.hashes.len())
                        ==> (#[trigger] reversed@[i]@.hashes[j]).len() == 32,
                forall|i: int|
                    0 <= i < reversed@.len() ==> (#[trigger] reversed@[i]@).hashes.len() <= 0xFFFF,
                forall|i: int, j: int|
                    (0 <= i < entries@.len() && 0 <= j < entries@[i]@.hashes.len())
                        ==> (#[trigger] entries@[i]@.hashes[j]).len() == 32,
                forall|i: int|
                    0 <= i < entries@.len() ==> (#[trigger] entries@[i]@).hashes.len() <= 0xFFFF,
            decreases reversed@.len(),
        {
            let ghost rv = reversed@;
            let last = reversed.pop().unwrap();
            proof {
                assert(rv[rv.len() - 1]@ == last@);
                assert(forall|i: int|
                    0 <= i < reversed@.len() ==> reversed@[i] == rv[i]);
            }
            entries.push(last);
        }
        let candidate = TransactionsFile { entries };
        let mut size: u64 = 8;
        let n = candidate.entries.len();
        let mut i: usize = 0;
        while i < n
            invariant
                n == candidate.entries@.len(),
                i <= n,
                candidate@.len() == n,
                forall|j: int| 0 <= j < n ==> candidate@[j] == candidate.entries@[j]@,
                forall|j: int| 0 <= j < n ==> (#[trigger] candidate@[j]).hashes.len() <= 0xFFFF,
                size == offset_of(candidate@, i as int),
                size <= u64::MAX,
            decreases n - i,
        {
            let count = candidate.entries[i].hashes.len() as u64;
            let step = 18u64.checked_add(match 32u64.checked_mul(count) {
                Some(v) => v,
                None => {
                    return None;
                },
            });
            let step = match step {
                Some(v) => v,
                None => {
                    return None;
                },
            };
            size = match size.checked_add(step) {
                Some(v) => v,
                None => {
                    return None;
                },
            };
            i = i + 1;
        }
        if size > total {
            return None;
        }
        proof {
            assert(offset_of(candidate@, candidate@.len() as int) <= u64::MAX);
            assert(size <= data@.len());
            assert(log_shape_ok(candidate@));
        }
        let written = candidate.serialized();
        if crate::hash::cmp_slices(written.as_slice(), data.as_slice()) {
            Some(candidate)
        } else {
            None
        }
    }
}

proof fn lemma_hashes_bytes_len(hs: Seq<Seq<u8>>)
    requires
        forall|j: int| 0 <= j < hs.len() ==> (#[trigger] hs[j]).len() == 32,
    ensures
        hashes_bytes(hs).len() == 32 * hs.len(),
    decreases hs.len(),
{
    if hs.len() > 0 {
        assert(forall|j: int|
            0 <= j < hs.len() - 1 ==> hs.drop_last()[j] == hs[j]);
        lemma_hashes_bytes_len(hs.drop_last());
    }
}

} // verus!
