//! The shard backend: local admission of blocks and transactions.

use vstd::prelude::*;

use crate::authorities::holds_key;
use crate::block::{Block, BlockView};
use crate::blockchain::BasicBlockchain;
use crate::blocks_index::{has_hash, spec_get, tail_from};
use crate::transaction::{Transaction, TxView};
use crate::tx_index::{catch_up, entry_has, entry_of, spec_last_number, spec_lookup, EntryView};

verus! {

/// Decision and notification hooks a backend's owner may supply.
/// Nothing is assumed of what an implementation decides.
pub trait ShardHooks {
    /// Whether a block may be admitted.
    fn should_accept_block(&mut self, block: &Block) -> bool;

    /// Whether a transaction may be staged.
    fn should_accept_transaction(&mut self, transaction: &Transaction) -> bool;

    /// Called after a block was admitted.
    fn on_block(&mut self, block: &Block);

    /// Called after a transaction was staged.
    fn on_transaction(&mut self, transaction: &Transaction);
}

/// Hooks that accept everything and observe nothing.
#[derive(Debug, Clone, Copy, PartialEq, Eq, Structural)]
pub struct NoHooks;

impl ShardHooks for NoHooks {
    fn should_accept_block(&mut self, block: &Block) -> (r: bool)
        ensures
            r == true,
    {
        true
    }

    fn should_accept_transaction(&mut self, transaction: &Transaction) -> (r: bool)
        ensures
            r == true,
    {
        true
    }

    fn on_block(&mut self, block: &Block) {
    }

    fn on_transaction(&mut self, transaction: &Transaction) {
    }
}

/// Whether a pool holds no two transactions with one digest.
pub open spec fn pool_wf(pool: Seq<TxView>) -> bool {
    forall|i: int, j: int| 0 <= i < j < pool.len() ==> pool[i].hash != pool[j].hash
}

/// Whether a pool holds a transaction with this digest.
pub open spec fn pool_has(pool: Seq<TxView>, h: Seq<u8>) -> bool {
    exists|i: int| 0 <= i < pool.len() && pool[i].hash == h
}

/// Whether a pool holds exactly this transaction.
pub open spec fn pool_holds(pool: Seq<TxView>, t: TxView) -> bool {
    exists|i: int| 0 <= i < pool.len() && pool[i] == t
}

/// A backend that admits blocks into the chain and stages
/// not-yet-stabilized transactions in memory.
#[derive(Debug)]
pub struct BasicShardBackend<H> {
    pub blockchain: BasicBlockchain,
    pub staged: Vec<Transaction>,
    pub hooks: H,
}

impl<H: ShardHooks> BasicShardBackend<H> {
    /// The staged transactions, as a model.
    pub open spec fn staged_view(&self) -> Seq<TxView> {
        Seq::new(self.staged@.len(), |i: int| self.staged@[i]@)
    }

    /// The backend's own pool never holds two transactions with one
    /// digest.
    pub open spec fn wf(&self) -> bool {
        pool_wf(self.staged_view())
    }

    /// A backend over a chain, with the given hooks and an empty pool.
    pub fn new(blockchain: BasicBlockchain, hooks: H) -> (r: BasicShardBackend<H>)
        ensures
            r.blockchain == blockchain,
            r.staged_view().len() == 0,
            r.wf(),
    {
        let r = BasicShardBackend { blockchain, staged: Vec::new(), hooks };
        proof {
            assert(r.staged_view() =~= Seq::<TxView>::empty());
        }
        r
    }

    /// The head block of the chain, if any.
    pub fn get_head_block(&self) -> (r: Option<Block>)
        ensures
            match r {
                Some(b) => (exists|i: int|
                    crate::blocks_index::is_head_idx(self.blockchain.blocks@, i)
                        && self.blockchain.blocks@[i] == b@) && crate::blocks_index::stores(
                    self.blockchain.blocks@,
                    b@,
                ),
                None => self.blockchain.blocks@.len() == 0,
            },
    {
        let r = self.blockchain.blocks.get_head_block();
        proof {
            match &r {
                Some(b) => {
                    let i = choose|i: int|
                        crate::blocks_index::is_head_idx(self.blockchain.blocks@, i)
                            && self.blockchain.blocks@[i] == b@;
                    assert(crate::blocks_index::stores(self.blockchain.blocks@, b@));
                },
                None => {},
            }
        }
        r
    }

    /// The tail block of the chain, if any.
    pub fn get_tail_block(&self) -> (r: Option<Block>)
        ensures
            match r {
                Some(t) => (self.blockchain.blocks.spec_head() matches Some(h) && t@ == tail_from(
                    self.blockchain.blocks@,
                    h,
                )) && crate::blocks_index::stores(self.blockchain.blocks@, t@),
                None => self.blockchain.blocks@.len() == 0,
            },
    {
        let r = self.blockchain.blocks.get_tail_block();
        proof {
            match &r {
                Some(t) => {
                    let bs = self.blockchain.blocks@;
                    match self.blockchain.blocks.spec_head() {
                        Some(h) => {
                            let i = choose|i: int| crate::blocks_index::is_head_idx(bs, i);
                            assert(crate::blocks_index::stores(bs, h)) by {
                                assert(bs[i] == h);
                            }
                            crate::blocks_index::lemma_tail_from_stores(bs, h);
                        },
                        None => {},
                    }
                },
                None => {},
            }
        }
        r
    }

    /// The stored block with this number, if any.
    pub fn get_block(&self, number: u64) -> (r: Option<Block>)
        ensures
            match r {
                Some(b) => spec_get(self.blockchain.blocks@, number as int) == Some(b@)
                    && crate::blocks_index::stores(self.blockchain.blocks@, b@),
                None => spec_get(self.blockchain.blocks@, number as int) is None,
            },
    {
        let r = self.blockchain.blocks.get_block(number);
        proof {
            crate::blocks_index::lemma_spec_get_stores(self.blockchain.blocks@, number as int);
        }
        r
    }

    /// The stored block after this one, if any.
    pub fn get_next_block(&self, block: &Block) -> (r: Option<Block>)
        ensures
            match r {
                Some(b) => spec_get(self.blockchain.blocks@, block@.number + 1) == Some(b@)
                    && crate::blocks_index::stores(self.blockchain.blocks@, b@),
                None => spec_get(self.blockchain.blocks@, block@.number + 1) is None,
            },
    {
        let r = self.blockchain.blocks.get_next_block(block);
        proof {
            crate::blocks_index::lemma_spec_get_stores(
                self.blockchain.blocks@,
                block@.number + 1,
            );
        }
        r
    }

    /// The digests of the staged transactions, in pool order.
    pub fn get_staged_transactions(&self) -> (r: Vec<crate::hash::Hash>)
        ensures
            r@.len() == self.staged_view().len(),
            forall|i: int| 0 <= i < r@.len() ==> r@[i]@ == self.staged_view()[i].hash,
    {
        let mut out: Vec<crate::hash::Hash> = Vec::new();
        let n = self.staged.len();
        let mut i: usize = 0;
        while i < n
            invariant
                n == self.staged@.len(),
                i <= n,
                self.staged_view().len() == n,
                forall|j: int| 0 <= j < n ==> self.staged_view()[j] == self.staged@[j]@,
                out@.len() == i,
                forall|j: int| 0 <= j < i ==> out@[j]@ == self.staged_view()[j].hash,
            decreases n - i,
        {
            out.push(self.staged[i].get_hash());
            i = i + 1;
        }
        out
    }

    /// The staged transaction with this digest, if any.
    pub fn get_staged_transaction(&self, hash: &crate::hash::Hash) -> (r: Option<Transaction>)
        ensures
            match r {
                Some(t) => pool_has(self.staged_view(), hash@) && t@.hash == hash@ && pool_holds(
                    self.staged_view(),
                    t@,
                ),
                None => !pool_has(self.staged_view(), hash@),
            },
    {
        let n = self.staged.len();
        let mut i: usize = 0;
        while i < n
            invariant
                n == self.staged@.len(),
                i <= n,
                self.staged_view().len() == n,
                forall|j: int| 0 <= j < n ==> self.staged_view()[j] == self.staged@[j]@,
                forall|j: int| 0 <= j < i ==> self.staged_view()[j].hash != hash@,
            decreases n - i,
        {
            if self.staged[i].get_hash() == *hash {
                let found = self.staged[i].clone();
                proof {
                    assert(self.staged_view()[i as int].hash == hash@);
                    assert(self.staged_view()[i as int] == found@);
                }
                return Some(found);
            }
            i = i + 1;
        }
        None
    }

    /// The stabilized transaction with this digest and its block, if
    /// the indices agree on one: after the index catches up with the
    /// block store, the looked-up block's first transaction with this
    /// digest comes back with its block.
    pub fn get_transaction(&mut self, hash: &crate::hash::Hash) -> (r: Option<
        (Transaction, Block),
    >)
        ensures
            final(self).blockchain.blocks == old(self).blockchain.blocks,
            final(self).blockchain.authorities == old(self).blockchain.authorities,
            final(self).staged_view() == old(self).staged_view(),
            final(self).wf() == old(self).wf(),
            final(self).blockchain.transactions@ == catch_up(
                old(self).blockchain.blocks@,
                old(self).blockchain.transactions@,
            ),
            match spec_lookup(
                catch_up(old(self).blockchain.blocks@, old(self).blockchain.transactions@),
                hash@,
            ) {
                None => r is None,
                Some(num) => match spec_get(old(self).blockchain.blocks@, num as int) {
                    None => r is None,
                    Some(bv) => match crate::tx_index::find_tx(bv, hash@) {
                        Some(tv) => r matches Some(p) && p.0@ == tv && p.1@ == bv,
                        None => r is None,
                    },
                },
            },
    {
        let chain = &mut self.blockchain;
        chain.transactions.get_transaction(&chain.blocks, hash)
    }

    /// Admit a block into the chain, with nothing left to anyone's
    /// discretion: refused exactly when its digest is already stored;
    /// otherwise the store grows by it, the transactions index catches
    /// up, and the pool afterwards holds exactly the previously staged
    /// transactions that are still unindexed.
    pub fn admit_block(&mut self, block: Block) -> (r: bool)
        requires
            old(self).wf(),
        ensures
            final(self).wf(),
            admit_block_post(*old(self), *final(self), block, r),
    {
        let inserted = self.blockchain.blocks.insert_block(block.clone());
        if !inserted {
            return false;
        }
        let chain = &mut self.blockchain;
        chain.transactions.index_if_needed(&chain.blocks);
        let ghost pool_before = self.staged_view();
        let ghost entries = self.blockchain.transactions@;
        let mut kept: Vec<Transaction> = Vec::new();
        let ghost mut src: Seq<int> = Seq::empty();
        let n = self.staged.len();
        let mut i: usize = 0;
        while i < n
            invariant
                n == self.staged@.len(),
                i <= n,
                pool_before == self.staged_view(),
                pool_before.len() == n,
                forall|j: int| 0 <= j < n ==> pool_before[j] == self.staged@[j]@,
                entries == self.blockchain.transactions@,
                pool_wf(pool_before),
                src.len() == kept@.len(),
                forall|j: int| 0 <= j < src.len() ==> 0 <= #[trigger] src[j] < i,
                forall|j1: int, j2: int| 0 <= j1 < j2 < src.len() ==> src[j1] < src[j2],
                forall|j: int|
                    0 <= j < kept@.len() ==> #[trigger] kept@[j]@ == pool_before[src[j]],
                forall|j: int|
                    0 <= j < kept@.len() ==> spec_lookup(entries, #[trigger] kept@[j]@.hash)
                        is None,
                forall|j: int|
                    (0 <= j < i && spec_lookup(entries, (#[trigger] pool_before[j]).hash)
                        is None) ==> pool_holds(
                        Seq::new(kept@.len(), |t: int| kept@[t]@),
                        pool_before[j],
                    ),
            decreases n - i,
        {
            let ghost kept_before = Seq::new(kept@.len(), |t: int| kept@[t]@);
            let h = self.staged[i].get_hash();
            if !self.blockchain.transactions.has_indexed(&h) {
                let ghost kn = kept@.len() as int;
                kept.push(self.staged[i].clone());
                proof {
                    src = src.push(i as int);
                    assert(kept@[kn]@ == pool_before[i as int]);
                    let kept_now = Seq::new(kept@.len(), |t: int| kept@[t]@);
                    assert(kept_now =~= kept_before.push(pool_before[i as int]));
                    assert forall|j: int|
                        (0 <= j < i + 1 && spec_lookup(
                            entries,
                            (#[trigger] pool_before[j]).hash,
                        ) is None) implies pool_holds(kept_now, pool_before[j]) by {
                        if j == i {
                            assert(kept_now[kn] == pool_before[i as int]);
                        } else {
                            let w = choose|w: int|
                                0 <= w < kept_before.len() && kept_before[w] == pool_before[j];
                            assert(kept_now[w] == pool_before[j]);
                        }
                    }
                }
            } else {
                proof {
                    assert forall|j: int|
                        (0 <= j < i + 1 && spec_lookup(
                            entries,
                            (#[trigger] pool_before[j]).hash,
                        ) is None) implies pool_holds(
                        Seq::new(kept@.len(), |t: int| kept@[t]@),
                        pool_before[j],
                    ) by {
                        assert(j != i);
                    }
                }
            }
            i = i + 1;
        }
        proof {
            assert forall|j1: int, j2: int|
                0 <= j1 < j2 < kept@.len() implies kept@[j1]@.hash != kept@[j2]@.hash by {
                assert(kept@[j1]@ == pool_before[src[j1]]);
                assert(kept@[j2]@ == pool_before[src[j2]]);
            }
        }
        self.staged = kept;
        proof {
            assert(self.staged_view() =~= Seq::new(
                self.staged@.len(),
                |j: int| self.staged@[j]@,
            ));
            assert forall|j: int|
                0 <= j < self.staged_view().len() implies pool_holds(
                pool_before,
                #[trigger] self.staged_view()[j],
            ) && spec_lookup(entries, self.staged_view()[j].hash) is None by {
                assert(self.staged_view()[j] == self.staged@[j]@);
                assert(self.staged_view()[j] == pool_before[src[j]]);
            }
        }
        true
    }

    /// Stage a transaction in the pool, with nothing left to anyone's
    /// discretion: refused exactly when its digest is already staged;
    /// otherwise the pool grows by it and nothing else changes.
    pub fn stage_transaction(&mut self, transaction: Transaction) -> (r: bool)
        requires
            old(self).wf(),
        ensures
            final(self).wf(),
            stage_transaction_post(*old(self), *final(self), transaction, r),
    {
        let ghost pool_before = self.staged_view();
        let h = transaction.get_hash();
        let already = match self.get_staged_transaction(&h) {
            Some(_) => true,
            None => false,
        };
        if already {
            return false;
        }
        let ghost gt = transaction@;
        self.staged.push(transaction);
        proof {
            assert(self.staged_view() =~= pool_before.push(gt));
            assert forall|i: int, j: int|
                0 <= i < j < self.staged_view().len() implies self.staged_view()[i].hash
                != self.staged_view()[j].hash by {
                if j == pool_before.len() as int {
                    assert(!pool_has(pool_before, gt.hash));
                    assert(self.staged_view()[i] == pool_before[i]);
                }
            }
        }
        true
    }

    /// Admit a block.  A block whose validator is no authority is
    /// refused with nothing changed and the decision hook never asked;
    /// otherwise the hook decides, a refusal changes nothing, and an
    /// acceptance runs the admission exactly as `admit_block` states
    /// it: success owed on a fresh digest, the index caught up, and
    /// the pool holding exactly the still-unindexed staged
    /// transactions.
    pub fn handle_block(&mut self, block: Block) -> (r: bool)
        requires
            old(self).wf(),
        ensures
            final(self).wf(),
            final(self).blockchain.authorities == old(self).blockchain.authorities,
            !holds_key(old(self).blockchain.authorities@, block@.validator) ==> r == false
                && final(self).blockchain == old(self).blockchain && final(self).staged_view()
                == old(self).staged_view(),
            holds_key(old(self).blockchain.authorities@, block@.validator) ==> admit_block_post(
                *old(self),
                *final(self),
                block,
                r,
            ) || (r == false && final(self).blockchain == old(self).blockchain && final(self).staged_view() == old(self).staged_view()),
            r == true ==> holds_key(old(self).blockchain.authorities@, block@.validator)
                && admit_block_post(*old(self), *final(self), block, true),
            r == false ==> final(self).blockchain.blocks@ == old(self).blockchain.blocks@ && final(self).staged_view() == old(self).staged_view(),
    {
        if !self.blockchain.authorities.is_authority(block.validator()) {
            return false;
        }
        let accepted = self.hooks.should_accept_block(&block);
        if !accepted {
            return false;
        }
        let admitted = self.admit_block(block.clone());
        if admitted {
            self.hooks.on_block(&block);
        }
        admitted
    }

    /// Stage a transaction.  A stabilized transaction is refused with
    /// the pool unchanged and the decision hook never asked; otherwise
    /// the hook decides, a refusal changes nothing more, and an
    /// acceptance stages exactly as `stage_transaction` states it:
    /// success owed on a digest not already pooled.
    pub fn handle_transaction(&mut self, transaction: Transaction) -> (r: bool)
        requires
            old(self).wf(),
        ensures
            final(self).wf(),
            final(self).blockchain.blocks == old(self).blockchain.blocks,
            final(self).blockchain.authorities == old(self).blockchain.authorities,
            final(self).blockchain.transactions@ == catch_up(
                old(self).blockchain.blocks@,
                old(self).blockchain.transactions@,
            ),
            spec_lookup(
                catch_up(old(self).blockchain.blocks@, old(self).blockchain.transactions@),
                transaction@.hash,
            ) is Some ==> r == false && final(self).staged_view() == old(self).staged_view(),
            spec_lookup(
                catch_up(old(self).blockchain.blocks@, old(self).blockchain.transactions@),
                transaction@.hash,
            ) is None ==> (r == !pool_has(old(self).staged_view(), transaction@.hash) && (r
                ==> final(self).staged_view() == old(self).staged_view().push(transaction@)) && (!r
                ==> final(self).staged_view() == old(self).staged_view())) || (r == false && final(self).staged_view() == old(self).staged_view()),
            r == true ==> final(self).staged_view() == old(self).staged_view().push(transaction@)
                && !pool_has(old(self).staged_view(), transaction@.hash),
            r == false ==> final(self).staged_view() == old(self).staged_view(),
    {
        let h = transaction.get_hash();
        let chain = &mut self.blockchain;
        let stabilized = chain.transactions.has_transaction(&chain.blocks, &h);
        if stabilized {
            return false;
        }
        let accepted = self.hooks.should_accept_transaction(&transaction);
        if !accepted {
            return false;
        }
        let staged = self.stage_transaction(transaction.clone());
        if staged {
            self.hooks.on_transaction(&transaction);
        }
        staged
    }
}

/// What admitting a block does to a backend: refused exactly when the
/// digest is already stored; otherwise the block joins the store, the
/// transactions index catches up past it, and the staged pool
/// afterwards holds exactly the previously staged transactions whose
/// digests the caught-up index does not list.
pub open spec fn admit_block_post<H: ShardHooks>(
    pre: BasicShardBackend<H>,
    post: BasicShardBackend<H>,
    block: Block,
    r: bool,
) -> bool {
    &&& r == !has_hash(pre.blockchain.blocks@, block@.hash)
    &&& post.blockchain.authorities == pre.blockchain.authorities
    &&& (r ==> {
        &&& post.blockchain.blocks@ == pre.blockchain.blocks@.push(block@)
        &&& post.blockchain.transactions@ == catch_up(
            post.blockchain.blocks@,
            pre.blockchain.transactions@,
        )
        &&& forall|i: int|
            0 <= i < post.staged_view().len() ==> pool_holds(
                pre.staged_view(),
                #[trigger] post.staged_view()[i],
            ) && spec_lookup(post.blockchain.transactions@, post.staged_view()[i].hash) is None
        &&& forall|i: int|
            (0 <= i < pre.staged_view().len() && spec_lookup(
                post.blockchain.transactions@,
                (#[trigger] pre.staged_view()[i]).hash,
            ) is None) ==> pool_holds(post.staged_view(), pre.staged_view()[i])
    })
    &&& (!r ==> post.blockchain.blocks@ == pre.blockchain.blocks@
        && post.blockchain.transactions == pre.blockchain.transactions && post.staged_view()
        == pre.staged_view())
}

/// What staging a transaction does to a backend: refused exactly when
/// its digest is already pooled; otherwise the pool grows by it and
/// nothing else changes.
pub open spec fn stage_transaction_post<H: ShardHooks>(
    pre: BasicShardBackend<H>,
    post: BasicShardBackend<H>,
    transaction: Transaction,
    r: bool,
) -> bool {
    &&& r == !pool_has(pre.staged_view(), transaction@.hash)
    &&& post.blockchain == pre.blockchain
    &&& (r ==> post.staged_view() == pre.staged_view().push(transaction@))
    &&& (!r ==> post.staged_view() == pre.staged_view())
}


/// Everything a block stabilized is indexed once the index has caught
/// up past it, so a pool cleared against that index holds none of the
/// block's transactions.
pub proof fn lemma_stabilization_removes_from_pool(
    bs: Seq<BlockView>,
    entries0: Seq<EntryView>,
    pool: Seq<TxView>,
    b: BlockView,
    m: u64,
    k: int,
)
    requires
        spec_last_number(entries0) == Some(m),
        m < u64::MAX,
        spec_get(bs, m as int) is Some,
        spec_get(bs, m as int + 1) == Some(b),
        forall|i: int|
            0 <= i < pool.len() ==> spec_lookup(catch_up(bs, entries0), #[trigger] pool[i].hash)
                is None,
        0 <= k < b.transactions.len(),
    ensures
        forall|i: int| 0 <= i < pool.len() ==> pool[i].hash != b.transactions[k].hash,
{
    let entries = catch_up(bs, entries0);
    let e = entry_of(b);
    lemma_indexed_run_first(bs, m, b);
    assert(entries == entries0 + indexed_run_local(bs, m));
    assert(entries[entries0.len() as int] == e);
    assert(entry_has(e, b.transactions[k].hash)) by {
        assert(e.hashes[k] == b.transactions[k].hash);
    }
    lemma_lookup_finds(entries, entries0.len() as int, b.transactions[k].hash);
    assert forall|i: int| 0 <= i < pool.len() implies pool[i].hash != b.transactions[k].hash by {
        if pool[i].hash == b.transactions[k].hash {
            assert(spec_lookup(entries, pool[i].hash) is Some);
        }
    }
}

/// The entries the index walk appends, named here for the lemma
/// above.
pub open spec fn indexed_run_local(bs: Seq<BlockView>, n: u64) -> Seq<EntryView> {
    crate::tx_index::indexed_run(bs, n)
}

proof fn lemma_indexed_run_first(bs: Seq<BlockView>, m: u64, b: BlockView)
    requires
        m < u64::MAX,
        spec_get(bs, m as int + 1) == Some(b),
    ensures
        indexed_run_local(bs, m).len() >= 1,
        indexed_run_local(bs, m)[0] == entry_of(b),
{
    assert(crate::tx_index::indexed_run(bs, m) == seq![entry_of(b)]
        + crate::tx_index::indexed_run(bs, (m + 1) as u64));
}

/// An entry holding a digest makes the lookup find one.
proof fn lemma_lookup_finds(entries: Seq<EntryView>, i: int, h: Seq<u8>)
    requires
        0 <= i < entries.len(),
        entry_has(entries[i], h),
    ensures
        spec_lookup(entries, h) is Some,
    decreases entries.len(),
{
    if entries.len() > 0 {
        if entry_has(entries.last(), h) {
        } else {
            assert(i < entries.len() - 1);
            assert(entries.drop_last()[i] == entries[i]);
            lemma_lookup_finds(entries.drop_last(), i, h);
        }
    }
}

} // verus!
