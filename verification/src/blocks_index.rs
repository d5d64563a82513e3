//! The ordered block store, laid out in fixed-size chunks.

use vstd::prelude::*;

use crate::block::{Block, BlockView};

verus! {

/// Whether the store holds a block with this digest.
pub open spec fn has_hash(s: Seq<BlockView>, h: Seq<u8>) -> bool {
    exists|i: int| 0 <= i < s.len() && s[i].hash == h
}

/// Whether the store holds a block with this number.
pub open spec fn has_number(s: Seq<BlockView>, n: int) -> bool {
    exists|i: int| 0 <= i < s.len() && s[i].number == n
}

/// The position of the first stored block with this number.
pub open spec fn first_with_number(s: Seq<BlockView>, n: int) -> int
    decreases s.len(),
{
    if s.len() == 0 {
        0
    } else if s.first().number == n {
        0
    } else {
        1 + first_with_number(s.drop_first(), n)
    }
}

/// The block a lookup by number finds: the first stored one with that
/// number, if any.
pub open spec fn spec_get(s: Seq<BlockView>, n: int) -> Option<BlockView> {
    if has_number(s, n) {
        Some(s[first_with_number(s, n)])
    } else {
        None
    }
}

/// What inserting a block does: refused when a block with the same
/// digest is already stored, appended otherwise.
pub open spec fn spec_insert(s: Seq<BlockView>, b: BlockView) -> (bool, Seq<BlockView>) {
    if has_hash(s, b.hash) {
        (false, s)
    } else {
        (true, s.push(b))
    }
}

/// Whether position `i` holds the head block: a stored block with the
/// least number, the first such in storage order.
pub open spec fn is_head_idx(s: Seq<BlockView>, i: int) -> bool {
    0 <= i < s.len() && (forall|j: int| 0 <= j < s.len() ==> s[j].number >= s[i].number) && (forall|
        j: int,
    |
        0 <= j < i ==> s[j].number > s[i].number)
}

/// Whether position `i` holds the walk's next candidate after `cur`:
/// a stored block with the least number above `cur`'s, the first such
/// in storage order.
pub open spec fn is_next_idx(s: Seq<BlockView>, cur: BlockView, i: int) -> bool {
    0 <= i < s.len() && s[i].number > cur.number && (forall|j: int|
        (0 <= j < s.len() && s[j].number > cur.number) ==> s[j].number >= s[i].number) && (forall|
        j: int,
    |
        0 <= j < i ==> s[j].number != s[i].number)
}

/// At most one position is the walk's next candidate.
pub proof fn lemma_next_idx_unique(s: Seq<BlockView>, cur: BlockView, i: int, j: int)
    requires
        is_next_idx(s, cur, i),
        is_next_idx(s, cur, j),
    ensures
        i == j,
{
    assert(s[i].number == s[j].number);
}

/// Where the tail walk from `cur` ends: while the next candidate
/// links back to the current block, advance to it.
pub open spec fn tail_from(s: Seq<BlockView>, cur: BlockView) -> BlockView
    decreases u64::MAX - cur.number,
{
    if cur.number < u64::MAX && (exists|i: int| is_next_idx(s, cur, i)) {
        let i = choose|i: int| is_next_idx(s, cur, i);
        if s[i].previous_block == Some(cur.hash) {
            tail_from(s, s[i])
        } else {
            cur
        }
    } else {
        cur
    }
}

/// A block store that groups blocks into fixed-size chunks of
/// consecutive numbers, one chunk per persisted file.
#[derive(Debug)]
pub struct ChunkedBlocksIndex {
    chunk_size: u64,
    blocks: Vec<Block>,
}

impl View for ChunkedBlocksIndex {
    type V = Seq<BlockView>;

    closed spec fn view(&self) -> Seq<BlockView> {
        Seq::new(self.blocks@.len(), |i: int| self.blocks@[i]@)
    }
}

impl ChunkedBlocksIndex {
    /// How many blocks share one chunk.
    pub closed spec fn spec_chunk_size(&self) -> u64 {
        self.chunk_size
    }

    /// An empty store with the given chunk size.
    pub fn open(chunk_size: u64) -> (r: ChunkedBlocksIndex)
        requires
            chunk_size > 0,
        ensures
            r@.len() == 0,
            r.spec_chunk_size() == chunk_size,
    {
        let r = ChunkedBlocksIndex { chunk_size, blocks: Vec::new() };
        proof {
            assert(r@ =~= Seq::<BlockView>::empty());
        }
        r
    }

    /// The chunk that holds blocks with this number.
    pub fn chunk_of(&self, number: u64) -> (r: u64)
        requires
            self.spec_chunk_size() > 0,
        ensures
            r == number / self.spec_chunk_size(),
    {
        number / self.chunk_size
    }

    /// The first stored block with this number, if any.
    pub fn get_block(&self, number: u64) -> (r: Option<Block>)
        ensures
            match r {
                Some(b) => spec_get(self@, number as int) == Some(b@),
                None => spec_get(self@, number as int) is None,
            },
    {
        let ghost gs = self@;
        let n = self.blocks.len();
        let mut i: usize = 0;
        while i < n
            invariant
                n == self.blocks@.len(),
                i <= n,
                gs == self@,
                gs.len() == n,
                forall|j: int| 0 <= j < n ==> gs[j] == self.blocks@[j]@,
                forall|j: int| 0 <= j < i ==> gs[j].number != number,
            decreases n - i,
        {
            if self.blocks[i].number() == number {
                proof {
                    lemma_first_with_number_at(gs, number as int, i as int);
                }
                return Some(self.blocks[i].clone());
            }
            i = i + 1;
        }
        proof {
            assert(!has_number(gs, number as int));
        }
        None
    }

    /// Insert a block: refused exactly when one with the same digest
    /// is already stored; otherwise the store grows by this block and
    /// nothing else changes.
    pub fn insert_block(&mut self, block: Block) -> (r: bool)
        ensures
            r == spec_insert(old(self)@, block@).0,
            final(self)@ == spec_insert(old(self)@, block@).1,
            final(self).spec_chunk_size() == old(self).spec_chunk_size(),
    {
        let ghost gs = self@;
        let ghost bh = block@.hash;
        let digest = block.get_hash();
        let n = self.blocks.len();
        let mut i: usize = 0;
        while i < n
            invariant
                n == self.blocks@.len(),
                i <= n,
                gs == self@,
                gs.len() == n,
                bh == block@.hash,
                forall|j: int| 0 <= j < n ==> gs[j] == self.blocks@[j]@,
                forall|j: int| 0 <= j < i ==> gs[j].hash != bh,
                digest@ == bh,
            decreases n - i,
        {
            if self.blocks[i].get_hash() == digest {
                proof {
                    assert(gs[i as int].hash == bh);
                }
                return false;
            }
            i = i + 1;
        }
        proof {
            assert(!has_hash(gs, bh));
        }
        let ghost gb = block@;
        self.blocks.push(block);
        proof {
            assert(self@ =~= gs.push(gb));
        }
        true
    }

    /// The stored block after the given one by number, if any.
    pub fn get_next_block(&self, block: &Block) -> (r: Option<Block>)
        ensures
            match r {
                Some(b) => spec_get(self@, block@.number + 1) == Some(b@),
                None => spec_get(self@, block@.number + 1) is None,
            },
    {
        if block.number() == u64::MAX {
            proof {
                assert forall|i: int| 0 <= i < self@.len() implies self@[i].number != block@.number
                    + 1 by {
                    assert(self@[i].number <= u64::MAX);
                }
                assert(!has_number(self@, block@.number + 1));
            }
            return None;
        }
        self.get_block(block.number() + 1)
    }

    /// The head block: the first stored block with the least number.
    pub fn get_head_block(&self) -> (r: Option<Block>)
        ensures
            match r {
                Some(b) => exists|i: int| is_head_idx(self@, i) && self@[i] == b@,
                None => self@.len() == 0,
            },
    {
        let ghost gs = self@;
        let n = self.blocks.len();
        if n == 0 {
            return None;
        }
        let mut best: usize = 0;
        let mut i: usize = 1;
        while i < n
            invariant
                n == self.blocks@.len(),
                gs == self@,
                gs.len() == n,
                forall|j: int| 0 <= j < n ==> gs[j] == self.blocks@[j]@,
                best < i <= n,
                forall|j: int| 0 <= j < i ==> gs[j].number >= gs[best as int].number,
                forall|j: int| 0 <= j < best ==> gs[j].number > gs[best as int].number,
            decreases n - i,
        {
            if self.blocks[i].number() < self.blocks[best].number() {
                best = i;
            }
            i = i + 1;
        }
        proof {
            assert(is_head_idx(gs, best as int));
        }
        Some(self.blocks[best].clone())
    }

    /// Whether the store holds nothing.
    pub fn is_empty(&self) -> (r: bool)
        ensures
            r == (self@.len() == 0),
    {
        self.blocks.len() == 0
    }

    /// Whether the head block references an earlier block that this
    /// store does not hold, so that the chain cannot be validated from
    /// its root.
    pub fn is_truncated(&self) -> (r: bool)
        ensures
            match self.spec_head() {
                Some(h) => r == (h.previous_block is Some),
                None => r == false,
            },
    {
        match self.get_head_block() {
            Some(h) => {
                proof {
                    let i = choose|i: int| is_head_idx(self@, i) && self@[i] == h@;
                    let k = choose|k: int| is_head_idx(self@, k);
                    lemma_head_idx_unique(self@, i, k);
                }
                !h.is_root()
            },
            None => false,
        }
    }

    /// The head block, if any, as the store's model picks it.
    pub open spec fn spec_head(&self) -> Option<BlockView> {
        spec_head_of(self@)
    }

    /// The tail block: the end of the unbroken chain of
    /// previous-block links that starts at the head.
    pub fn get_tail_block(&self) -> (r: Option<Block>)
        ensures
            match r {
                Some(t) => self.spec_head() matches Some(h) && t@ == tail_from(self@, h),
                None => self@.len() == 0,
            },
    {
        let ghost gs = self@;
        let head = match self.get_head_block() {
            Some(h) => h,
            None => {
                return None;
            },
        };
        proof {
            let i = choose|i: int| is_head_idx(gs, i) && gs[i] == head@;
            let k = choose|k: int| is_head_idx(gs, k);
            lemma_head_idx_unique(gs, i, k);
            assert(self.spec_head() == Some(head@));
        }
        let mut cur = head;
        let ghost gh = cur@;
        loop
            invariant
                gs == self@,
                forall|j: int| 0 <= j < gs.len() ==> gs[j] == self.blocks@[j]@,
                gs.len() == self.blocks@.len(),
                self.spec_head() == Some(gh),
                tail_from(gs, cur@) == tail_from(gs, gh),
            decreases u64::MAX - cur@.number,
        {
            let n = self.blocks.len();
            let mut cand: usize = n;
            let mut i: usize = 0;
            while i < n
                invariant
                    n == self.blocks@.len(),
                    i <= n,
                    gs == self@,
                    gs.len() == n,
                    forall|j: int| 0 <= j < n ==> gs[j] == self.blocks@[j]@,
                    cand <= n,
                    cand == n ==> (forall|j: int| 0 <= j < i ==> gs[j].number <= cur@.number),
                    cand < n ==> cand < i && gs[cand as int].number > cur@.number && (forall|
                        j: int,
                    |
                        (0 <= j < i && gs[j].number > cur@.number) ==> gs[j].number
                            >= gs[cand as int].number) && (forall|j: int|
                        0 <= j < cand ==> gs[j].number != gs[cand as int].number),
                decreases n - i,
            {
                if self.blocks[i].number() > cur.number() {
                    if cand == n {
                        cand = i;
                    } else if self.blocks[i].number() < self.blocks[cand].number() {
                        cand = i;
                    }
                }
                i = i + 1;
            }
            if cand == n {
                proof {
                    assert(forall|j: int| 0 <= j < gs.len() ==> gs[j].number <= cur@.number);
                    assert(!(exists|j: int| is_next_idx(gs, cur@, j)));
                }
                return Some(cur);
            }
            proof {
                assert(is_next_idx(gs, cur@, cand as int));
            }
            let connects = match self.blocks[cand].previous_block() {
                Some(p) => p == cur.get_hash(),
                None => false,
            };
            proof {
                let j = choose|j: int| is_next_idx(gs, cur@, j);
                lemma_next_idx_unique(gs, cur@, j, cand as int);
                assert(cur@.number < u64::MAX) by {
                    assert(gs[cand as int].number > cur@.number);
                }
            }
            if !connects {
                proof {
                    assert(tail_from(gs, cur@) == cur@);
                }
                return Some(cur);
            }
            proof {
                assert(gs[cand as int].previous_block == Some(cur@.hash));
                assert(tail_from(gs, cur@) == tail_from(gs, gs[cand as int]));
            }
            cur = self.blocks[cand].clone();
        }
    }

    /// The stored blocks that live in chunk `k`, in storage order.
    pub fn chunk_blocks(&self, k: u64) -> (r: Vec<Block>)
        requires
            self.spec_chunk_size() > 0,
        ensures
            forall|j: int|
                0 <= j < r@.len() ==> #[trigger] r@[j]@.number / self.spec_chunk_size() == k,
    {
        let mut out: Vec<Block> = Vec::new();
        let n = self.blocks.len();
        let mut i: usize = 0;
        while i < n
            invariant
                n == self.blocks@.len(),
                i <= n,
                self.spec_chunk_size() > 0,
                forall|j: int| 0 <= j < n ==> self@[j] == self.blocks@[j]@,
                self@.len() == n,
                forall|j: int|
                    0 <= j < out@.len() ==> #[trigger] out@[j]@.number / self.spec_chunk_size()
                        == k,
            decreases n - i,
        {
            if self.blocks[i].number() / self.chunk_size == k {
                out.push(self.blocks[i].clone());
            }
            i = i + 1;
        }
        out
    }
}

/// The head block of a store, if any, as the model picks it.
pub open spec fn spec_head_of(s: Seq<BlockView>) -> Option<BlockView> {
    if exists|i: int| is_head_idx(s, i) {
        Some(s[choose|i: int| is_head_idx(s, i)])
    } else {
        None
    }
}

/// What a lookup by number returns carries that number.
pub proof fn lemma_spec_get_number(s: Seq<BlockView>, n: int)
    requires
        has_number(s, n),
    ensures
        0 <= first_with_number(s, n) < s.len(),
        s[first_with_number(s, n)].number == n,
        spec_get(s, n) matches Some(b) && b.number == n,
    decreases s.len(),
{
    if s.len() == 0 {
    } else if s.first().number == n {
    } else {
        assert(has_number(s.drop_first(), n)) by {
            let i = choose|i: int| 0 <= i < s.len() && s[i].number == n;
            assert(s.drop_first()[i - 1] == s[i]);
        }
        lemma_spec_get_number(s.drop_first(), n);
        assert(s[1 + first_with_number(s.drop_first(), n)] == s.drop_first()[first_with_number(
            s.drop_first(),
            n,
        )]);
    }
}

/// Whether the store holds exactly this block.
pub open spec fn stores(s: Seq<BlockView>, b: BlockView) -> bool {
    exists|i: int| 0 <= i < s.len() && s[i] == b
}

/// What a lookup by number finds is stored.
pub proof fn lemma_spec_get_stores(s: Seq<BlockView>, n: int)
    ensures
        match spec_get(s, n) {
            Some(b) => stores(s, b) && b.number == n,
            None => true,
        },
{
    if has_number(s, n) {
        lemma_spec_get_number(s, n);
        assert(s[first_with_number(s, n)] == spec_get(s, n)->Some_0);
    }
}

/// Where the tail walk ends is stored, wherever it starts from.
pub proof fn lemma_tail_from_stores(s: Seq<BlockView>, cur: BlockView)
    requires
        stores(s, cur),
    ensures
        stores(s, tail_from(s, cur)),
    decreases u64::MAX - cur.number,
{
    if cur.number < u64::MAX && (exists|i: int| is_next_idx(s, cur, i)) {
        let i = choose|i: int| is_next_idx(s, cur, i);
        if s[i].previous_block == Some(cur.hash) {
            assert(stores(s, s[i]));
            lemma_tail_from_stores(s, s[i]);
        }
    }
}

/// At most one position is the head.
pub proof fn lemma_head_idx_unique(s: Seq<BlockView>, i: int, j: int)
    requires
        is_head_idx(s, i),
        is_head_idx(s, j),
    ensures
        i == j,
{
    assert(s[i].number == s[j].number);
}

/// A first match in storage order pins `first_with_number`.
proof fn lemma_first_with_number_at(s: Seq<BlockView>, n: int, i: int)
    requires
        0 <= i < s.len(),
        s[i].number == n,
        forall|j: int| 0 <= j < i ==> s[j].number != n,
    ensures
        has_number(s, n),
        first_with_number(s, n) == i,
        spec_get(s, n) == Some(s[i]),
    decreases i,
{
    if i == 0 {
    } else {
        assert(s.drop_first()[i - 1] == s[i]);
        assert(forall|j: int| 0 <= j < i - 1 ==> s.drop_first()[j] == s[j + 1]);
        lemma_first_with_number_at(s.drop_first(), n, i - 1);
    }
}

/// Inserting the same block twice admits it once: the first insert
/// reports it new, the second refuses it and leaves the store as the
/// first left it.
pub proof fn lemma_insert_idempotent(s: Seq<BlockView>, b: BlockView)
    requires
        !has_hash(s, b.hash),
    ensures
        spec_insert(s, b).0,
        !spec_insert(spec_insert(s, b).1, b).0,
        spec_insert(spec_insert(s, b).1, b).1 == spec_insert(s, b).1,
{
    let s1 = spec_insert(s, b).1;
    assert(s1[s.len() as int].hash == b.hash);
    assert(has_hash(s1, b.hash));
}

} // verus!
