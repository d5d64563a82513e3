//! The blockchain: three indices and the end-to-end chain validation.

use vstd::prelude::*;

use crate::authorities::{holds_key, AuthoritiesFile};
use crate::block::{
    block_hash, first_bad_tx, Block, BlockValidationError, BlockValidationResult, BlockView,
};
use crate::blocks_index::{has_number, spec_get, ChunkedBlocksIndex};
use crate::crypto::{now_seconds, pk_bytes_ok, sig_valid};
use crate::keys::PublicKey;
use crate::transaction::CLOCK_SKEW_TOLERANCE;
use crate::tx_index::TransactionsFile;

verus! {

/// Whether a block passes its own validation against clock `now`.
pub open spec fn block_checks_ok(b: BlockView, now: u64) -> bool {
    b.created_at <= now + CLOCK_SKEW_TOLERANCE && b.hash == block_hash(b) && pk_bytes_ok(
        b.validator,
    ) && sig_valid(b.validator, b.hash, b.sign) && first_bad_tx(b.transactions, now)
        == b.transactions.len()
}

/// The last number reachable from `n` through consecutively numbered
/// stored blocks.
pub open spec fn walk_end(bs: Seq<BlockView>, n: int) -> int
    decreases u64::MAX - n when 0 <= n <= u64::MAX
{
    if n < u64::MAX && has_number(bs, n + 1) {
        walk_end(bs, n + 1)
    } else {
        n
    }
}

proof fn lemma_walk_end_step(bs: Seq<BlockView>, n: int)
    requires
        0 <= n < u64::MAX,
        has_number(bs, n + 1),
    ensures
        walk_end(bs, n) == walk_end(bs, n + 1),
{
}

proof fn lemma_walk_end_stop(bs: Seq<BlockView>, n: int)
    requires
        0 <= n <= u64::MAX,
        n == u64::MAX || !has_number(bs, n + 1),
    ensures
        walk_end(bs, n) == n,
{
}

proof fn lemma_walk_end_ge(bs: Seq<BlockView>, n: int)
    requires
        0 <= n <= u64::MAX,
    ensures
        walk_end(bs, n) >= n,
        walk_end(bs, n) <= u64::MAX,
    decreases u64::MAX - n,
{
    if n < u64::MAX && has_number(bs, n + 1) {
        lemma_walk_end_ge(bs, n + 1);
    }
}

/// Whether every block reachable from `start` passes every check: it
/// is stored, its validator is an authority, it validates on its own,
/// and past `start` it links to its predecessor's digest with a
/// creation time no earlier than the predecessor's.
pub open spec fn all_walked_ok(
    bs: Seq<BlockView>,
    au: Seq<Seq<u8>>,
    start: int,
    now: u64,
) -> bool {
    has_number(bs, start) && (forall|n: int|
        start <= n <= walk_end(bs, start) ==> walked_block_ok(bs, au, start, n, now))
}

/// Whether the walk reaches number `n` from `start`: every earlier
/// walked block checks out and `n` is stored within the contiguous
/// run.
pub open spec fn walk_reaches(
    bs: Seq<BlockView>,
    au: Seq<Seq<u8>>,
    start: int,
    n: int,
    now: u64,
) -> bool {
    start <= n <= walk_end(bs, start) && has_number(bs, n) && (forall|k: int|
        start <= k < n ==> walked_block_ok(bs, au, start, k, now))
}

/// Whether the walked block at `n` passes the creation-time checks:
/// within clock tolerance and no earlier than its predecessor's.
pub open spec fn walked_time_ok(bs: Seq<BlockView>, start: int, n: int, now: u64) -> bool {
    match spec_get(bs, n) {
        Some(b) => b.created_at <= now + CLOCK_SKEW_TOLERANCE && (n > start
            ==> (match spec_get(bs, n - 1) {
            Some(p) => b.created_at >= p.created_at,
            None => false,
        })),
        None => false,
    }
}

/// Whether the walked block at `n` references its predecessor's
/// digest; the starting block's reference is taken as given.
pub open spec fn walked_link_ok(bs: Seq<BlockView>, start: int, n: int) -> bool {
    n == start || (match (spec_get(bs, n), spec_get(bs, n - 1)) {
        (Some(b), Some(p)) => b.previous_block == Some(p.hash),
        _ => false,
    })
}

/// The checks on the walked block at number `n`.
pub open spec fn walked_block_ok(
    bs: Seq<BlockView>,
    au: Seq<Seq<u8>>,
    start: int,
    n: int,
    now: u64,
) -> bool {
    match spec_get(bs, n) {
        Some(b) => holds_key(au, b.validator) && block_checks_ok(b, now) && (n > start
            ==> (match spec_get(bs, n - 1) {
            Some(p) => b.previous_block == Some(p.hash) && b.created_at >= p.created_at,
            None => false,
        })),
        None => false,
    }
}

/// What validating the chain found.
#[derive(Debug)]
#[allow(inconsistent_fields)]
pub enum BlockchainValidationResult {
    /// The starting number is not stored.
    UnknownBlockNumber(u64),
    /// A block's creation time runs backwards or ahead of the clock.
    InvalidCreationTime { block_number: u64, created_at: u64 },
    /// A block's number does not follow its predecessor's.
    InvalidNumber { block_number: u64, previous_number: u64 },
    /// A block does not reference its predecessor's digest.
    InvalidPreviousBlockReference {
        block_number: u64,
        expected_previous: Option<crate::hash::Hash>,
        got_previous: Option<crate::hash::Hash>,
    },
    /// A block's validator is no authority.
    InvalidValidator { block_number: u64, validator: PublicKey },
    /// A block fails its own validation.
    InvalidSign { block_number: u64, validator: PublicKey, reason: BlockValidationResult },
    /// A block's signature check could not run to a verdict.
    SignVerificationError { block_number: u64, validator: PublicKey, reason: BlockValidationError },
    /// The chain is valid.
    Valid,
}

impl BlockchainValidationResult {
    /// Whether validation found nothing wrong.
    pub fn is_valid(&self) -> (r: bool)
        ensures
            r == (*self is Valid),
    {
        match self {
            BlockchainValidationResult::Valid => true,
            _ => false,
        }
    }
}

/// The three indices of one chain.
#[derive(Debug)]
pub struct BasicBlockchain {
    pub authorities: AuthoritiesFile,
    pub blocks: ChunkedBlocksIndex,
    pub transactions: TransactionsFile,
}

impl BasicBlockchain {
    /// A chain over its three indices.
    pub fn new(
        authorities: AuthoritiesFile,
        blocks: ChunkedBlocksIndex,
        transactions: TransactionsFile,
    ) -> (r: BasicBlockchain)
        ensures
            r.authorities == authorities,
            r.blocks == blocks,
            r.transactions == transactions,
    {
        BasicBlockchain { authorities, blocks, transactions }
    }

    /// The authorities index.
    pub fn authorities_index_ref(&self) -> (r: &AuthoritiesFile)
        ensures
            r == &self.authorities,
    {
        &self.authorities
    }

    /// The blocks index.
    pub fn blocks_index_ref(&self) -> (r: &ChunkedBlocksIndex)
        ensures
            r == &self.blocks,
    {
        &self.blocks
    }

    /// The transactions index.
    pub fn transactions_index_ref(&self) -> (r: &TransactionsFile)
        ensures
            r == &self.transactions,
    {
        &self.transactions
    }

    /// The authorities index, for mutation.
    pub fn authorities_index_mut(&mut self) -> (r: &mut AuthoritiesFile)
        ensures
            *r == old(self).authorities,
            final(self).authorities == *final(r),
            final(self).blocks == old(self).blocks,
            final(self).transactions == old(self).transactions,
    {
        &mut self.authorities
    }

    /// The blocks index, for mutation.
    pub fn blocks_index_mut(&mut self) -> (r: &mut ChunkedBlocksIndex)
        ensures
            *r == old(self).blocks,
            final(self).blocks == *final(r),
            final(self).authorities == old(self).authorities,
            final(self).transactions == old(self).transactions,
    {
        &mut self.blocks
    }

    /// The transactions index, for mutation.
    pub fn transactions_index_mut(&mut self) -> (r: &mut TransactionsFile)
        ensures
            *r == old(self).transactions,
            final(self).transactions == *final(r),
            final(self).authorities == old(self).authorities,
            final(self).blocks == old(self).blocks,
    {
        &mut self.transactions
    }

    /// Validate the chain from block `start` against clock reading
    /// `now`: valid exactly when every reachable block checks out, and
    /// an unknown starting number is reported as such.
    pub fn validate_since_at(&self, start: u64, now: u64) -> (r: BlockchainValidationResult)
        ensures
            (r is Valid) <==> all_walked_ok(self.blocks@, self.authorities@, start as int, now),
            (r is UnknownBlockNumber) <==> !has_number(self.blocks@, start as int),
            r matches BlockchainValidationResult::UnknownBlockNumber(n) ==> n == start,
            !(r is InvalidNumber),
            r matches BlockchainValidationResult::InvalidCreationTime { block_number, created_at }
                ==> walk_reaches(
                self.blocks@,
                self.authorities@,
                start as int,
                block_number as int,
                now,
            ) && (spec_get(self.blocks@, block_number as int) matches Some(b) && created_at
                == b.created_at) && !walked_time_ok(
                self.blocks@,
                start as int,
                block_number as int,
                now,
            ),
            r matches BlockchainValidationResult::InvalidPreviousBlockReference {
                block_number,
                expected_previous,
                got_previous,
            } ==> walk_reaches(
                self.blocks@,
                self.authorities@,
                start as int,
                block_number as int,
                now,
            ) && walked_time_ok(self.blocks@, start as int, block_number as int, now)
                && !walked_link_ok(self.blocks@, start as int, block_number as int)
                && block_number > start && (match (
                spec_get(self.blocks@, block_number as int),
                spec_get(self.blocks@, block_number as int - 1),
            ) {
                (Some(b), Some(p)) => (match expected_previous {
                    Some(h) => Some(h@),
                    None => None,
                }) == Some(p.hash) && (match got_previous {
                    Some(h) => Some(h@),
                    None => None,
                }) == b.previous_block,
                _ => false,
            }),
            r matches BlockchainValidationResult::InvalidValidator { block_number, validator }
                ==> walk_reaches(
                self.blocks@,
                self.authorities@,
                start as int,
                block_number as int,
                now,
            ) && walked_time_ok(self.blocks@, start as int, block_number as int, now)
                && walked_link_ok(self.blocks@, start as int, block_number as int) && (spec_get(
                self.blocks@,
                block_number as int,
            ) matches Some(b) && validator@ == b.validator && !holds_key(
                self.authorities@,
                b.validator,
            )),
            r matches BlockchainValidationResult::InvalidSign { block_number, validator, reason }
                ==> walk_reaches(
                self.blocks@,
                self.authorities@,
                start as int,
                block_number as int,
                now,
            ) && walked_time_ok(self.blocks@, start as int, block_number as int, now)
                && walked_link_ok(self.blocks@, start as int, block_number as int) && (spec_get(
                self.blocks@,
                block_number as int,
            ) matches Some(b) && validator@ == b.validator && holds_key(
                self.authorities@,
                b.validator,
            ) && crate::block::block_validate_result(b, now, Ok(reason)) && !(reason is Valid)),
            r matches BlockchainValidationResult::SignVerificationError {
                block_number,
                validator,
                reason,
            } ==> walk_reaches(
                self.blocks@,
                self.authorities@,
                start as int,
                block_number as int,
                now,
            ) && walked_time_ok(self.blocks@, start as int, block_number as int, now)
                && walked_link_ok(self.blocks@, start as int, block_number as int) && (spec_get(
                self.blocks@,
                block_number as int,
            ) matches Some(b) && validator@ == b.validator && holds_key(
                self.authorities@,
                b.validator,
            ) && crate::block::block_validate_result(
                b,
                now,
                Err::<BlockValidationResult, BlockValidationError>(reason),
            )),
    {
        let ghost bs = self.blocks@;
        let ghost au = self.authorities@;
        let mut cur: Block = match self.blocks.get_block(start) {
            Some(b) => b,
            None => {
                return BlockchainValidationResult::UnknownBlockNumber(start);
            },
        };
        proof {
            crate::blocks_index::lemma_spec_get_number(bs, start as int);
            lemma_walk_end_ge(bs, start as int);
        }
        let mut prev_hash: Option<crate::hash::Hash> = cur.previous_block();
        let mut prev_created: u64 = 0;
        let mut prev_number: u64 = if start > 0 {
            start - 1
        } else {
            0
        };
        let ghost mut cur_n: int = start as int;
        loop
            invariant
                bs == self.blocks@,
                au == self.authorities@,
                start as int <= cur_n <= u64::MAX,
                spec_get(bs, cur_n) == Some(cur@),
                cur@.number == cur_n,
                walk_end(bs, start as int) == walk_end(bs, cur_n),
                walk_end(bs, cur_n) >= cur_n,
                has_number(bs, start as int),
                forall|k: int|
                    start as int <= k < cur_n ==> walked_block_ok(bs, au, start as int, k, now),
                match prev_hash {
                    Some(h) => (if cur_n == start as int {
                        cur@.previous_block == Some(h@)
                    } else {
                        spec_get(bs, cur_n - 1) matches Some(p) && p.hash == h@
                    }),
                    None => (if cur_n == start as int {
                        cur@.previous_block is None
                    } else {
                        false
                    }),
                },
                cur_n == start as int ==> prev_created == 0,
                cur_n > start as int ==> (spec_get(bs, cur_n - 1) matches Some(p) && p.created_at
                    == prev_created),
                prev_number == (if cur_n == start as int {
                    if start > 0 {
                        start - 1
                    } else {
                        0
                    }
                } else {
                    cur_n - 1
                }),
            decreases u64::MAX - cur_n,
        {
            let created = cur.created_at();
            if created < prev_created || created > now.saturating_add(CLOCK_SKEW_TOLERANCE) {
                proof {
                    assert(!walked_block_ok(bs, au, start as int, cur_n, now));
                }
                return BlockchainValidationResult::InvalidCreationTime {
                    block_number: cur.number(),
                    created_at: created,
                };
            }
            if prev_number > 0 && !(prev_number + 1 == cur.number()) {
                proof {
                    assert(false);
                }
                return BlockchainValidationResult::InvalidNumber {
                    block_number: cur.number(),
                    previous_number: prev_number,
                };
            }
            let links = match (&prev_hash, cur.previous_block()) {
                (Some(a), Some(b)) => *a == b,
                (None, None) => true,
                _ => false,
            };
            if !links {
                proof {
                    assert(cur_n > start as int);
                    assert(!walked_block_ok(bs, au, start as int, cur_n, now));
                }
                return BlockchainValidationResult::InvalidPreviousBlockReference {
                    block_number: cur.number(),
                    expected_previous: prev_hash,
                    got_previous: cur.previous_block(),
                };
            }
            if !self.authorities.is_authority(cur.validator()) {
                proof {
                    assert(!walked_block_ok(bs, au, start as int, cur_n, now));
                }
                return BlockchainValidationResult::InvalidValidator {
                    block_number: cur.number(),
                    validator: cur.validator().clone(),
                };
            }
            match cur.validate_at(now) {
                Ok(verdict) => {
                    if !verdict.is_valid() {
                        proof {
                            assert(!block_checks_ok(cur@, now));
                            assert(!walked_block_ok(bs, au, start as int, cur_n, now));
                        }
                        return BlockchainValidationResult::InvalidSign {
                            block_number: cur.number(),
                            validator: cur.validator().clone(),
                            reason: verdict,
                        };
                    }
                },
                Err(e) => {
                    proof {
                        assert(!block_checks_ok(cur@, now));
                        assert(!walked_block_ok(bs, au, start as int, cur_n, now));
                    }
                    return BlockchainValidationResult::SignVerificationError {
                        block_number: cur.number(),
                        validator: cur.validator().clone(),
                        reason: e,
                    };
                },
            }
            proof {
                assert(block_checks_ok(cur@, now));
                assert(walked_block_ok(bs, au, start as int, cur_n, now));
            }
            let next = match self.blocks.get_next_block(&cur) {
                Some(b) => b,
                None => {
                    proof {
                        assert(cur_n == u64::MAX || !has_number(bs, cur_n + 1)) by {
                            if cur_n < u64::MAX && has_number(bs, cur_n + 1) {
                                crate::blocks_index::lemma_spec_get_number(bs, cur_n + 1);
                            }
                        }
                        lemma_walk_end_stop(bs, cur_n);
                        assert(walk_end(bs, start as int) == cur_n);
                    }
                    return BlockchainValidationResult::Valid;
                },
            };
            proof {
                assert(cur_n < u64::MAX) by {
                    if cur_n == u64::MAX {
                        assert(has_number(bs, cur_n + 1));
                        let i = choose|i: int| 0 <= i < bs.len() && bs[i].number == cur_n + 1;
                        assert(bs[i].number <= u64::MAX);
                    }
                }
                crate::blocks_index::lemma_spec_get_number(bs, cur_n + 1);
                lemma_walk_end_step(bs, cur_n);
                lemma_walk_end_ge(bs, cur_n + 1);
            }
            prev_created = cur.created_at();
            prev_number = cur.number();
            prev_hash = Some(cur.get_hash());
            proof {
                cur_n = cur_n + 1;
            }
            cur = next;
        }
    }

    /// Validate the chain from block `start` against the clock now.
    pub fn validate_since(&self, start: u64) -> (r: BlockchainValidationResult)
        ensures
            exists|now: u64|
                ((r is Valid) <==> all_walked_ok(self.blocks@, self.authorities@, start as int, now)),
            (r is UnknownBlockNumber) <==> !has_number(self.blocks@, start as int),
    {
        let now = now_seconds();
        let r = self.validate_since_at(start, now);
        proof {
            assert((r is Valid) <==> all_walked_ok(self.blocks@, self.authorities@, start as int, now));
        }
        r
    }

    /// Validate the whole chain from its root.
    pub fn validate(&self) -> (r: BlockchainValidationResult)
        ensures
            exists|now: u64|
                ((r is Valid) <==> all_walked_ok(self.blocks@, self.authorities@, 0, now)),
            (r is UnknownBlockNumber) <==> !has_number(self.blocks@, 0),
    {
        self.validate_since(0)
    }
}

/// In any chain accepted from its root, every walked block past the
/// root carries its own position as its number, references its
/// predecessor's digest, and was created no earlier than its
/// predecessor.
pub proof fn lemma_chain_monotonic(
    bs: Seq<BlockView>,
    au: Seq<Seq<u8>>,
    now: u64,
    n: int,
)
    requires
        all_walked_ok(bs, au, 0, now),
        0 < n <= walk_end(bs, 0),
    ensures
        spec_get(bs, n) matches Some(b) && b.number == n && (spec_get(bs, n - 1) matches Some(p)
            && b.previous_block == Some(p.hash) && b.created_at >= p.created_at),
{
    assert(walked_block_ok(bs, au, 0, n, now));
    assert(spec_get(bs, n) matches Some(b));
    assert(has_number(bs, n)) by {
        if !has_number(bs, n) {
            assert(spec_get(bs, n) is None);
        }
    }
    crate::blocks_index::lemma_spec_get_number(bs, n);
}

} // verus!
