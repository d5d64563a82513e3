//! Blocks: ordered transactions chained under an authority signature.

use vstd::prelude::*;

use crate::bytes::{push_bytes, push_u64_be, u64_be};
use crate::crypto::{blake3_of, now_seconds, pk_bytes_ok, pk_of, random_u64, sig_valid, CryptoError};
use crate::keys::{PublicKey, SecretKey};
use crate::transaction::{
    tx_hash, Transaction, TransactionValidationResult, TxView, CLOCK_SKEW_TOLERANCE,
};

verus! {

/// Mathematical model of a minter record.
#[verifier::ext_equal]
pub struct MinterView {
    pub public_key: Seq<u8>,
    pub balance_mask: Seq<u8>,
}

/// A minter that took part in a block's creation, with the XOR mask of
/// its balance.
#[derive(Debug)]
pub struct BlockMinter {
    pub(crate) public_key: PublicKey,
    pub(crate) balance_mask: crate::hash::Hash,
}

impl View for BlockMinter {
    type V = MinterView;

    closed spec fn view(&self) -> MinterView {
        MinterView { public_key: self.public_key@, balance_mask: self.balance_mask@ }
    }
}

/// The bytes a minter's digest is computed over.
pub open spec fn minter_hash_preimage(m: MinterView) -> Seq<u8> {
    m.public_key + m.balance_mask
}

/// The digest of a minter record.
pub open spec fn minter_hash(m: MinterView) -> Seq<u8> {
    blake3_of(minter_hash_preimage(m))
}

impl BlockMinter {
    /// A minter record over its key and balance mask.
    pub fn new(public_key: PublicKey, balance_mask: crate::hash::Hash) -> (r: BlockMinter)
        ensures
            r@ == (MinterView { public_key: public_key@, balance_mask: balance_mask@ }),
    {
        BlockMinter { public_key, balance_mask }
    }

    /// The minter's key.
    pub fn public_key(&self) -> (r: &PublicKey)
        ensures
            r@ == self@.public_key,
    {
        &self.public_key
    }

    /// The XOR mask of the minter's balance.
    pub fn balance_mask(&self) -> (r: crate::hash::Hash)
        ensures
            r@ == self@.balance_mask,
    {
        self.balance_mask
    }

    /// The digest of this record.
    pub fn hash(&self) -> (r: crate::hash::Hash)
        ensures
            r@ == minter_hash(self@),
    {
        let mut buf: Vec<u8> = Vec::new();
        push_bytes(&mut buf, self.public_key.as_slice());
        let mask = self.balance_mask.as_bytes();
        push_bytes(&mut buf, mask.as_slice());
        proof {
            assert(buf@ =~= minter_hash_preimage(self@));
        }
        crate::hash::Hash::hash_slice(buf.as_slice())
    }
}

impl Clone for BlockMinter {
    /// An identical record.
    fn clone(&self) -> (res: Self)
        ensures
            res@ == self@,
    {
        BlockMinter { public_key: self.public_key.clone(), balance_mask: self.balance_mask }
    }
}

impl PartialEq for BlockMinter {
    fn eq(&self, other: &BlockMinter) -> (r: bool) {
        self.public_key == other.public_key && self.balance_mask == other.balance_mask
    }
}

impl Eq for BlockMinter {

}

impl vstd::std_specs::cmp::PartialEqSpecImpl for BlockMinter {
    open spec fn obeys_eq_spec() -> bool {
        true
    }

    open spec fn eq_spec(&self, other: &BlockMinter) -> bool {
        self@ == other@
    }
}

/// Mathematical model of a block.
#[verifier::ext_equal]
pub struct BlockView {
    pub previous_block: Option<Seq<u8>>,
    pub hash: Seq<u8>,
    pub number: u64,
    pub random_seed: u64,
    pub created_at: u64,
    pub transactions: Seq<TxView>,
    pub minters: Seq<MinterView>,
    pub validator: Seq<u8>,
    pub sign: Seq<u8>,
}

/// A signed block.
#[derive(Debug)]
pub struct Block {
    pub(crate) previous_block: Option<crate::hash::Hash>,
    pub(crate) hash: crate::hash::Hash,
    pub(crate) number: u64,
    pub(crate) random_seed: u64,
    pub(crate) created_at: u64,
    pub(crate) transactions: Vec<Transaction>,
    pub(crate) minters: Vec<BlockMinter>,
    pub(crate) validator: PublicKey,
    pub(crate) sign: Vec<u8>,
}

impl View for Block {
    type V = BlockView;

    closed spec fn view(&self) -> BlockView {
        BlockView {
            previous_block: match self.previous_block {
                Some(h) => Some(h@),
                None => None,
            },
            hash: self.hash@,
            number: self.number,
            random_seed: self.random_seed,
            created_at: self.created_at,
            transactions: Seq::new(self.transactions@.len(), |i: int| self.transactions@[i]@),
            minters: Seq::new(self.minters@.len(), |i: int| self.minters@[i]@),
            validator: self.validator@,
            sign: self.sign@,
        }
    }
}

/// The digests of a run of transactions, laid end to end.
pub open spec fn tx_hashes_concat(ts: Seq<TxView>) -> Seq<u8>
    decreases ts.len(),
{
    if ts.len() == 0 {
        Seq::empty()
    } else {
        tx_hashes_concat(ts.drop_last()) + tx_hash(ts.last())
    }
}

/// The digests of a run of minters, laid end to end.
pub open spec fn minter_hashes_concat(ms: Seq<MinterView>) -> Seq<u8>
    decreases ms.len(),
{
    if ms.len() == 0 {
        Seq::empty()
    } else {
        minter_hashes_concat(ms.drop_last()) + minter_hash(ms.last())
    }
}

/// The bytes a block's digest is computed over.
pub open spec fn block_hash_preimage(b: BlockView) -> Seq<u8> {
    (match b.previous_block {
        Some(h) => h,
        None => Seq::empty(),
    }) + u64_be(b.number) + u64_be(b.random_seed) + u64_be(b.created_at) + tx_hashes_concat(
        b.transactions,
    ) + minter_hashes_concat(b.minters)
}

/// The digest a block must store.
pub open spec fn block_hash(b: BlockView) -> Seq<u8> {
    blake3_of(block_hash_preimage(b))
}

/// Whether a transaction passes every check against clock reading
/// `now`.
pub open spec fn tx_ok(t: TxView, now: u64) -> bool {
    t.created_at <= now + CLOCK_SKEW_TOLERANCE && t.hash == tx_hash(t) && pk_bytes_ok(t.author)
        && sig_valid(t.author, t.hash, t.sign)
}

/// The position of the first transaction that fails a check, or the
/// length when all pass.
pub open spec fn first_bad_tx(ts: Seq<TxView>, now: u64) -> int
    decreases ts.len(),
{
    if ts.len() == 0 {
        0
    } else if !tx_ok(ts.first(), now) {
        0
    } else {
        1 + first_bad_tx(ts.drop_first(), now)
    }
}

/// What validating a block found.
#[derive(Debug)]
pub enum BlockValidationResult {
    /// The creation time runs further ahead of the clock than allowed.
    InvalidCreationTime { created_at: u64 },
    /// The stored digest is not the digest of the content.
    InvalidHash { stored: crate::hash::Hash, calculated: crate::hash::Hash },
    /// The validator does not accept the signature over the digest.
    InvalidSign { hash: crate::hash::Hash, sign: Vec<u8> },
    /// A contained transaction fails its own validation.
    InvalidTransaction { transaction: Box<Transaction>, error: TransactionValidationResult },
    Valid,
}

impl BlockValidationResult {
    /// Whether validation found nothing wrong.
    pub fn is_valid(&self) -> (r: bool)
        ensures
            r == (*self is Valid),
    {
        match self {
            BlockValidationResult::Valid => true,
            _ => false,
        }
    }
}

/// Validation could not run to a verdict.
#[derive(Debug)]
pub enum BlockValidationError {
    /// A signature check failed before examining the signature.
    SignVerificationError(CryptoError),
}

/// What validating block `b` against clock reading `now` must return.
pub open spec fn block_validate_result(
    b: BlockView,
    now: u64,
    r: Result<BlockValidationResult, BlockValidationError>,
) -> bool {
    if b.created_at > now + CLOCK_SKEW_TOLERANCE {
        r matches Ok(BlockValidationResult::InvalidCreationTime { created_at }) && created_at
            == b.created_at
    } else if b.hash != block_hash(b) {
        r matches Ok(BlockValidationResult::InvalidHash { stored, calculated }) && stored@ == b.hash
            && calculated@ == block_hash(b)
    } else if !pk_bytes_ok(b.validator) {
        r is Err
    } else if !sig_valid(b.validator, b.hash, b.sign) {
        r matches Ok(BlockValidationResult::InvalidSign { hash, sign }) && hash@ == b.hash && sign@
            == b.sign
    } else {
        let k = first_bad_tx(b.transactions, now);
        if k == b.transactions.len() {
            r matches Ok(BlockValidationResult::Valid)
        } else {
            let t = b.transactions[k];
            if t.created_at <= now + CLOCK_SKEW_TOLERANCE && t.hash == tx_hash(t) && !pk_bytes_ok(
                t.author,
            ) {
                r is Err
            } else {
                r matches Ok(BlockValidationResult::InvalidTransaction { transaction, error })
                    && transaction@ == t && crate::transaction::tx_validate_result(
                    t,
                    now,
                    Ok(error),
                )
            }
        }
    }
}

/// A block's stored digest is always exactly 32 bytes, and so are
/// its optional previous-block digest and its minters' masks.
pub proof fn lemma_block_digest_lens(b: &Block)
    ensures
        b@.hash.len() == 32,
        b@.previous_block matches Some(h) ==> h.len() == 32,
        forall|i: int|
            0 <= i < b@.minters.len() ==> (#[trigger] b@.minters[i]).balance_mask.len() == 32,
        forall|i: int|
            0 <= i < b@.transactions.len() ==> (#[trigger] b@.transactions[i]).hash.len() == 32,
{
    crate::hash::lemma_hash_len(b.hash);
    match b.previous_block {
        Some(h) => {
            crate::hash::lemma_hash_len(h);
        },
        None => {},
    }
    assert forall|i: int|
        0 <= i < b@.minters.len() implies (#[trigger] b@.minters[i]).balance_mask.len() == 32 by {
        crate::hash::lemma_hash_len(b.minters@[i].balance_mask);
    }
    assert forall|i: int|
        0 <= i < b@.transactions.len() implies (#[trigger] b@.transactions[i]).hash.len()
        == 32 by {
        crate::transaction::lemma_tx_hash_len(&b.transactions@[i]);
    }
}

/// A prefix of passing transactions pins `first_bad_tx`.
proof fn lemma_first_bad_tx(ts: Seq<TxView>, now: u64, i: int)
    requires
        0 <= i <= ts.len(),
        forall|j: int| 0 <= j < i ==> tx_ok(ts[j], now),
        i < ts.len() ==> !tx_ok(ts[i], now),
    ensures
        i < ts.len() ==> first_bad_tx(ts, now) == i,
        i == ts.len() ==> first_bad_tx(ts, now) == ts.len(),
    decreases i,
{
    if ts.len() == 0 {
    } else if i == 0 {
    } else {
        assert(tx_ok(ts.first(), now));
        lemma_first_bad_tx(ts.drop_first(), now, i - 1);
    }
}

impl Block {
    /// A block assembled from stored parts, as read back from a
    /// document or a store; validation says whether they cohere.
    pub(crate) fn assemble(
        previous_block: Option<crate::hash::Hash>,
        hash: crate::hash::Hash,
        number: u64,
        random_seed: u64,
        created_at: u64,
        transactions: Vec<Transaction>,
        minters: Vec<BlockMinter>,
        validator: PublicKey,
        sign: Vec<u8>,
    ) -> (b: Block)
        ensures
            b@ == (BlockView {
                previous_block: match previous_block {
                    Some(h) => Some(h@),
                    None => None,
                },
                hash: hash@,
                number,
                random_seed,
                created_at,
                transactions: Seq::new(transactions@.len(), |i: int| transactions@[i]@),
                minters: Seq::new(minters@.len(), |i: int| minters@[i]@),
                validator: validator@,
                sign: sign@,
            }),
    {
        Block {
            previous_block,
            hash,
            number,
            random_seed,
            created_at,
            transactions,
            minters,
            validator,
            sign,
        }
    }

    /// The digest of the previous block, absent on a root block.
    pub fn previous_block(&self) -> (r: Option<crate::hash::Hash>)
        ensures
            match r {
                Some(h) => self@.previous_block == Some(h@),
                None => self@.previous_block is None,
            },
    {
        match &self.previous_block {
            Some(h) => Some(*h),
            None => None,
        }
    }

    /// The number of the block in the chain.
    pub fn number(&self) -> (r: u64)
        ensures
            r == self@.number,
    {
        self.number
    }

    /// The stored creation time, in UTC seconds.
    pub fn created_at(&self) -> (r: u64)
        ensures
            r == self@.created_at,
    {
        self.created_at
    }

    /// The stored random seed.
    pub fn random_seed(&self) -> (r: u64)
        ensures
            r == self@.random_seed,
    {
        self.random_seed
    }

    /// The transactions stabilized by this block.
    pub fn transactions(&self) -> (r: &Vec<Transaction>)
        ensures
            r@.len() == self@.transactions.len(),
            forall|i: int| 0 <= i < r@.len() ==> r@[i]@ == self@.transactions[i],
    {
        &self.transactions
    }

    /// The minters that took part in this block's creation.
    pub fn minters(&self) -> (r: &Vec<BlockMinter>)
        ensures
            r@.len() == self@.minters.len(),
            forall|i: int| 0 <= i < r@.len() ==> r@[i]@ == self@.minters[i],
    {
        &self.minters
    }

    /// The key whose signature the block carries.
    pub fn validator(&self) -> (r: &PublicKey)
        ensures
            r@ == self@.validator,
    {
        &self.validator
    }

    /// The stored signature.
    pub fn sign(&self) -> (r: &[u8])
        ensures
            r@ == self@.sign,
    {
        self.sign.as_slice()
    }

    /// The stored digest, as stored: validation says whether it binds.
    pub fn get_hash(&self) -> (r: crate::hash::Hash)
        ensures
            r@ == self@.hash,
    {
        self.hash
    }

    /// Whether this block starts a chain.
    pub fn is_root(&self) -> (r: bool)
        ensures
            r == (self@.previous_block is None),
    {
        match &self.previous_block {
            Some(_) => false,
            None => true,
        }
    }

    /// The digest of the block's content.
    pub fn calculate_hash(&self) -> (r: crate::hash::Hash)
        ensures
            r@ == block_hash(self@),
    {
        let ghost bv = self@;
        let mut buf: Vec<u8> = Vec::new();
        match &self.previous_block {
            Some(h) => {
                let hb = h.as_bytes();
                push_bytes(&mut buf, hb.as_slice());
            },
            None => {},
        }
        push_u64_be(&mut buf, self.number);
        push_u64_be(&mut buf, self.random_seed);
        push_u64_be(&mut buf, self.created_at);
        let ghost head = buf@;
        let n = self.transactions.len();
        let mut i: usize = 0;
        while i < n
            invariant
                n == self.transactions@.len(),
                i <= n,
                bv == self@,
                bv.transactions.len() == n,
                forall|j: int| 0 <= j < n ==> bv.transactions[j] == self.transactions@[j]@,
                buf@ == head + tx_hashes_concat(bv.transactions.take(i as int)),
            decreases n - i,
        {
            let digest = self.transactions[i].calculate_hash();
            let db = digest.as_bytes();
            push_bytes(&mut buf, db.as_slice());
            proof {
                let taken = bv.transactions.take(i + 1);
                assert(taken.drop_last() =~= bv.transactions.take(i as int));
                assert(taken.last() == bv.transactions[i as int]);
                assert(buf@ =~= head + tx_hashes_concat(bv.transactions.take(i + 1)));
            }
            i = i + 1;
        }
        proof {
            assert(bv.transactions.take(n as int) =~= bv.transactions);
        }
        let ghost mid = buf@;
        let m = self.minters.len();
        let mut k: usize = 0;
        while k < m
            invariant
                m == self.minters@.len(),
                k <= m,
                bv == self@,
                bv.minters.len() == m,
                forall|j: int| 0 <= j < m ==> bv.minters[j] == self.minters@[j]@,
                buf@ == mid + minter_hashes_concat(bv.minters.take(k as int)),
            decreases m - k,
        {
            let digest = self.minters[k].hash();
            let db = digest.as_bytes();
            push_bytes(&mut buf, db.as_slice());
            proof {
                let taken = bv.minters.take(k + 1);
                assert(taken.drop_last() =~= bv.minters.take(k as int));
                assert(taken.last() == bv.minters[k as int]);
                assert(buf@ =~= mid + minter_hashes_concat(bv.minters.take(k + 1)));
            }
            k = k + 1;
        }
        proof {
            assert(bv.minters.take(m as int) =~= bv.minters);
            assert(buf@ =~= block_hash_preimage(bv));
        }
        crate::hash::Hash::hash_slice(buf.as_slice())
    }

    /// Validate against the clock reading `now`: creation time within
    /// tolerance, stored digest equal to the content's digest, the
    /// signature over the digest accepted by the validator, and every
    /// contained transaction valid in turn.
    pub fn validate_at(&self, now: u64) -> (r: Result<BlockValidationResult, BlockValidationError>)
        ensures
            block_validate_result(self@, now, r),
    {
        let ghost bv = self@;
        if self.created_at > now.saturating_add(CLOCK_SKEW_TOLERANCE) {
            return Ok(BlockValidationResult::InvalidCreationTime { created_at: self.created_at });
        }
        let calculated = self.calculate_hash();
        if !(self.hash == calculated) {
            return Ok(BlockValidationResult::InvalidHash { stored: self.hash, calculated });
        }
        let digest_bytes = self.hash.as_bytes();
        match self.validator.verify_signature(digest_bytes.as_slice(), self.sign.as_slice()) {
            Ok(true) => {},
            Ok(false) => {
                return Ok(
                    BlockValidationResult::InvalidSign {
                        hash: self.hash,
                        sign: crate::bytes::clone_bytes(&self.sign),
                    },
                );
            },
            Err(e) => {
                return Err(BlockValidationError::SignVerificationError(e));
            },
        }
        let n = self.transactions.len();
        let mut i: usize = 0;
        while i < n
            invariant
                n == self.transactions@.len(),
                bv == self@,
                bv.transactions.len() == n,
                forall|j: int| 0 <= j < n ==> bv.transactions[j] == self.transactions@[j]@,
                i <= n,
                forall|j: int| 0 <= j < i ==> tx_ok(bv.transactions[j], now),
                bv.created_at <= now + CLOCK_SKEW_TOLERANCE,
                bv.hash == block_hash(bv),
                pk_bytes_ok(bv.validator),
                sig_valid(bv.validator, bv.hash, bv.sign),
            decreases n - i,
        {
            let verdict = self.transactions[i].validate_at(now);
            match verdict {
                Ok(result) => {
                    if !result.is_valid() {
                        proof {
                            assert(!tx_ok(bv.transactions[i as int], now));
                            lemma_first_bad_tx(bv.transactions, now, i as int);
                        }
                        return Ok(
                            BlockValidationResult::InvalidTransaction {
                                transaction: Box::new(self.transactions[i].clone()),
                                error: result,
                            },
                        );
                    }
                    proof {
                        assert(tx_ok(bv.transactions[i as int], now));
                    }
                },
                Err(e) => {
                    proof {
                        assert(!tx_ok(bv.transactions[i as int], now));
                        lemma_first_bad_tx(bv.transactions, now, i as int);
                    }
                    return Err(BlockValidationError::SignVerificationError(match e {
                        crate::transaction::TransactionValidationError::SignVerificationError(
                            inner,
                        ) => inner,
                    }));
                },
            }
            i = i + 1;
        }
        proof {
            lemma_first_bad_tx(bv.transactions, now, n as int);
        }
        Ok(BlockValidationResult::Valid)
    }

    /// Validate against the clock now.
    pub fn validate(&self) -> (r: Result<BlockValidationResult, BlockValidationError>)
        ensures
            exists|now: u64| block_validate_result(self@, now, r),
    {
        let now = now_seconds();
        let r = self.validate_at(now);
        proof {
            assert(block_validate_result(self@, now, r));
        }
        r
    }
}

impl Clone for Block {
    /// An identical block.
    fn clone(&self) -> (res: Self)
        ensures
            res@ == self@,
    {
        let mut transactions: Vec<Transaction> = Vec::new();
        let n = self.transactions.len();
        let mut i: usize = 0;
        while i < n
            invariant
                n == self.transactions@.len(),
                i <= n,
                transactions@.len() == i,
                forall|j: int| 0 <= j < i ==> transactions@[j]@ == self.transactions@[j]@,
            decreases n - i,
        {
            transactions.push(self.transactions[i].clone());
            i = i + 1;
        }
        let mut minters: Vec<BlockMinter> = Vec::new();
        let m = self.minters.len();
        let mut k: usize = 0;
        while k < m
            invariant
                m == self.minters@.len(),
                k <= m,
                minters@.len() == k,
                forall|j: int| 0 <= j < k ==> minters@[j]@ == self.minters@[j]@,
            decreases m - k,
        {
            minters.push(self.minters[k].clone());
            k = k + 1;
        }
        let res = Block {
            previous_block: self.previous_block,
            hash: self.hash,
            number: self.number,
            random_seed: self.random_seed,
            created_at: self.created_at,
            transactions,
            minters,
            validator: self.validator.clone(),
            sign: crate::bytes::clone_bytes(&self.sign),
        };
        proof {
            assert(res@.transactions =~= self@.transactions);
            assert(res@.minters =~= self@.minters);
            assert(res@ =~= self@);
        }
        res
    }
}

impl PartialEq for Block {
    fn eq(&self, other: &Block) -> (r: bool) {
        let headers_match = match (&self.previous_block, &other.previous_block) {
            (Some(a), Some(b)) => *a == *b,
            (None, None) => true,
            _ => false,
        };
        if !headers_match {
            proof {
                assert(self@ != other@);
            }
            return false;
        }
        if !(self.hash == other.hash && self.number == other.number && self.random_seed
            == other.random_seed && self.created_at == other.created_at && self.validator
            == other.validator && crate::hash::cmp_slices(
            self.sign.as_slice(),
            other.sign.as_slice(),
        )) {
            return false;
        }
        if self.transactions.len() != other.transactions.len() {
            proof {
                assert(self@.transactions.len() != other@.transactions.len());
            }
            return false;
        }
        let n = self.transactions.len();
        let mut i: usize = 0;
        while i < n
            invariant
                n == self.transactions@.len(),
                n == other.transactions@.len(),
                i <= n,
                forall|j: int| 0 <= j < i ==> self@.transactions[j] == other@.transactions[j],
                self@.transactions.len() == n,
                other@.transactions.len() == n,
            decreases n - i,
        {
            if !(self.transactions[i] == other.transactions[i]) {
                proof {
                    assert(self@.transactions[i as int] != other@.transactions[i as int]);
                }
                return false;
            }
            i = i + 1;
        }
        if self.minters.len() != other.minters.len() {
            proof {
                assert(self@.minters.len() != other@.minters.len());
            }
            return false;
        }
        let m = self.minters.len();
        let mut k: usize = 0;
        while k < m
            invariant
                m == self.minters@.len(),
                m == other.minters@.len(),
                k <= m,
                forall|j: int| 0 <= j < k ==> self@.minters[j] == other@.minters[j],
                self@.minters.len() == m,
                other@.minters.len() == m,
                self@.transactions =~= other@.transactions,
            decreases m - k,
        {
            if !(self.minters[k] == other.minters[k]) {
                proof {
                    assert(self@.minters[k as int] != other@.minters[k as int]);
                }
                return false;
            }
            k = k + 1;
        }
        proof {
            assert(self@.transactions =~= other@.transactions);
            assert(self@.minters =~= other@.minters);
            assert(self@ =~= other@);
        }
        true
    }
}

impl Eq for Block {

}

impl vstd::std_specs::cmp::PartialEqSpecImpl for Block {
    open spec fn obeys_eq_spec() -> bool {
        true
    }

    open spec fn eq_spec(&self, other: &Block) -> bool {
        self@ == other@
    }
}

/// Accumulates a block's content until it is signed.
#[derive(Debug)]
pub struct BlockBuilder {
    previous_block: Option<crate::hash::Hash>,
    number: u64,
    random_seed: u64,
    created_at: u64,
    transactions: Vec<Transaction>,
    minters: Vec<BlockMinter>,
}

/// Mathematical model of a block under construction.
#[verifier::ext_equal]
pub struct BuilderView {
    pub previous_block: Option<Seq<u8>>,
    pub number: u64,
    pub random_seed: u64,
    pub created_at: u64,
    pub transactions: Seq<TxView>,
    pub minters: Seq<MinterView>,
}

impl View for BlockBuilder {
    type V = BuilderView;

    closed spec fn view(&self) -> BuilderView {
        BuilderView {
            previous_block: match self.previous_block {
                Some(h) => Some(h@),
                None => None,
            },
            number: self.number,
            random_seed: self.random_seed,
            created_at: self.created_at,
            transactions: Seq::new(self.transactions@.len(), |i: int| self.transactions@[i]@),
            minters: Seq::new(self.minters@.len(), |i: int| self.minters@[i]@),
        }
    }
}

impl BlockBuilder {
    /// A root builder stamped with a fresh seed and the clock.
    pub fn new() -> (r: BlockBuilder)
        ensures
            r@.previous_block is None,
            r@.number == 0,
            r@.transactions.len() == 0,
            r@.minters.len() == 0,
    {
        let r = BlockBuilder {
            previous_block: None,
            number: 0,
            random_seed: random_u64(),
            created_at: now_seconds(),
            transactions: Vec::new(),
            minters: Vec::new(),
        };
        proof {
            assert(r@.transactions =~= Seq::<TxView>::empty());
            assert(r@.minters =~= Seq::<MinterView>::empty());
        }
        r
    }

    /// A builder for the block after `previous`, referencing its
    /// digest and using the next number.
    pub fn chained(previous: &Block) -> (r: BlockBuilder)
        requires
            previous@.number < u64::MAX,
        ensures
            r@.previous_block == Some(previous@.hash),
            r@.number == previous@.number + 1,
            r@.transactions.len() == 0,
            r@.minters.len() == 0,
    {
        Self::new().with_previous(previous.get_hash()).with_number(previous.number() + 1)
    }

    /// The builder with the previous-block digest set.
    pub fn with_previous(self, hash: crate::hash::Hash) -> (r: BlockBuilder)
        ensures
            r@ == (BuilderView { previous_block: Some(hash@), ..self@ }),
    {
        let r = BlockBuilder { previous_block: Some(hash), ..self };
        proof {
            assert(r@ =~= (BuilderView { previous_block: Some(hash@), ..self@ }));
        }
        r
    }

    /// The builder with its number set.
    pub fn with_number(self, number: u64) -> (r: BlockBuilder)
        ensures
            r@ == (BuilderView { number, ..self@ }),
    {
        let r = BlockBuilder { number, ..self };
        proof {
            assert(r@ =~= (BuilderView { number, ..self@ }));
        }
        r
    }

    /// The builder with one more transaction.
    pub fn add_transaction(self, transaction: Transaction) -> (r: BlockBuilder)
        ensures
            r@ == (BuilderView { transactions: self@.transactions.push(transaction@), ..self@ }),
    {
        let ghost gt = transaction@;
        let ghost before = self@;
        let mut transactions = self.transactions;
        transactions.push(transaction);
        let r = BlockBuilder { transactions, ..self };
        proof {
            assert(r@.transactions =~= before.transactions.push(gt));
            assert(r@ =~= (BuilderView { transactions: before.transactions.push(gt), ..before }));
        }
        r
    }

    /// The builder with one more minter record.
    pub fn add_minter(self, minter: BlockMinter) -> (r: BlockBuilder)
        ensures
            r@ == (BuilderView { minters: self@.minters.push(minter@), ..self@ }),
    {
        let ghost gm = minter@;
        let ghost before = self@;
        let mut minters = self.minters;
        minters.push(minter);
        let r = BlockBuilder { minters, ..self };
        proof {
            assert(r@.minters =~= before.minters.push(gm));
            assert(r@ =~= (BuilderView { minters: before.minters.push(gm), ..before }));
        }
        r
    }

    /// Sign the accumulated content: the block's digest binds its
    /// fields and the signature is one its validator accepts.
    pub fn sign(self, validator: &SecretKey) -> (r: Block)
        ensures
            r@.previous_block == self@.previous_block,
            r@.number == self@.number,
            r@.random_seed == self@.random_seed,
            r@.created_at == self@.created_at,
            r@.transactions == self@.transactions,
            r@.minters == self@.minters,
            r@.validator == pk_of(validator@),
            pk_bytes_ok(r@.validator),
            r@.hash == block_hash(r@),
            r@.hash.len() == 32,
            sig_valid(r@.validator, r@.hash, r@.sign),
    {
        let ghost before = self@;
        let mut block = Block {
            previous_block: self.previous_block,
            hash: crate::hash::Hash::min_value(),
            number: self.number,
            random_seed: self.random_seed,
            created_at: self.created_at,
            transactions: self.transactions,
            minters: self.minters,
            validator: validator.public_key(),
            sign: Vec::new(),
        };
        let hash = block.calculate_hash();
        let hash_bytes = hash.as_bytes();
        let sign = validator.create_signature(hash_bytes.as_slice());
        let ghost unsigned = block@;
        block.hash = hash;
        block.sign = sign;
        proof {
            assert(block@.transactions =~= unsigned.transactions);
            assert(block@.minters =~= unsigned.minters);
            assert(block_hash_preimage(block@) =~= block_hash_preimage(unsigned));
            assert(block@.transactions =~= before.transactions);
            assert(block@.minters =~= before.minters);
        }
        block
    }

    /// A signed root block with no content beyond its stamps.
    pub fn build_root(validator: &SecretKey) -> (r: Block)
        ensures
            r@.previous_block is None,
            r@.number == 0,
            r@.transactions.len() == 0,
            r@.minters.len() == 0,
            r@.validator == pk_of(validator@),
            pk_bytes_ok(r@.validator),
            r@.hash == block_hash(r@),
            r@.hash.len() == 32,
            sig_valid(r@.validator, r@.hash, r@.sign),
    {
        Self::new().sign(validator)
    }
}

} // verus!
