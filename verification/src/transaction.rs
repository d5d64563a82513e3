//! Transactions: typed payloads, self-hashed and author-signed.

use vstd::prelude::*;
use vstd::string::StringSliceAdditionalSpecFns;
use vstd::utf8::encode_utf8;

use crate::bytes::{push_bytes, push_u64_be, u64_be};
use crate::crypto::{blake3_of, now_seconds, pk_bytes_ok, pk_of, random_u64, sig_valid, CryptoError};
use crate::encoding::{encoding_str, MessageEncoding};
use crate::keys::{PublicKey, SecretKey};

verus! {

/// The kind of a transaction body.
#[derive(Debug, Clone, Copy, PartialEq, Eq, Structural)]
pub enum TransactionType {
    Raw,
    Message,
    Announcement,
}

/// The wire name of a transaction kind.
pub open spec fn type_str(t: TransactionType) -> Seq<char> {
    match t {
        TransactionType::Raw => "raw"@,
        TransactionType::Message => "message"@,
        TransactionType::Announcement => "announcement"@,
    }
}

impl TransactionType {
    /// The wire name of this kind.
    pub fn as_str(&self) -> (r: &'static str)
        ensures
            r@ == type_str(*self),
    {
        match self {
            TransactionType::Raw => "raw",
            TransactionType::Message => "message",
            TransactionType::Announcement => "announcement",
        }
    }

    /// The kind of this name: exactly the wire names parse.
    pub fn from_str(text: &str) -> (r: Option<TransactionType>)
        ensures
            match r {
                Some(t) => text@ == type_str(t),
                None => forall|t: TransactionType| text@ != type_str(t),
            },
    {
        if crate::json::str_eq(text, "raw") {
            Some(TransactionType::Raw)
        } else if crate::json::str_eq(text, "message") {
            Some(TransactionType::Message)
        } else if crate::json::str_eq(text, "announcement") {
            Some(TransactionType::Announcement)
        } else {
            None
        }
    }
}

/// Mathematical model of a transaction body.
#[verifier::ext_equal]
pub enum BodyView {
    Raw(Seq<u8>),
    Message { from: Seq<u8>, to: Seq<u8>, format: MessageEncoding, content: Seq<char> },
    Announcement { from: Seq<u8>, format: MessageEncoding, content: Seq<char> },
}

/// The payload of a transaction.
#[derive(Debug)]
pub enum TransactionBody {
    /// An opaque byte string.
    Raw(Vec<u8>),
    /// Encoded content addressed from one key to another.
    Message { from: PublicKey, to: PublicKey, format: MessageEncoding, content: String },
    /// Encoded content published by one key.
    Announcement { from: PublicKey, format: MessageEncoding, content: String },
}

impl View for TransactionBody {
    type V = BodyView;

    open spec fn view(&self) -> BodyView {
        match self {
            TransactionBody::Raw(bytes) => BodyView::Raw(bytes@),
            TransactionBody::Message { from, to, format, content } => BodyView::Message {
                from: from@,
                to: to@,
                format: *format,
                content: content@,
            },
            TransactionBody::Announcement { from, format, content } => BodyView::Announcement {
                from: from@,
                format: *format,
                content: content@,
            },
        }
    }
}

/// The bytes a body's digest is computed over.
pub open spec fn body_hash_preimage(b: BodyView) -> Seq<u8> {
    match b {
        BodyView::Raw(bytes) => bytes,
        BodyView::Message { from, to, format, content } => from + to + encode_utf8(
            encoding_str(format),
        ) + encode_utf8(content),
        BodyView::Announcement { from, format, content } => from + encode_utf8(
            encoding_str(format),
        ) + encode_utf8(content),
    }
}

/// The digest of a body.
pub open spec fn body_hash(b: BodyView) -> Seq<u8> {
    blake3_of(body_hash_preimage(b))
}

impl TransactionBody {
    /// The kind of this body.
    pub fn transaction_type(&self) -> (r: TransactionType)
        ensures
            r == (match self@ {
                BodyView::Raw(_) => TransactionType::Raw,
                BodyView::Message { .. } => TransactionType::Message,
                BodyView::Announcement { .. } => TransactionType::Announcement,
            }),
    {
        match self {
            TransactionBody::Raw(_) => TransactionType::Raw,
            TransactionBody::Message { .. } => TransactionType::Message,
            TransactionBody::Announcement { .. } => TransactionType::Announcement,
        }
    }

    /// The digest of this body.
    pub fn hash(&self) -> (r: crate::hash::Hash)
        ensures
            r@ == body_hash(self@),
    {
        let mut buf: Vec<u8> = Vec::new();
        match self {
            TransactionBody::Raw(bytes) => {
                push_bytes(&mut buf, bytes.as_slice());
            },
            TransactionBody::Message { from, to, format, content } => {
                push_bytes(&mut buf, from.as_slice());
                push_bytes(&mut buf, to.as_slice());
                push_bytes(&mut buf, format.as_str().as_bytes());
                push_bytes(&mut buf, content.as_str().as_bytes());
            },
            TransactionBody::Announcement { from, format, content } => {
                push_bytes(&mut buf, from.as_slice());
                push_bytes(&mut buf, format.as_str().as_bytes());
                push_bytes(&mut buf, content.as_str().as_bytes());
            },
        }
        proof {
            assert(buf@ =~= body_hash_preimage(self@));
        }
        crate::hash::Hash::hash_slice(buf.as_slice())
    }
}

impl Clone for TransactionBody {
    /// An identical body.
    fn clone(&self) -> (res: Self)
        ensures
            res@ == self@,
    {
        match self {
            TransactionBody::Raw(bytes) => TransactionBody::Raw(crate::bytes::clone_bytes(bytes)),
            TransactionBody::Message { from, to, format, content } => TransactionBody::Message {
                from: from.clone(),
                to: to.clone(),
                format: *format,
                content: content.clone(),
            },
            TransactionBody::Announcement { from, format, content } => {
                TransactionBody::Announcement {
                    from: from.clone(),
                    format: *format,
                    content: content.clone(),
                }
            },
        }
    }
}

impl PartialEq for TransactionBody {
    fn eq(&self, other: &TransactionBody) -> (r: bool) {
        match (self, other) {
            (TransactionBody::Raw(a), TransactionBody::Raw(b)) => crate::hash::cmp_slices(
                a.as_slice(),
                b.as_slice(),
            ),
            (
                TransactionBody::Message { from: f1, to: t1, format: e1, content: c1 },
                TransactionBody::Message { from: f2, to: t2, format: e2, content: c2 },
            ) => *f1 == *f2 && *t1 == *t2 && *e1 == *e2 && *c1 == *c2,
            (
                TransactionBody::Announcement { from: f1, format: e1, content: c1 },
                TransactionBody::Announcement { from: f2, format: e2, content: c2 },
            ) => *f1 == *f2 && *e1 == *e2 && *c1 == *c2,
            _ => false,
        }
    }
}

impl Eq for TransactionBody {

}

impl vstd::std_specs::cmp::PartialEqSpecImpl for TransactionBody {
    open spec fn obeys_eq_spec() -> bool {
        true
    }

    open spec fn eq_spec(&self, other: &TransactionBody) -> bool {
        self@ == other@
    }
}

/// Mathematical model of a transaction.
#[verifier::ext_equal]
pub struct TxView {
    pub hash: Seq<u8>,
    pub random_seed: u64,
    pub created_at: u64,
    pub author: Seq<u8>,
    pub body: BodyView,
    pub sign: Seq<u8>,
}

/// A signed transaction.
#[derive(Debug)]
pub struct Transaction {
    pub(crate) hash: crate::hash::Hash,
    pub(crate) random_seed: u64,
    pub(crate) created_at: u64,
    pub(crate) author: PublicKey,
    pub(crate) body: TransactionBody,
    pub(crate) sign: Vec<u8>,
}

impl View for Transaction {
    type V = TxView;

    closed spec fn view(&self) -> TxView {
        TxView {
            hash: self.hash@,
            random_seed: self.random_seed,
            created_at: self.created_at,
            author: self.author@,
            body: self.body@,
            sign: self.sign@,
        }
    }
}

/// The bytes a transaction's digest is computed over.
pub open spec fn tx_hash_preimage(t: TxView) -> Seq<u8> {
    u64_be(t.random_seed) + t.author + blake3_of(body_hash_preimage(t.body))
}

/// The digest a transaction must store.
pub open spec fn tx_hash(t: TxView) -> Seq<u8> {
    blake3_of(tx_hash_preimage(t))
}

/// How far a stored creation time may run ahead of the clock.
pub const CLOCK_SKEW_TOLERANCE: u64 = 86400;

/// What validating a transaction found.
#[derive(Debug)]
pub enum TransactionValidationResult {
    /// The creation time runs further ahead of the clock than allowed.
    InvalidCreationTime { created_at: u64 },
    /// The stored digest is not the digest of the content.
    InvalidHash { stored: crate::hash::Hash, calculated: crate::hash::Hash },
    /// The author does not accept the signature over the digest.
    InvalidSign { hash: crate::hash::Hash, sign: Vec<u8> },
    Valid,
}

impl TransactionValidationResult {
    /// Whether validation found nothing wrong.
    pub fn is_valid(&self) -> (r: bool)
        ensures
            r == (*self is Valid),
    {
        match self {
            TransactionValidationResult::Valid => true,
            _ => false,
        }
    }
}

/// Validation could not run to a verdict.
#[derive(Debug)]
pub enum TransactionValidationError {
    /// The signature check failed before examining the signature.
    SignVerificationError(CryptoError),
}

/// What validating transaction `t` against clock reading `now` must
/// return.
pub open spec fn tx_validate_result(
    t: TxView,
    now: u64,
    r: Result<TransactionValidationResult, TransactionValidationError>,
) -> bool {
    if t.created_at > now + CLOCK_SKEW_TOLERANCE {
        r matches Ok(TransactionValidationResult::InvalidCreationTime { created_at })
            && created_at == t.created_at
    } else if t.hash != tx_hash(t) {
        r matches Ok(TransactionValidationResult::InvalidHash { stored, calculated })
            && stored@ == t.hash && calculated@ == tx_hash(t)
    } else if !pk_bytes_ok(t.author) {
        r is Err
    } else if !sig_valid(t.author, t.hash, t.sign) {
        r matches Ok(TransactionValidationResult::InvalidSign { hash, sign }) && hash@ == t.hash
            && sign@ == t.sign
    } else {
        r matches Ok(TransactionValidationResult::Valid)
    }
}

impl Transaction {
    /// A transaction assembled from stored parts, as read back from a
    /// document or a store; validation says whether they cohere.
    pub(crate) fn assemble(
        hash: crate::hash::Hash,
        random_seed: u64,
        created_at: u64,
        author: PublicKey,
        body: TransactionBody,
        sign: Vec<u8>,
    ) -> (t: Transaction)
        ensures
            t@ == (TxView {
                hash: hash@,
                random_seed,
                created_at,
                author: author@,
                body: body@,
                sign: sign@,
            }),
    {
        Transaction { hash, random_seed, created_at, author, body, sign }
    }

    /// The stored creation time, in UTC seconds.
    pub fn created_at(&self) -> (r: u64)
        ensures
            r == self@.created_at,
    {
        self.created_at
    }

    /// The stored random seed.
    pub fn random_seed(&self) -> (r: u64)
        ensures
            r == self@.random_seed,
    {
        self.random_seed
    }

    /// The author of the transaction.
    pub fn author(&self) -> (r: &PublicKey)
        ensures
            r@ == self@.author,
    {
        &self.author
    }

    /// The payload of the transaction.
    pub fn body(&self) -> (r: &TransactionBody)
        ensures
            r@ == self@.body,
    {
        &self.body
    }

    /// The stored signature.
    pub fn sign(&self) -> (r: &[u8])
        ensures
            r@ == self@.sign,
    {
        self.sign.as_slice()
    }

    /// The stored digest, as stored: validation says whether it binds.
    pub fn get_hash(&self) -> (r: crate::hash::Hash)
        ensures
            r@ == self@.hash,
    {
        self.hash
    }

    /// The digest of the transaction's content.
    pub fn calculate_hash(&self) -> (r: crate::hash::Hash)
        ensures
            r@ == tx_hash(self@),
    {
        let body_digest = self.body.hash();
        let mut buf: Vec<u8> = Vec::new();
        push_u64_be(&mut buf, self.random_seed);
        push_bytes(&mut buf, self.author.as_slice());
        push_bytes(&mut buf, body_digest.as_bytes().as_slice());
        proof {
            assert(buf@ =~= tx_hash_preimage(self@));
        }
        crate::hash::Hash::hash_slice(buf.as_slice())
    }

    /// Validate against the clock reading `now`: creation time within
    /// tolerance, stored digest equal to the content's digest, and the
    /// signature over the digest accepted by the author.
    pub fn validate_at(&self, now: u64) -> (r: Result<
        TransactionValidationResult,
        TransactionValidationError,
    >)
        ensures
            tx_validate_result(self@, now, r),
    {
        if self.created_at > now.saturating_add(CLOCK_SKEW_TOLERANCE) {
            return Ok(
                TransactionValidationResult::InvalidCreationTime { created_at: self.created_at },
            );
        }
        let calculated = self.calculate_hash();
        if !(self.hash == calculated) {
            return Ok(
                TransactionValidationResult::InvalidHash { stored: self.hash, calculated },
            );
        }
        let digest_bytes = self.hash.as_bytes();
        match self.author.verify_signature(digest_bytes.as_slice(), self.sign.as_slice()) {
            Ok(true) => Ok(TransactionValidationResult::Valid),
            Ok(false) => Ok(
                TransactionValidationResult::InvalidSign {
                    hash: self.hash,
                    sign: crate::bytes::clone_bytes(&self.sign),
                },
            ),
            Err(e) => Err(TransactionValidationError::SignVerificationError(e)),
        }
    }

    /// Validate against the clock now.
    pub fn validate(&self) -> (r: Result<
        TransactionValidationResult,
        TransactionValidationError,
    >)
        ensures
            exists|now: u64| tx_validate_result(self@, now, r),
    {
        let now = now_seconds();
        let r = self.validate_at(now);
        proof {
            assert(tx_validate_result(self@, now, r));
        }
        r
    }
}

impl Clone for Transaction {
    /// An identical transaction.
    fn clone(&self) -> (res: Self)
        ensures
            res@ == self@,
    {
        Transaction {
            hash: self.hash,
            random_seed: self.random_seed,
            created_at: self.created_at,
            author: self.author.clone(),
            body: self.body.clone(),
            sign: crate::bytes::clone_bytes(&self.sign),
        }
    }
}

impl PartialEq for Transaction {
    fn eq(&self, other: &Transaction) -> (r: bool) {
        self.hash == other.hash && self.random_seed == other.random_seed && self.created_at
            == other.created_at && self.author == other.author && self.body == other.body
            && crate::hash::cmp_slices(self.sign.as_slice(), other.sign.as_slice())
    }
}

impl Eq for Transaction {

}

impl vstd::std_specs::cmp::PartialEqSpecImpl for Transaction {
    open spec fn obeys_eq_spec() -> bool {
        true
    }

    open spec fn eq_spec(&self, other: &Transaction) -> bool {
        self@ == other@
    }
}

/// Accumulates a transaction's content until it is signed.
#[derive(Debug)]
pub struct TransactionBuilder {
    random_seed: u64,
    created_at: u64,
    body: Option<TransactionBody>,
}

impl View for TransactionBuilder {
    type V = (u64, u64, Option<BodyView>);

    closed spec fn view(&self) -> (u64, u64, Option<BodyView>) {
        (
            self.random_seed,
            self.created_at,
            match self.body {
                Some(b) => Some(b@),
                None => None,
            },
        )
    }
}

impl TransactionBuilder {
    /// A builder stamped with a fresh seed and the clock.
    pub fn new() -> (r: TransactionBuilder)
        ensures
            r@.2 is None,
    {
        TransactionBuilder { random_seed: random_u64(), created_at: now_seconds(), body: None }
    }

    /// The builder with its payload set.
    pub fn with_body(self, body: TransactionBody) -> (r: TransactionBuilder)
        ensures
            r@ == (self@.0, self@.1, Some(body@)),
    {
        TransactionBuilder { random_seed: self.random_seed, created_at: self.created_at, body: Some(body) }
    }

    /// Sign the accumulated content: the transaction's digest binds
    /// its fields and the signature is one its author accepts.  With
    /// no payload set there is nothing to sign.  The payload is
    /// consumed either way, so signing again returns nothing until a
    /// new payload is set.
    pub fn sign(&mut self, author: &SecretKey) -> (r: Option<Transaction>)
        ensures
            final(self)@.0 == old(self)@.0,
            final(self)@.1 == old(self)@.1,
            final(self)@.2 is None,
            match old(self)@.2 {
                Some(bv) => r matches Some(t) && t@.random_seed == old(self)@.0 && t@.created_at
                    == old(self)@.1 && t@.author == pk_of(author@) && pk_bytes_ok(t@.author)
                    && t@.body == bv && t@.hash == tx_hash(t@) && t@.hash.len() == 32 && sig_valid(
                    t@.author,
                    t@.hash,
                    t@.sign,
                ),
                None => r is None,
            },
    {
        let body = match self.body.take() {
            Some(b) => b,
            None => {
                return None;
            },
        };
        let mut transaction = Transaction {
            hash: crate::hash::Hash::min_value(),
            random_seed: self.random_seed,
            created_at: self.created_at,
            author: author.public_key(),
            body,
            sign: Vec::new(),
        };
        let hash = transaction.calculate_hash();
        let hash_bytes = hash.as_bytes();
        let sign = author.create_signature(hash_bytes.as_slice());
        transaction.hash = hash;
        transaction.sign = sign;
        proof {
            assert(tx_hash_preimage(transaction@) =~= tx_hash_preimage(
                TxView {
                    hash: hash@,
                    sign: transaction.sign@,
                    ..transaction@
                },
            ));
        }
        Some(transaction)
    }
}


/// A transaction's stored digest is always exactly 32 bytes.
pub proof fn lemma_tx_hash_len(t: &Transaction)
    ensures
        t@.hash.len() == 32,
{
    crate::hash::lemma_hash_len(t.hash);
}

/// A wrong stored digest is always called out: when the creation time
/// passes but the stored digest is not the content's digest,
/// validation reports the digest mismatch and nothing else.
pub proof fn lemma_hash_binding(
    t: TxView,
    now: u64,
    r: Result<TransactionValidationResult, TransactionValidationError>,
)
    requires
        tx_validate_result(t, now, r),
        t.created_at <= now + CLOCK_SKEW_TOLERANCE,
        t.hash != tx_hash(t),
    ensures
        r matches Ok(TransactionValidationResult::InvalidHash { stored, calculated }) && stored@
            == t.hash && calculated@ == tx_hash(t),
{
}

/// A signature the author does not accept is always called out: when
/// the other checks pass but the stored signature fails the author's
/// verification, validation reports the signature and nothing else.
/// Whether any byte string other than the true signature fails that
/// verification is the signature scheme's own promise, outside this
/// statement.
pub proof fn lemma_sign_binding(
    t: TxView,
    now: u64,
    r: Result<TransactionValidationResult, TransactionValidationError>,
)
    requires
        tx_validate_result(t, now, r),
        t.created_at <= now + CLOCK_SKEW_TOLERANCE,
        t.hash == tx_hash(t),
        pk_bytes_ok(t.author),
        !sig_valid(t.author, t.hash, t.sign),
    ensures
        r matches Ok(TransactionValidationResult::InvalidSign { hash, sign }) && hash@ == t.hash
            && sign@ == t.sign,
{
}

} // verus!
