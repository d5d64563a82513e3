//! The shard overlay: a publish/subscribe mesh driven one decision at
//! a time.
//!
//! The overlay itself performs no transport work.  Each handler takes
//! an inbound event and the clock, moves the state, and hands back the
//! sends the caller must perform; a failed send is reported back by
//! dropping the peer.

use vstd::prelude::*;

use crate::backend::{BasicShardBackend, ShardHooks};
use crate::block::{Block, BlockView};
use crate::encoding::{CompressionLevel, MessageEncoding};
use crate::message::{MemberView, ShardMember, ShardMessage, ShardUpdate};
use crate::transaction::{Transaction, TxView};

verus! {

/// The overlay's tunables.
#[derive(Debug, Clone, Copy, PartialEq, Eq, Structural)]
pub struct ShardOptions {
    /// Encoding used for envelopes on the transport.
    pub encoding_format: MessageEncoding,
    /// Compression level used for envelopes on the transport.
    pub compression_level: CompressionLevel,
    /// Whether inbound subscriptions are admitted at all.
    pub accept_subscriptions: bool,
    /// Most members that may subscribe to us.
    pub max_subscribers: usize,
    /// Most members we may subscribe to.
    pub max_subscriptions: usize,
    /// Whether peers' status reports are written back to their records.
    pub remember_subscribers_statuses: bool,
    /// Whether a refused subscriber is sent our subscribers instead.
    pub announce_members_on_failed_subscription: bool,
    /// Whether announced members of our publishers are subscribed to.
    pub subscribe_on_announced_members: bool,
    /// Whether announced members are picked at random rather than in
    /// announcement order.
    pub randomly_choose_announced_members: bool,
    /// Whether a status report is answered with missing blocks.
    pub send_blocks_diff_on_statuses: bool,
    /// Most blocks in one such answer.
    pub max_blocks_diff_size: usize,
    /// Whether a status report is answered with missing transactions.
    pub send_transactions_diff_on_statuses: bool,
    /// Most transactions in one such answer.
    pub max_transactions_diff_size: usize,
    /// Most processed block digests remembered for loop suppression.
    pub max_handled_blocks_memory: usize,
    /// Most processed transaction digests remembered for loop
    /// suppression.
    pub max_handled_transactions_memory: usize,
    /// Seconds of heartbeat silence after which a peer is dropped.
    pub max_in_heartbeat_delay: u64,
    /// Seconds between our own heartbeats.
    pub min_out_heartbeat_delay: u64,
    /// Seconds between our own status reports.
    pub min_out_status_delay: u64,
}

impl Default for ShardOptions {
    /// The documented defaults.
    fn default() -> (r: Self)
        ensures
            r.accept_subscriptions == true,
            r.max_subscribers == 32,
            r.max_subscriptions == 32,
            r.remember_subscribers_statuses == true,
            r.announce_members_on_failed_subscription == true,
            r.subscribe_on_announced_members == true,
            r.randomly_choose_announced_members == true,
            r.send_blocks_diff_on_statuses == true,
            r.max_blocks_diff_size == 16,
            r.send_transactions_diff_on_statuses == true,
            r.max_transactions_diff_size == 64,
            r.max_handled_blocks_memory == 32768,
            r.max_handled_transactions_memory == 131072,
            r.max_in_heartbeat_delay == 300,
            r.min_out_heartbeat_delay == 120,
            r.min_out_status_delay == 300,
    {
        ShardOptions {
            encoding_format: MessageEncoding::Base64,
            compression_level: CompressionLevel::Balanced,
            accept_subscriptions: true,
            max_subscribers: 32,
            max_subscriptions: 32,
            remember_subscribers_statuses: true,
            announce_members_on_failed_subscription: true,
            subscribe_on_announced_members: true,
            randomly_choose_announced_members: true,
            send_blocks_diff_on_statuses: true,
            max_blocks_diff_size: 16,
            send_transactions_diff_on_statuses: true,
            max_transactions_diff_size: 64,
            max_handled_blocks_memory: 32768,
            max_handled_transactions_memory: 131072,
            max_in_heartbeat_delay: 300,
            min_out_heartbeat_delay: 120,
            min_out_status_delay: 300,
        }
    }
}

/// Mathematical model of a peer's record.
#[verifier::ext_equal]
pub struct StatusView {
    pub head_block: Option<BlockView>,
    pub tail_block: Option<BlockView>,
    pub staged_transactions: Seq<Seq<u8>>,
    pub last_in_heartbeat: u64,
    pub last_out_heartbeat: u64,
    pub last_out_status: u64,
}

/// What we last learned of one peer, and when we last spoke.
#[derive(Debug)]
pub struct ShardMemberStatus {
    pub head_block: Option<Block>,
    pub tail_block: Option<Block>,
    pub staged_transactions: Vec<crate::hash::Hash>,
    pub last_in_heartbeat: u64,
    pub last_out_heartbeat: u64,
    pub last_out_status: u64,
}

impl View for ShardMemberStatus {
    type V = StatusView;

    open spec fn view(&self) -> StatusView {
        StatusView {
            head_block: match self.head_block {
                Some(b) => Some(b@),
                None => None,
            },
            tail_block: match self.tail_block {
                Some(b) => Some(b@),
                None => None,
            },
            staged_transactions: Seq::new(
                self.staged_transactions@.len(),
                |i: int| self.staged_transactions@[i]@,
            ),
            last_in_heartbeat: self.last_in_heartbeat,
            last_out_heartbeat: self.last_out_heartbeat,
            last_out_status: self.last_out_status,
        }
    }
}

/// Whether a peer with this record already knows a block: inside the
/// reported head-to-tail range; with one endpoint only, the same
/// digest; with none, unknown.
pub open spec fn spec_block_known(st: StatusView, b: BlockView) -> bool {
    match (st.head_block, st.tail_block) {
        (Some(h), Some(t)) => h.number <= b.number && b.number <= t.number,
        (Some(k), None) => k.hash == b.hash,
        (None, Some(k)) => k.hash == b.hash,
        (None, None) => false,
    }
}

/// Whether a peer with this record already stages a transaction.
pub open spec fn spec_tx_known(st: StatusView, t: TxView) -> bool {
    exists|i: int| 0 <= i < st.staged_transactions.len() && st.staged_transactions[i] == t.hash
}

impl ShardMemberStatus {
    /// A fresh record: nothing known, every timer long overdue.
    pub fn new() -> (r: ShardMemberStatus)
        ensures
            r@.head_block is None,
            r@.tail_block is None,
            r@.staged_transactions.len() == 0,
            r@.last_in_heartbeat == 0,
            r@.last_out_heartbeat == 0,
            r@.last_out_status == 0,
    {
        let r = ShardMemberStatus {
            head_block: None,
            tail_block: None,
            staged_transactions: Vec::new(),
            last_in_heartbeat: 0,
            last_out_heartbeat: 0,
            last_out_status: 0,
        };
        proof {
            assert(r@.staged_transactions =~= Seq::<Seq<u8>>::empty());
        }
        r
    }

    /// Whether the peer already knows this block.
    pub fn is_block_known(&self, block: &Block) -> (r: bool)
        ensures
            r == spec_block_known(self@, block@),
    {
        match (&self.head_block, &self.tail_block) {
            (Some(h), Some(t)) => h.number() <= block.number() && block.number() <= t.number(),
            (Some(k), None) => k.get_hash() == block.get_hash(),
            (None, Some(k)) => k.get_hash() == block.get_hash(),
            (None, None) => false,
        }
    }

    /// Whether the peer already stages this transaction.
    pub fn is_transaction_known(&self, transaction: &Transaction) -> (r: bool)
        ensures
            r == spec_tx_known(self@, transaction@),
    {
        let h = transaction.get_hash();
        let n = self.staged_transactions.len();
        let mut i: usize = 0;
        while i < n
            invariant
                n == self.staged_transactions@.len(),
                i <= n,
                self@.staged_transactions.len() == n,
                forall|j: int|
                    0 <= j < n ==> self@.staged_transactions[j] == self.staged_transactions@[j]@,
                h@ == transaction@.hash,
                forall|j: int| 0 <= j < i ==> self@.staged_transactions[j] != transaction@.hash,
            decreases n - i,
        {
            if self.staged_transactions[i] == h {
                proof {
                    assert(self@.staged_transactions[i as int] == transaction@.hash);
                }
                return true;
            }
            i = i + 1;
        }
        false
    }
}

/// What the caller must do after a handler ran.
#[derive(Debug)]
pub enum ShardAction {
    /// Send; a failure is tolerated.
    Send { member: ShardMember, message: ShardMessage },
    /// Send; on failure call `drop_peer` for the member.
    SendOrDrop { member: ShardMember, message: ShardMessage },
    /// Run the subscribe flow toward the member.
    SubscribeTo { member: ShardMember },
}


/// Whether a peer list holds this member.
pub open spec fn has_peer(s: Seq<(ShardMember, ShardMemberStatus)>, m: MemberView) -> bool {
    exists|i: int| 0 <= i < s.len() && s[i].0@ == m
}

/// Whether a peer list holds no member twice.
pub open spec fn peers_unique(s: Seq<(ShardMember, ShardMemberStatus)>) -> bool {
    forall|i: int, j: int| 0 <= i < j < s.len() ==> s[i].0@ != s[j].0@
}

/// Removing one entry keeps a duplicate-free list duplicate-free.
proof fn lemma_removed_unique(
    pre: Seq<(ShardMember, ShardMemberStatus)>,
    post: Seq<(ShardMember, ShardMemberStatus)>,
    i: int,
)
    requires
        0 <= i < pre.len(),
        post == pre.subrange(0, i) + pre.subrange(i + 1, pre.len() as int),
        peers_unique(pre),
    ensures
        peers_unique(post),
{
    assert forall|p: int, q: int|
        0 <= p < q < post.len() implies post[p].0@ != post[q].0@ by {
        let bp = if p < i {
            p
        } else {
            p + 1
        };
        let bq = if q < i {
            q
        } else {
            q + 1
        };
        assert(post[p] == pre[bp]);
        assert(post[q] == pre[bq]);
    }
}

/// The admission rule for an inbound subscription.
pub open spec fn subscribe_admitted<H: ShardHooks>(pre: Shard<H>, member: MemberView) -> bool {
    pre.options.accept_subscriptions && pre.subscribers@.len() < pre.options.max_subscribers
        && !has_peer(pre.subscriptions@, member)
}

/// What an inbound subscription does: admitted exactly by the rule;
/// an admitted sender becomes the last subscriber with its inbound
/// heartbeat stamped now and any earlier record kept; every other
/// member's presence is untouched, and nothing else changes.
pub open spec fn subscribe_post<H: ShardHooks>(
    pre: Shard<H>,
    post: Shard<H>,
    member: MemberView,
    now: u64,
    r: bool,
) -> bool {
    &&& r == subscribe_admitted(pre, member)
    &&& post.subscriptions == pre.subscriptions
    &&& post.options == pre.options
    &&& post.backend == pre.backend
    &&& post.handled_blocks == pre.handled_blocks
    &&& post.handled_transactions == pre.handled_transactions
    &&& (pre.caps_ok() ==> post.caps_ok())
    &&& (!r ==> post.subscribers == pre.subscribers)
    &&& (r ==> {
        &&& post.subscribers@.len() <= pre.subscribers@.len() + 1
        &&& post.subscribers@.len() >= 1
        &&& post.subscribers@.last().0@ == member
        &&& post.subscribers@.last().1@.last_in_heartbeat == now
        &&& has_peer(post.subscribers@, member)
        &&& (forall|m: MemberView|
            m != member ==> has_peer(post.subscribers@, m) == has_peer(pre.subscribers@, m))
        &&& (has_peer(pre.subscribers@, member) ==> exists|j: int|
            0 <= j < pre.subscribers@.len() && (#[trigger] pre.subscribers@[j]).0@ == member
                && post.subscribers@.last().1@ == (StatusView {
                last_in_heartbeat: now,
                ..pre.subscribers@[j].1@
            }))
        &&& (!has_peer(pre.subscribers@, member) ==> post.subscribers@.last().1@ == (StatusView {
            head_block: None,
            tail_block: None,
            staged_transactions: Seq::empty(),
            last_in_heartbeat: now,
            last_out_heartbeat: 0,
            last_out_status: 0,
        }))
    })
}

/// What an inbound heartbeat does: a subscriber's record gets its
/// inbound stamp set to now and keeps everything else; from anyone
/// else nothing changes.
pub open spec fn heartbeat_post<H: ShardHooks>(
    pre: Shard<H>,
    post: Shard<H>,
    member: MemberView,
    now: u64,
) -> bool {
    &&& post.subscriptions == pre.subscriptions
    &&& post.options == pre.options
    &&& post.backend == pre.backend
    &&& post.handled_blocks == pre.handled_blocks
    &&& post.handled_transactions == pre.handled_transactions
    &&& post.subscribers@.len() == pre.subscribers@.len()
    &&& (!has_peer(pre.subscribers@, member) ==> post.subscribers == pre.subscribers)
    &&& (has_peer(pre.subscribers@, member) ==> exists|i: int|
        0 <= i < pre.subscribers@.len() && (#[trigger] pre.subscribers@[i]).0@ == member && (forall|
            j: int,
        |
            (0 <= j < pre.subscribers@.len() && j != i) ==> #[trigger] post.subscribers@[j]
                == pre.subscribers@[j]) && post.subscribers@[i].0 == pre.subscribers@[i].0
            && post.subscribers@[i].1@ == (StatusView {
            last_in_heartbeat: now,
            ..pre.subscribers@[i].1@
        }))
}

/// The position of this member in a peer list, if present.
fn find_peer(list: &Vec<(ShardMember, ShardMemberStatus)>, member: &ShardMember) -> (r: Option<
    usize,
>)
    ensures
        match r {
            Some(i) => i < list@.len() && list@[i as int].0@ == member@,
            None => !has_peer(list@, member@),
        },
{
    let n = list.len();
    let mut i: usize = 0;
    while i < n
        invariant
            n == list@.len(),
            i <= n,
            forall|j: int| 0 <= j < i ==> list@[j].0@ != member@,
        decreases n - i,
    {
        if list[i].0 == *member {
            return Some(i);
        }
        i = i + 1;
    }
    None
}

/// Remove this member from a peer list, if present.
fn remove_peer(list: &mut Vec<(ShardMember, ShardMemberStatus)>, member: &ShardMember) -> (r:
    bool)
    ensures
        final(list)@.len() <= old(list)@.len(),
        !has_peer(final(list)@, member@),
        forall|m: MemberView|
            has_peer(final(list)@, m) ==> has_peer(old(list)@, m),
        forall|m: MemberView|
            (has_peer(old(list)@, m) && m != member@) ==> has_peer(final(list)@, m),
        r == has_peer(old(list)@, member@),
        forall|i: int|
            0 <= i < final(list)@.len() ==> old(list)@.contains(#[trigger] final(list)@[i]),
        peers_unique(old(list)@) ==> peers_unique(final(list)@),
{
    let ghost before = list@;
    let mut i: usize = 0;
    let mut removed = false;
    proof {
        assert forall|k: int|
            0 <= k < list@.len() implies before.contains(#[trigger] list@[k]) by {
            assert(before[k] == list@[k]);
        }
    }
    while i < list.len()
        invariant
            i <= list@.len(),
            list@.len() <= before.len(),
            forall|j: int| 0 <= j < i ==> list@[j].0@ != member@,
            forall|m: MemberView| has_peer(list@, m) ==> has_peer(before, m),
            forall|m: MemberView|
                (has_peer(before, m) && m != member@) ==> has_peer(list@, m),
            removed == (list@.len() < before.len()),
            removed ==> has_peer(before, member@),
            !removed ==> list@ == before,
            forall|k: int| 0 <= k < list@.len() ==> before.contains(#[trigger] list@[k]),
            peers_unique(before) ==> peers_unique(list@),
        decreases list@.len() - i,
    {
        if list[i].0 == *member {
            let ghost cur = list@;
            list.remove(i);
            proof {
                assert(list@ =~= cur.subrange(0, i as int) + cur.subrange(
                    i + 1,
                    cur.len() as int,
                ));
                assert(cur[i as int].0@ == member@);
                assert forall|m: MemberView| has_peer(list@, m) implies has_peer(before, m) by {
                    let x = choose|x: int| 0 <= x < list@.len() && list@[x].0@ == m;
                    if x < i {
                        assert(cur[x].0@ == m);
                    } else {
                        assert(cur[x + 1].0@ == m);
                    }
                }
                assert forall|m: MemberView|
                    (has_peer(cur, m) && m != member@) implies has_peer(list@, m) by {
                    let x = choose|x: int| 0 <= x < cur.len() && cur[x].0@ == m;
                    if x < i {
                        assert(list@[x].0@ == m);
                    } else {
                        assert(x != i);
                        assert(list@[x - 1].0@ == m);
                    }
                }
                assert forall|k: int|
                    0 <= k < list@.len() implies before.contains(#[trigger] list@[k]) by {
                    if k < i {
                        assert(cur[k] == list@[k]);
                        assert(cur.contains(cur[k]));
                    } else {
                        assert(cur[k + 1] == list@[k]);
                        assert(cur.contains(cur[k + 1]));
                    }
                }
                if peers_unique(before) {
                    lemma_removed_unique(cur, list@, i as int);
                }
            }
            removed = true;
        } else {
            i = i + 1;
        }
    }
    removed
}


/// What remembering a status report does to a peer list: the one
/// entry for the sender carries exactly the reported endpoints and
/// staged digests, with its timers untouched; every other entry is
/// untouched.
pub open spec fn status_recorded(
    pre: Seq<(ShardMember, ShardMemberStatus)>,
    post: Seq<(ShardMember, ShardMemberStatus)>,
    sender: MemberView,
    head: Option<BlockView>,
    tail: Option<BlockView>,
    staged: Seq<Seq<u8>>,
) -> bool {
    post.len() == pre.len() && exists|i: int|
        0 <= i < pre.len() && (#[trigger] pre[i]).0@ == sender && (forall|j: int|
            (0 <= j < pre.len() && j != i) ==> #[trigger] post[j] == pre[j]) && post[i].0
            == pre[i].0 && post[i].1@ == (StatusView {
            head_block: head,
            tail_block: tail,
            staged_transactions: staged,
            last_in_heartbeat: pre[i].1@.last_in_heartbeat,
            last_out_heartbeat: pre[i].1@.last_out_heartbeat,
            last_out_status: pre[i].1@.last_out_status,
        })
}

/// Whether one surviving entry descends from a pre-pass entry: same
/// member, alive at `now`, with its due outbound stamps set to now.
pub open spec fn tick_entry_from(
    pre: Seq<(ShardMember, ShardMemberStatus)>,
    entry: (ShardMember, ShardMemberStatus),
    now: u64,
    opts: ShardOptions,
) -> bool {
    exists|k: int|
        0 <= k < pre.len() && entry.0@ == (#[trigger] pre[k]).0@ && peer_alive(
            pre[k].1@,
            now,
            opts,
        ) && entry.1@ == ticked_status(pre[k].1@, now, opts)
}

/// Whether a surviving entry descends from some entry of `pre`: same
/// member, alive at `now`, with its due outbound stamps set to now.
pub open spec fn tick_descended(
    pre: Seq<(ShardMember, ShardMemberStatus)>,
    entry: (ShardMember, ShardMemberStatus),
    now: u64,
    opts: ShardOptions,
) -> bool {
    exists|e: (ShardMember, ShardMemberStatus)|
        #[trigger] pre.contains(e) && e.0@ == entry.0@ && peer_alive(e.1@, now, opts) && entry.1@
            == ticked_status(e.1@, now, opts)
}

/// What one timer pass over a peer list does.  Exactly the peers
/// whose inbound heartbeat is recent enough survive, in order, each
/// with its due outbound stamps set to now; every action appended is
/// a heartbeat or the given status report to a surviving peer, one of
/// each for every survivor whose respective timer was due.
pub open spec fn tick_list_post(
    pre: Seq<(ShardMember, ShardMemberStatus)>,
    post: Seq<(ShardMember, ShardMemberStatus)>,
    acts_pre: Seq<ShardAction>,
    acts_post: Seq<ShardAction>,
    now: u64,
    opts: ShardOptions,
    status_message: crate::message::MessageView,
) -> bool {
    &&& post.len() <= pre.len()
    &&& (peers_unique(pre) ==> peers_unique(post))
    &&& (forall|j: int|
        0 <= j < post.len() ==> exists|k: int|
            0 <= k < pre.len() && (#[trigger] post[j]).0@ == (#[trigger] pre[k]).0@ && peer_alive(
                pre[k].1@,
                now,
                opts,
            ) && post[j].1@ == ticked_status(pre[k].1@, now, opts) && (out_heartbeat_due(
                pre[k].1@,
                now,
                opts,
            ) ==> exists|a: int|
                acts_pre.len() <= a < acts_post.len() && (#[trigger] acts_post[a]
                    matches ShardAction::SendOrDrop { member, message } && member@ == post[j].0@
                    && message@ == crate::message::MessageView::Heartbeat)) && (out_status_due(
                pre[k].1@,
                now,
                opts,
            ) ==> exists|a: int|
                acts_pre.len() <= a < acts_post.len() && (#[trigger] acts_post[a]
                    matches ShardAction::SendOrDrop { member, message } && member@ == post[j].0@
                    && message@ == status_message)))
    &&& (forall|j: int| 0 <= j < post.len() ==> tick_entry_from(pre, #[trigger] post[j], now, opts))
    &&& (forall|k: int|
        (0 <= k < pre.len() && peer_alive((#[trigger] pre[k]).1@, now, opts)) ==> has_peer(
            post,
            pre[k].0@,
        ))
    &&& acts_post.len() >= acts_pre.len()
    &&& (forall|a: int| 0 <= a < acts_pre.len() ==> #[trigger] acts_post[a] == acts_pre[a])
    &&& (forall|a: int|
        acts_pre.len() <= a < acts_post.len() ==> (#[trigger] acts_post[a]
            matches ShardAction::SendOrDrop { member, message } && has_peer(post, member@) && (
            message@ == crate::message::MessageView::Heartbeat || message@ == status_message)))
}

/// `a - b`, stopping at zero: how the overlay measures elapsed time.
pub open spec fn sat_sub(a: u64, b: u64) -> int {
    if a >= b {
        a - b
    } else {
        0
    }
}

/// Whether a peer's inbound heartbeat is still recent enough.
pub open spec fn peer_alive(st: StatusView, now: u64, opts: ShardOptions) -> bool {
    sat_sub(now, st.last_in_heartbeat) <= opts.max_in_heartbeat_delay
}

/// Whether our own heartbeat to the peer is due.
pub open spec fn out_heartbeat_due(st: StatusView, now: u64, opts: ShardOptions) -> bool {
    sat_sub(now, st.last_out_heartbeat) > opts.min_out_heartbeat_delay
}

/// Whether our own status report to the peer is due.
pub open spec fn out_status_due(st: StatusView, now: u64, opts: ShardOptions) -> bool {
    sat_sub(now, st.last_out_status) > opts.min_out_status_delay
}

/// A record after one timer pass: each due outbound stamp set to now,
/// everything else kept.
pub open spec fn ticked_status(st: StatusView, now: u64, opts: ShardOptions) -> StatusView {
    StatusView {
        last_out_heartbeat: if out_heartbeat_due(st, now, opts) {
            now
        } else {
            st.last_out_heartbeat
        },
        last_out_status: if out_status_due(st, now, opts) {
            now
        } else {
            st.last_out_status
        },
        ..st
    }
}

/// One participant's overlay state.
#[derive(Debug)]
pub struct Shard<H> {
    /// The overlay's name; the transport derives its channel from it.
    pub name: String,
    /// The local backend fed by the overlay.
    pub backend: BasicShardBackend<H>,
    /// Digests of blocks already processed, for loop suppression.
    pub handled_blocks: Vec<crate::hash::Hash>,
    /// Digests of transactions already processed, for loop
    /// suppression.
    pub handled_transactions: Vec<crate::hash::Hash>,
    /// Members we subscribed to, with what we know of them.
    pub subscriptions: Vec<(ShardMember, ShardMemberStatus)>,
    /// Members subscribed to us, with what we know of them.
    pub subscribers: Vec<(ShardMember, ShardMemberStatus)>,
    /// The overlay's tunables.
    pub options: ShardOptions,
}

impl<H: ShardHooks> Shard<H> {
    /// Both peer lists are within their caps.
    pub open spec fn caps_ok(&self) -> bool {
        self.subscribers@.len() <= self.options.max_subscribers && self.subscriptions@.len()
            <= self.options.max_subscriptions
    }

    /// The backend is well formed and no member appears twice in
    /// either peer list.
    pub open spec fn wf(&self) -> bool {
        self.backend.wf() && peers_unique(self.subscribers@) && peers_unique(self.subscriptions@)
    }

    /// A shard with no peers and default options.
    pub fn new(name: String, backend: BasicShardBackend<H>) -> (r: Shard<H>)
        ensures
            r.subscribers@.len() == 0,
            r.subscriptions@.len() == 0,
            r.handled_blocks@.len() == 0,
            r.handled_transactions@.len() == 0,
            r.caps_ok(),
            r.backend == backend,
            backend.wf() ==> r.wf(),
    {
        Shard {
            name,
            backend,
            handled_blocks: Vec::new(),
            handled_transactions: Vec::new(),
            subscriptions: Vec::new(),
            subscribers: Vec::new(),
            options: Default::default(),
        }
    }

    /// Replace the options.  A cap lowered here takes effect at the
    /// next `tick`, which shrinks the peer lists to the new caps.
    pub fn with_options(&mut self, options: ShardOptions)
        ensures
            final(self).options == options,
            final(self).subscribers == old(self).subscribers,
            final(self).subscriptions == old(self).subscriptions,
            final(self).backend == old(self).backend,
            final(self).handled_blocks == old(self).handled_blocks,
            final(self).handled_transactions == old(self).handled_transactions,
    {
        self.options = options;
    }

    /// The backend, for direct queries.
    pub fn backend_ref(&mut self) -> (r: &mut BasicShardBackend<H>)
        ensures
            *r == old(self).backend,
            final(self).backend == *final(r),
            final(self).subscribers == old(self).subscribers,
            final(self).subscriptions == old(self).subscriptions,
            final(self).options == old(self).options,
            final(self).handled_blocks == old(self).handled_blocks,
            final(self).handled_transactions == old(self).handled_transactions,
    {
        &mut self.backend
    }

    /// Forget a peer entirely; the caller does this when a send that
    /// may not fail has failed.
    pub fn drop_peer(&mut self, member: &ShardMember)
        requires
            old(self).wf(),
        ensures
            final(self).wf(),
            !has_peer(final(self).subscribers@, member@),
            !has_peer(final(self).subscriptions@, member@),
            final(self).subscribers@.len() <= old(self).subscribers@.len(),
            final(self).subscriptions@.len() <= old(self).subscriptions@.len(),
            final(self).options == old(self).options,
            final(self).backend == old(self).backend,
            old(self).caps_ok() ==> final(self).caps_ok(),
    {
        remove_peer(&mut self.subscribers, member);
        remove_peer(&mut self.subscriptions, member);
    }

    /// An inbound subscription.  Admitted exactly when subscriptions
    /// are accepted, there is room, and we are not ourselves
    /// subscribed to the sender; an admitted subscriber is recorded
    /// with its heartbeat stamped now and any earlier record kept.
    pub fn handle_subscribe(&mut self, member: ShardMember, now: u64) -> (r: bool)
        requires
            old(self).wf(),
        ensures
            final(self).wf(),
            subscribe_post(*old(self), *final(self), member@, now, r),
    {
        let ghost mv = member@;
        let in_subscriptions = match find_peer(&self.subscriptions, &member) {
            Some(_) => true,
            None => false,
        };
        let allow = self.options.accept_subscriptions && self.subscribers.len()
            < self.options.max_subscribers && !in_subscriptions;
        if !allow {
            return false;
        }
        let ghost before = self.subscribers@;
        match find_peer(&self.subscribers, &member) {
            Some(i) => {
                let ghost gi = i as int;
                let entry = self.subscribers.remove(i);
                proof {
                    assert(self.subscribers@ =~= before.subrange(0, gi) + before.subrange(
                        gi + 1,
                        before.len() as int,
                    ));
                    lemma_removed_unique(before, self.subscribers@, gi);
                    assert(!has_peer(self.subscribers@, mv)) by {
                        if has_peer(self.subscribers@, mv) {
                            let x = choose|x: int|
                                0 <= x < self.subscribers@.len() && self.subscribers@[x].0@ == mv;
                            if x < gi {
                                assert(before[x].0@ == mv && before[gi].0@ == mv);
                            } else {
                                assert(before[x + 1].0@ == mv && before[gi].0@ == mv);
                            }
                        }
                    }
                }
                let ghost mid = self.subscribers@;
                let mut status = entry.1;
                status.last_in_heartbeat = now;
                self.subscribers.push((member, status));
                proof {
                    let k = self.subscribers@.len() - 1;
                    assert(self.subscribers@.last().0@ == mv);
                    assert(self.subscribers@[k].0@ == mv);
                    assert(self.subscribers@.last().1@ == (StatusView {
                        last_in_heartbeat: now,
                        ..before[gi].1@
                    }));
                    assert(before[gi].0@ == mv);
                    assert forall|m: MemberView|
                        m != mv implies has_peer(self.subscribers@, m) == has_peer(
                        before,
                        m,
                    ) by {
                        if has_peer(before, m) {
                            let x = choose|x: int| 0 <= x < before.len() && before[x].0@ == m;
                            assert(x != gi);
                            if x < gi {
                                assert(self.subscribers@[x].0@ == m);
                            } else {
                                assert(self.subscribers@[x - 1].0@ == m);
                            }
                        }
                        if has_peer(self.subscribers@, m) {
                            let x = choose|x: int|
                                0 <= x < self.subscribers@.len() && self.subscribers@[x].0@ == m;
                            assert(x != k);
                            if x < gi {
                                assert(before[x].0@ == m);
                            } else {
                                assert(before[x + 1].0@ == m);
                            }
                        }
                    }
                    assert(peers_unique(self.subscribers@)) by {
                        assert forall|p: int, q: int|
                            0 <= p < q < self.subscribers@.len() implies self.subscribers@[p].0@
                            != self.subscribers@[q].0@ by {
                            if q == k {
                                assert(!has_peer(mid, mv));
                                assert(self.subscribers@[p] == mid[p]);
                                assert(mid[p].0@ != mv) by {
                                    if mid[p].0@ == mv {
                                        assert(has_peer(mid, mv));
                                    }
                                }
                            } else {
                                assert(self.subscribers@[p] == mid[p]);
                                assert(self.subscribers@[q] == mid[q]);
                            }
                        }
                    }
                }
            },
            None => {
                let mut status = ShardMemberStatus::new();
                status.last_in_heartbeat = now;
                self.subscribers.push((member, status));
                proof {
                    let k = self.subscribers@.len() - 1;
                    assert(self.subscribers@.last().0@ == mv);
                    assert(self.subscribers@[k].0@ == mv);
                    assert(self.subscribers@.last().1@ == (StatusView {
                        head_block: None,
                        tail_block: None,
                        staged_transactions: Seq::empty(),
                        last_in_heartbeat: now,
                        last_out_heartbeat: 0,
                        last_out_status: 0,
                    })) by {
                        assert(self.subscribers@.last().1@.staged_transactions
                            =~= Seq::<Seq<u8>>::empty());
                    }
                    assert forall|m: MemberView|
                        m != mv implies has_peer(self.subscribers@, m) == has_peer(
                        before,
                        m,
                    ) by {
                        if has_peer(before, m) {
                            let x = choose|x: int| 0 <= x < before.len() && before[x].0@ == m;
                            assert(self.subscribers@[x].0@ == m);
                        }
                        if has_peer(self.subscribers@, m) {
                            let x = choose|x: int|
                                0 <= x < self.subscribers@.len() && self.subscribers@[x].0@ == m;
                            assert(x != k);
                            assert(before[x].0@ == m);
                        }
                    }
                    assert(peers_unique(self.subscribers@)) by {
                        assert forall|p: int, q: int|
                            0 <= p < q < self.subscribers@.len() implies self.subscribers@[p].0@
                            != self.subscribers@[q].0@ by {
                            if q == k {
                                assert(!has_peer(before, mv));
                                assert(self.subscribers@[p] == before[p]);
                                assert(before[p].0@ != mv) by {
                                    if before[p].0@ == mv {
                                        assert(has_peer(before, mv));
                                    }
                                }
                            } else {
                                assert(self.subscribers@[p] == before[p]);
                                assert(self.subscribers@[q] == before[q]);
                            }
                        }
                    }
                }
            },
        }
        true
    }

    /// An inbound unsubscription: the sender stops being a
    /// subscriber.
    pub fn handle_unsubscribe(&mut self, member: &ShardMember)
        requires
            old(self).wf(),
        ensures
            final(self).wf(),
            forall|m: MemberView|
                m != member@ ==> has_peer(final(self).subscribers@, m) == has_peer(
                    old(self).subscribers@,
                    m,
                ),
            final(self).handled_blocks == old(self).handled_blocks,
            final(self).handled_transactions == old(self).handled_transactions,
            !has_peer(final(self).subscribers@, member@),
            final(self).subscribers@.len() <= old(self).subscribers@.len(),
            final(self).subscriptions == old(self).subscriptions,
            final(self).options == old(self).options,
            final(self).backend == old(self).backend,
            old(self).caps_ok() ==> final(self).caps_ok(),
    {
        remove_peer(&mut self.subscribers, member);
    }

    /// An inbound heartbeat: stamp the sender's record, if it is a
    /// subscriber; from anyone else nothing changes.
    pub fn handle_heartbeat(&mut self, member: &ShardMember, now: u64)
        requires
            old(self).wf(),
        ensures
            final(self).wf(),
            old(self).caps_ok() ==> final(self).caps_ok(),
            heartbeat_post(*old(self), *final(self), member@, now),
    {
        let ghost before = self.subscribers@;
        let idx = match find_peer(&self.subscribers, member) {
            Some(i) => i,
            None => {
                return ;
            },
        };
        self.subscribers[idx].1.last_in_heartbeat = now;
        proof {
            assert(before[idx as int].0@ == member@);
            assert(has_peer(before, member@));
            assert(self.subscribers@[idx as int].1@ == (StatusView {
                last_in_heartbeat: now,
                ..before[idx as int].1@
            }));
            assert(peers_unique(self.subscribers@)) by {
                assert forall|p: int, q: int|
                    0 <= p < q < self.subscribers@.len() implies self.subscribers@[p].0@
                    != self.subscribers@[q].0@ by {
                    assert(self.subscribers@[p].0 == before[p].0);
                    assert(self.subscribers@[q].0 == before[q].0);
                }
            }
        }
    }

    /// The current subscribers, as members: what a refused subscriber
    /// is told about so it can reach the mesh elsewhere.
    pub fn subscribers_members(&self) -> (r: Vec<ShardMember>)
        ensures
            r@.len() == self.subscribers@.len(),
            forall|i: int| 0 <= i < r@.len() ==> r@[i]@ == self.subscribers@[i].0@,
    {
        let mut out: Vec<ShardMember> = Vec::new();
        let n = self.subscribers.len();
        let mut i: usize = 0;
        while i < n
            invariant
                n == self.subscribers@.len(),
                i <= n,
                out@.len() == i,
                forall|j: int| 0 <= j < i ==> out@[j]@ == self.subscribers@[j].0@,
            decreases n - i,
        {
            out.push(self.subscribers[i].0.clone());
            i = i + 1;
        }
        out
    }

    /// How many members we subscribe to.
    pub fn subscriptions_len(&self) -> (r: usize)
        ensures
            r == self.subscriptions@.len(),
    {
        self.subscriptions.len()
    }

    /// Make room for one more subscription: when the list is full,
    /// shrink it below the cap and return the evicted members, to each
    /// of whom the caller sends an unsubscription.
    pub fn prepare_subscribe(&mut self) -> (r: Vec<ShardMember>)
        requires
            old(self).options.max_subscriptions >= 1,
            old(self).wf(),
        ensures
            final(self).wf(),
            final(self).subscriptions@.len() < final(self).options.max_subscriptions,
            final(self).subscribers == old(self).subscribers,
            final(self).options == old(self).options,
            old(self).caps_ok() ==> final(self).caps_ok(),
    {
        if self.subscriptions.len() >= self.options.max_subscriptions {
            let target = self.options.max_subscriptions - 1;
            self.shrink_subscriptions(target)
        } else {
            Vec::new()
        }
    }

    /// Record a subscription after the caller's subscribe message was
    /// sent: the member stops being a subscriber, to suppress
    /// announcement loops, and becomes a subscription.
    pub fn commit_subscribe(&mut self, member: ShardMember, now: u64)
        requires
            old(self).subscriptions@.len() < old(self).options.max_subscriptions,
            old(self).wf(),
        ensures
            final(self).wf(),
            has_peer(final(self).subscriptions@, member@),
            final(self).subscriptions@.len() <= old(self).subscriptions@.len() + 1,
            !has_peer(final(self).subscribers@, member@),
            final(self).subscribers@.len() <= old(self).subscribers@.len(),
            final(self).options == old(self).options,
            old(self).caps_ok() ==> final(self).caps_ok(),
    {
        let ghost mv = member@;
        remove_peer(&mut self.subscribers, &member);
        remove_peer(&mut self.subscriptions, &member);
        let ghost mid = self.subscriptions@;
        let mut status = ShardMemberStatus::new();
        status.last_in_heartbeat = now;
        self.subscriptions.push((member, status));
        proof {
            let k = self.subscriptions@.len() - 1;
            assert(self.subscriptions@[k].0@ == mv);
            assert(peers_unique(self.subscriptions@)) by {
                assert forall|p: int, q: int|
                    0 <= p < q < self.subscriptions@.len() implies self.subscriptions@[p].0@
                    != self.subscriptions@[q].0@ by {
                    if q == k {
                        assert(!has_peer(mid, mv));
                        assert(self.subscriptions@[p] == mid[p]);
                        assert(mid[p].0@ != mv) by {
                            if mid[p].0@ == mv {
                                assert(has_peer(mid, mv));
                            }
                        }
                    } else {
                        assert(self.subscriptions@[p] == mid[p]);
                        assert(self.subscriptions@[q] == mid[q]);
                    }
                }
            }
        }
    }

    /// Forget a subscription after the caller sent the member an
    /// unsubscription.
    pub fn unsubscribe_local(&mut self, member: &ShardMember)
        requires
            old(self).wf(),
        ensures
            final(self).wf(),
            !has_peer(final(self).subscriptions@, member@),
            final(self).subscriptions@.len() <= old(self).subscriptions@.len(),
            final(self).subscribers == old(self).subscribers,
            final(self).options == old(self).options,
            old(self).caps_ok() ==> final(self).caps_ok(),
    {
        remove_peer(&mut self.subscriptions, member);
    }

    /// Shrink the subscribers to at most `shrink_to`, dropping peers
    /// with the lowest reported tails first; the evicted members are
    /// returned.
    pub fn shrink_subscribers(&mut self, shrink_to: usize) -> (r: Vec<ShardMember>)
        requires
            old(self).wf(),
        ensures
            final(self).wf(),
            r@.len() + final(self).subscribers@.len() == old(self).subscribers@.len(),
            forall|i: int|
                0 <= i < final(self).subscribers@.len() ==> old(self).subscribers@.contains(
                    #[trigger] final(self).subscribers@[i],
                ),
            forall|i: int|
                0 <= i < r@.len() ==> has_peer(old(self).subscribers@, (#[trigger] r@[i])@),
            forall|i: int, j: int|
                (0 <= i < r@.len() && 0 <= j < final(self).subscribers@.len()) ==> !tail_below(
                    (#[trigger] final(self).subscribers@[j]).1@,
                    tail_key_of_member(old(self).subscribers@, (#[trigger] r@[i])@),
                ),
            final(self).subscribers@.len() == (if old(self).subscribers@.len() <= shrink_to {
                old(self).subscribers@.len() as int
            } else {
                shrink_to as int
            }),
            final(self).subscriptions == old(self).subscriptions,
            final(self).options == old(self).options,
            final(self).backend == old(self).backend,
    {
        shrink_list(&mut self.subscribers, shrink_to)
    }

    /// Shrink the subscriptions likewise.
    pub fn shrink_subscriptions(&mut self, shrink_to: usize) -> (r: Vec<ShardMember>)
        requires
            old(self).wf(),
        ensures
            final(self).wf(),
            r@.len() + final(self).subscriptions@.len() == old(self).subscriptions@.len(),
            forall|i: int|
                0 <= i < final(self).subscriptions@.len() ==> old(self).subscriptions@.contains(
                    #[trigger] final(self).subscriptions@[i],
                ),
            forall|i: int|
                0 <= i < r@.len() ==> has_peer(old(self).subscriptions@, (#[trigger] r@[i])@),
            forall|i: int, j: int|
                (0 <= i < r@.len() && 0 <= j < final(self).subscriptions@.len()) ==> !tail_below(
                    (#[trigger] final(self).subscriptions@[j]).1@,
                    tail_key_of_member(old(self).subscriptions@, (#[trigger] r@[i])@),
                ),
            final(self).subscriptions@.len() == (if old(self).subscriptions@.len() <= shrink_to {
                old(self).subscriptions@.len() as int
            } else {
                shrink_to as int
            }),
            final(self).subscribers == old(self).subscribers,
            final(self).options == old(self).options,
            final(self).backend == old(self).backend,
    {
        shrink_list(&mut self.subscriptions, shrink_to)
    }
}

/// How a reported tail sorts: one numbered `n` sorts as `n + 1`, a
/// missing tail sorts lowest of all, as zero.
pub open spec fn tail_key(st: StatusView) -> int {
    match st.tail_block {
        Some(b) => b.number + 1,
        None => 0,
    }
}

/// Whether a record's tail sorts strictly below `k`.
pub open spec fn tail_below(st: StatusView, k: int) -> bool {
    tail_key(st) < k
}

/// The tail key of the entry a list holds for `m`; the first match
/// decides, and with no member held twice it is the only one.
pub open spec fn tail_key_of_member(
    s: Seq<(ShardMember, ShardMemberStatus)>,
    m: MemberView,
) -> int
    decreases s.len(),
{
    if s.len() == 0 {
        0
    } else if s.first().0@ == m {
        tail_key(s.first().1@)
    } else {
        tail_key_of_member(s.drop_first(), m)
    }
}

/// In a duplicate-free list, a held entry's tail key is the member's.
proof fn lemma_tail_key_of_entry(
    s: Seq<(ShardMember, ShardMemberStatus)>,
    e: (ShardMember, ShardMemberStatus),
)
    requires
        s.contains(e),
        peers_unique(s),
    ensures
        tail_key_of_member(s, e.0@) == tail_key(e.1@),
    decreases s.len(),
{
    if s.len() > 0 {
        if s.first() == e {
        } else if s.first().0@ == e.0@ {
            let x = choose|x: int| 0 <= x < s.len() && s[x] == e;
            assert(s[0].0@ == s[x].0@);
            assert(x != 0);
        } else {
            let x = choose|x: int| 0 <= x < s.len() && s[x] == e;
            assert(x != 0);
            assert(s.drop_first()[x - 1] == e);
            assert(s.drop_first().contains(e));
            assert(peers_unique(s.drop_first())) by {
                assert forall|p: int, q: int|
                    0 <= p < q < s.drop_first().len() implies s.drop_first()[p].0@
                    != s.drop_first()[q].0@ by {
                    assert(s.drop_first()[p] == s[p + 1]);
                    assert(s.drop_first()[q] == s[q + 1]);
                }
            }
            lemma_tail_key_of_entry(s.drop_first(), e);
        }
    }
}

/// Whether the first record reports a lower tail than the second:
/// a missing tail is lowest.
fn tail_lower(a: &ShardMemberStatus, b: &ShardMemberStatus) -> (r: bool)
    ensures
        r == tail_below(a@, tail_key(b@)),
{
    match (&a.tail_block, &b.tail_block) {
        (None, Some(_)) => true,
        (None, None) => false,
        (Some(_), None) => false,
        (Some(x), Some(y)) => x.number() < y.number(),
    }
}

/// Shrink a peer list to at most `shrink_to` entries, removing the
/// lowest-tailed first; the removed members are returned, and every
/// survivor's tail sorts at least as high as every evicted member's.
fn shrink_list(list: &mut Vec<(ShardMember, ShardMemberStatus)>, shrink_to: usize) -> (r: Vec<
    ShardMember,
>)
    requires
        peers_unique(old(list)@),
    ensures
        final(list)@.len() == (if old(list)@.len() <= shrink_to {
            old(list)@.len() as int
        } else {
            shrink_to as int
        }),
        r@.len() + final(list)@.len() == old(list)@.len(),
        forall|i: int|
            0 <= i < final(list)@.len() ==> old(list)@.contains(#[trigger] final(list)@[i]),
        peers_unique(final(list)@),
        forall|i: int| 0 <= i < r@.len() ==> has_peer(old(list)@, (#[trigger] r@[i])@),
        forall|i: int, j: int|
            (0 <= i < r@.len() && 0 <= j < final(list)@.len()) ==> !tail_below(
                (#[trigger] final(list)@[j]).1@,
                tail_key_of_member(old(list)@, (#[trigger] r@[i])@),
            ),
{
    let ghost before = list@;
    let mut evicted: Vec<ShardMember> = Vec::new();
    proof {
        assert forall|k: int|
            0 <= k < list@.len() implies before.contains(#[trigger] list@[k]) by {
            assert(before[k] == list@[k]);
        }
    }
    while list.len() > shrink_to
        invariant
            list@.len() >= shrink_to || list@.len() == before.len(),
            evicted@.len() + list@.len() == before.len(),
            forall|k: int| 0 <= k < list@.len() ==> before.contains(#[trigger] list@[k]),
            peers_unique(list@),
            peers_unique(before),
            forall|i: int| 0 <= i < evicted@.len() ==> has_peer(before, (#[trigger] evicted@[i])@),
            forall|i: int, k: int|
                (0 <= i < evicted@.len() && 0 <= k < list@.len()) ==> !tail_below(
                    (#[trigger] list@[k]).1@,
                    tail_key_of_member(before, (#[trigger] evicted@[i])@),
                ),
        decreases list@.len(),
    {
        let n = list.len();
        let mut lowest: usize = 0;
        let mut i: usize = 1;
        while i < n
            invariant
                n == list@.len(),
                n >= 1,
                lowest < i <= n,
                forall|k: int|
                    0 <= k < i ==> !tail_below(
                        (#[trigger] list@[k]).1@,
                        tail_key(list@[lowest as int].1@),
                    ),
            decreases n - i,
        {
            if tail_lower(&list[i].1, &list[lowest].1) {
                lowest = i;
            }
            i = i + 1;
        }
        let ghost cur = list@;
        let ghost glow = lowest as int;
        let entry = list.remove(lowest);
        proof {
            assert(list@ =~= cur.subrange(0, glow) + cur.subrange(glow + 1, cur.len() as int));
            lemma_removed_unique(cur, list@, glow);
            assert(before.contains(cur[glow]));
            lemma_tail_key_of_entry(before, cur[glow]);
            assert(tail_key_of_member(before, cur[glow].0@) == tail_key(cur[glow].1@));
            assert forall|k: int|
                0 <= k < list@.len() implies before.contains(#[trigger] list@[k])
                && !tail_below(list@[k].1@, tail_key(cur[glow].1@)) by {
                if k < glow {
                    assert(list@[k] == cur[k]);
                } else {
                    assert(list@[k] == cur[k + 1]);
                }
            }
            assert forall|i2: int, k: int|
                (0 <= i2 < evicted@.len() && 0 <= k < list@.len()) implies !tail_below(
                (#[trigger] list@[k]).1@,
                tail_key_of_member(before, (#[trigger] evicted@[i2])@),
            ) by {
                if k < glow {
                    assert(list@[k] == cur[k]);
                } else {
                    assert(list@[k] == cur[k + 1]);
                }
            }
        }
        proof {
            assert(has_peer(before, cur[glow].0@)) by {
                let x = choose|x: int| 0 <= x < before.len() && before[x] == cur[glow];
                assert(before[x].0@ == cur[glow].0@);
            }
        }
        evicted.push(entry.0);
    }
    evicted
}


/// Whether a digest is among those already handled.
pub open spec fn handled_has(s: Seq<Seq<u8>>, h: Seq<u8>) -> bool {
    exists|i: int| 0 <= i < s.len() && s[i] == h
}

/// The digests of a handled list.
pub open spec fn handled_view(v: Seq<crate::hash::Hash>) -> Seq<Seq<u8>> {
    Seq::new(v.len(), |i: int| v[i]@)
}

/// Whether a handled list holds a digest.
fn handled_contains(list: &Vec<crate::hash::Hash>, h: &crate::hash::Hash) -> (r: bool)
    ensures
        r == handled_has(handled_view(list@), h@),
{
    let n = list.len();
    let mut i: usize = 0;
    while i < n
        invariant
            n == list@.len(),
            i <= n,
            forall|j: int| 0 <= j < i ==> handled_view(list@)[j] != h@,
        decreases n - i,
    {
        if list[i] == *h {
            proof {
                assert(handled_view(list@)[i as int] == h@);
            }
            return true;
        }
        i = i + 1;
    }
    false
}

/// Whether a run of blocks holds one with this model.
pub open spec fn block_among(s: Seq<Block>, b: BlockView) -> bool {
    exists|j: int| 0 <= j < s.len() && s[j]@ == b
}

/// The input blocks, reordered so numbers never decrease; every
/// element of the result is one of the inputs.
fn sort_blocks_by_number(blocks: Vec<Block>) -> (r: Vec<Block>)
    ensures
        r@.len() == blocks@.len(),
        forall|i: int, j: int| 0 <= i < j < r@.len() ==> r@[i]@.number <= r@[j]@.number,
        forall|i: int| 0 <= i < r@.len() ==> block_among(blocks@, #[trigger] r@[i]@),
        forall|i: int| 0 <= i < blocks@.len() ==> block_among(r@, (#[trigger] blocks@[i])@),
{
    let ghost input = blocks@;
    let mut rest = blocks;
    let mut out: Vec<Block> = Vec::new();
    proof {
        assert forall|i: int|
            0 <= i < rest@.len() implies block_among(input, #[trigger] rest@[i]@) by {
            assert(input[i]@ == rest@[i]@);
        }
        assert forall|i: int|
            0 <= i < input.len() implies block_among(rest@, (#[trigger] input[i])@) by {
            assert(rest@[i]@ == input[i]@);
        }
    }
    while rest.len() > 0
        invariant
            out@.len() + rest@.len() == input.len(),
            forall|i: int, j: int| 0 <= i < j < out@.len() ==> out@[i]@.number <= out@[j]@.number,
            forall|i: int, j: int|
                (0 <= i < out@.len() && 0 <= j < rest@.len()) ==> #[trigger] out@[i]@.number
                    <= #[trigger] rest@[j]@.number,
            forall|i: int| 0 <= i < out@.len() ==> block_among(input, #[trigger] out@[i]@),
            forall|i: int| 0 <= i < rest@.len() ==> block_among(input, #[trigger] rest@[i]@),
            forall|i: int|
                0 <= i < input.len() ==> block_among(out@, (#[trigger] input[i])@) || block_among(
                    rest@,
                    input[i]@,
                ),
        decreases rest@.len(),
    {
        let n = rest.len();
        let mut lowest: usize = 0;
        let mut i: usize = 1;
        while i < n
            invariant
                n == rest@.len(),
                n >= 1,
                lowest < i <= n,
                forall|j: int| 0 <= j < i ==> rest@[j]@.number >= rest@[lowest as int]@.number,
            decreases n - i,
        {
            if rest[i].number() < rest[lowest].number() {
                lowest = i;
            }
            i = i + 1;
        }
        let ghost cur = rest@;
        let picked = rest.remove(lowest);
        proof {
            assert(rest@ =~= cur.subrange(0, lowest as int) + cur.subrange(
                lowest + 1,
                cur.len() as int,
            ));
            assert forall|j: int|
                0 <= j < rest@.len() implies #[trigger] rest@[j]@.number >= picked@.number by {
                if j < lowest {
                    assert(rest@[j] == cur[j]);
                } else {
                    assert(rest@[j] == cur[j + 1]);
                }
            }
            assert forall|j: int|
                0 <= j < rest@.len() implies block_among(input, #[trigger] rest@[j]@) by {
                if j < lowest {
                    assert(cur[j] == rest@[j]);
                } else {
                    assert(cur[j + 1] == rest@[j]);
                }
            }
        }
        let ghost out_before = out@;
        out.push(picked);
        proof {
            assert forall|i: int|
                0 <= i < input.len() implies block_among(out@, (#[trigger] input[i])@)
                || block_among(rest@, input[i]@) by {
                if block_among(out_before, input[i]@) {
                    let x = choose|x: int|
                        0 <= x < out_before.len() && out_before[x]@ == input[i]@;
                    assert(out@[x]@ == input[i]@);
                } else if block_among(cur, input[i]@) {
                    let x = choose|x: int| 0 <= x < cur.len() && cur[x]@ == input[i]@;
                    if x == lowest {
                        assert(out@[out_before.len() as int]@ == input[i]@);
                    } else if x < lowest {
                        assert(rest@[x]@ == input[i]@);
                    } else {
                        assert(rest@[x - 1]@ == input[i]@);
                    }
                }
            }
        }
    }
    out
}

impl<H: ShardHooks> Shard<H> {
    /// An inbound status report from `sender`: ingest its endpoint
    /// blocks when they validate, remember the report when configured
    /// to, and answer with the blocks and transactions the sender
    /// appears to lack.  Every send answers the sender itself.
    pub fn handle_status(
        &mut self,
        sender: &ShardMember,
        head_block: Option<Block>,
        tail_block: Option<Block>,
        staged_transactions: Vec<crate::hash::Hash>,
        now: u64,
    ) -> (r: Vec<ShardAction>)
        requires
            old(self).wf(),
        ensures
            final(self).wf(),
            final(self).options == old(self).options,
            final(self).subscribers@.len() == old(self).subscribers@.len(),
            final(self).subscriptions@.len() == old(self).subscriptions@.len(),
            forall|i: int|
                0 <= i < final(self).subscribers@.len() ==> (#[trigger] final(self).subscribers@[i]).0 == old(self).subscribers@[i].0,
            forall|i: int|
                0 <= i < final(self).subscriptions@.len() ==> (#[trigger] final(self).subscriptions@[i]).0 == old(self).subscriptions@[i].0,
            !old(self).options.remember_subscribers_statuses ==> final(self).subscribers == old(self).subscribers && final(self).subscriptions == old(self).subscriptions,
            (old(self).options.remember_subscribers_statuses && has_peer(
                old(self).subscribers@,
                sender@,
            )) ==> status_recorded(
                old(self).subscribers@,
                final(self).subscribers@,
                sender@,
                match head_block {
                    Some(b) => Some(b@),
                    None => None,
                },
                match tail_block {
                    Some(b) => Some(b@),
                    None => None,
                },
                Seq::new(staged_transactions@.len(), |k: int| staged_transactions@[k]@),
            ) && final(self).subscriptions == old(self).subscriptions,
            (old(self).options.remember_subscribers_statuses && !has_peer(
                old(self).subscribers@,
                sender@,
            ) && has_peer(old(self).subscriptions@, sender@)) ==> status_recorded(
                old(self).subscriptions@,
                final(self).subscriptions@,
                sender@,
                match head_block {
                    Some(b) => Some(b@),
                    None => None,
                },
                match tail_block {
                    Some(b) => Some(b@),
                    None => None,
                },
                Seq::new(staged_transactions@.len(), |k: int| staged_transactions@[k]@),
            ) && final(self).subscribers == old(self).subscribers,
            (!has_peer(old(self).subscribers@, sender@) && !has_peer(
                old(self).subscriptions@,
                sender@,
            )) ==> final(self).subscribers == old(self).subscribers && final(self).subscriptions
                == old(self).subscriptions,
            final(self).backend.blockchain.blocks@ == old(self).backend.blockchain.blocks@ || (
            head_block matches Some(h) && crate::blockchain::block_checks_ok(h@, now) && final(self).backend.blockchain.blocks@ == old(self).backend.blockchain.blocks@.push(h@)) || (
            tail_block matches Some(t) && crate::blockchain::block_checks_ok(t@, now) && final(self).backend.blockchain.blocks@ == old(self).backend.blockchain.blocks@.push(t@)) || (
            head_block matches Some(h2) && tail_block matches Some(t2)
                && crate::blockchain::block_checks_ok(h2@, now)
                && crate::blockchain::block_checks_ok(t2@, now) && final(self).backend.blockchain.blocks@ == old(self).backend.blockchain.blocks@.push(h2@).push(
                t2@,
            )),
            r@.len() == (if old(self).options.send_blocks_diff_on_statuses {
                1int
            } else {
                0
            }) + (if old(self).options.send_transactions_diff_on_statuses {
                1int
            } else {
                0
            }),
            old(self).options.send_blocks_diff_on_statuses ==> (r@[0]
                matches ShardAction::Send { member, message } && member@ == sender@ && message@
                matches crate::message::MessageView::Update(
                crate::message::UpdateView::AnnounceBlocks { .. },
            )),
            old(self).options.send_transactions_diff_on_statuses ==> (r@[r@.len() - 1]
                matches ShardAction::Send { member, message } && member@ == sender@ && message@
                matches crate::message::MessageView::Update(
                crate::message::UpdateView::AnnounceTransactions { .. },
            )),
            old(self).caps_ok() ==> final(self).caps_ok(),
            forall|i: int|
                0 <= i < r@.len() ==> (#[trigger] r@[i] matches ShardAction::Send {
                    member,
                    message,
                } && member@ == sender@ && (match message@ {
                    crate::message::MessageView::Update(
                        crate::message::UpdateView::AnnounceBlocks { blocks },
                    ) => blocks.len() <= old(self).options.max_blocks_diff_size && (forall|k: int|
                        0 <= k < blocks.len() ==> crate::blocks_index::stores(
                            final(self).backend.blockchain.blocks@,
                            #[trigger] blocks[k],
                        )),
                    crate::message::MessageView::Update(
                        crate::message::UpdateView::AnnounceTransactions { transactions },
                    ) => transactions.len() <= old(self).options.max_transactions_diff_size && (
                    forall|k: int|
                        0 <= k < transactions.len() ==> crate::backend::pool_holds(
                            final(self).backend.staged_view(),
                            #[trigger] transactions[k],
                        ) && (forall|j: int|
                            0 <= j < staged_transactions@.len()
                                ==> (#[trigger] transactions[k]).hash != (
                            #[trigger] staged_transactions@[j])@)),
                    _ => true,
                })),
    {
        let ghost bs0 = self.backend.blockchain.blocks@;
        let mut actions: Vec<ShardAction> = Vec::new();
        if let Some(h) = &head_block {
            let ingest = match h.validate_at(now) {
                Ok(v) => v.is_valid(),
                Err(_) => false,
            };
            proof {
                assert(ingest == crate::blockchain::block_checks_ok(h@, now));
            }
            if ingest {
                self.backend.handle_block(h.clone());
            }
        }
        let ghost bs1 = self.backend.blockchain.blocks@;
        proof {
            assert(bs1 == bs0 || (head_block matches Some(h)
                && crate::blockchain::block_checks_ok(h@, now) && bs1 == bs0.push(h@)));
        }
        if let Some(t) = &tail_block {
            let ingest = match t.validate_at(now) {
                Ok(v) => v.is_valid(),
                Err(_) => false,
            };
            proof {
                assert(ingest == crate::blockchain::block_checks_ok(t@, now));
            }
            if ingest {
                self.backend.handle_block(t.clone());
            }
        }
        proof {
            let bs2 = self.backend.blockchain.blocks@;
            assert(bs2 == bs1 || (tail_block matches Some(t)
                && crate::blockchain::block_checks_ok(t@, now) && bs2 == bs1.push(t@)));
        }
        let ghost subs_pre = self.subscribers@;
        let ghost sups_pre = self.subscriptions@;
        let ghost head_v = (match &head_block {
            Some(b) => Some(b@),
            None => None,
        });
        let ghost tail_v = (match &tail_block {
            Some(b) => Some(b@),
            None => None,
        });
        let ghost staged_v = Seq::new(
            staged_transactions@.len(),
            |k: int| staged_transactions@[k]@,
        );
        if self.options.remember_subscribers_statuses {
            let place = match find_peer(&self.subscribers, sender) {
                Some(i) => Some((true, i)),
                None => match find_peer(&self.subscriptions, sender) {
                    Some(i) => Some((false, i)),
                    None => None,
                },
            };
            if let Some((in_subscribers, i)) = place {
                let mut fresh_head: Option<Block> = None;
                let mut fresh_tail: Option<Block> = None;
                if let Some(b) = &head_block {
                    fresh_head = Some(b.clone());
                }
                if let Some(b) = &tail_block {
                    fresh_tail = Some(b.clone());
                }
                let mut staged_copy: Vec<crate::hash::Hash> = Vec::new();
                let m = staged_transactions.len();
                let mut k: usize = 0;
                while k < m
                    invariant
                        m == staged_transactions@.len(),
                        k <= m,
                        staged_copy@.len() == k,
                        forall|j: int|
                            0 <= j < k ==> #[trigger] staged_copy@[j]@
                                == staged_transactions@[j]@,
                    decreases m - k,
                {
                    staged_copy.push(staged_transactions[k]);
                    k = k + 1;
                }
                if in_subscribers {
                    self.subscribers[i].1.head_block = fresh_head;
                    self.subscribers[i].1.tail_block = fresh_tail;
                    self.subscribers[i].1.staged_transactions = staged_copy;
                    proof {
                        assert(subs_pre[i as int].0@ == sender@);
                        assert(self.subscribers@[i as int].1@.staged_transactions =~= staged_v);
                        assert(self.subscribers@[i as int].1@ =~= (StatusView {
                            head_block: head_v,
                            tail_block: tail_v,
                            staged_transactions: staged_v,
                            last_in_heartbeat: subs_pre[i as int].1@.last_in_heartbeat,
                            last_out_heartbeat: subs_pre[i as int].1@.last_out_heartbeat,
                            last_out_status: subs_pre[i as int].1@.last_out_status,
                        }));
                        assert(status_recorded(
                            subs_pre,
                            self.subscribers@,
                            sender@,
                            head_v,
                            tail_v,
                            staged_v,
                        ));
                        assert(peers_unique(self.subscribers@)) by {
                            assert forall|p: int, q: int|
                                0 <= p < q < self.subscribers@.len() implies
                                self.subscribers@[p].0@ != self.subscribers@[q].0@ by {
                                assert(self.subscribers@[p].0 == subs_pre[p].0);
                                assert(self.subscribers@[q].0 == subs_pre[q].0);
                            }
                        }
                    }
                } else {
                    self.subscriptions[i].1.head_block = fresh_head;
                    self.subscriptions[i].1.tail_block = fresh_tail;
                    self.subscriptions[i].1.staged_transactions = staged_copy;
                    proof {
                        assert(sups_pre[i as int].0@ == sender@);
                        assert(self.subscriptions@[i as int].1@.staged_transactions =~= staged_v);
                        assert(self.subscriptions@[i as int].1@ =~= (StatusView {
                            head_block: head_v,
                            tail_block: tail_v,
                            staged_transactions: staged_v,
                            last_in_heartbeat: sups_pre[i as int].1@.last_in_heartbeat,
                            last_out_heartbeat: sups_pre[i as int].1@.last_out_heartbeat,
                            last_out_status: sups_pre[i as int].1@.last_out_status,
                        }));
                        assert(status_recorded(
                            sups_pre,
                            self.subscriptions@,
                            sender@,
                            head_v,
                            tail_v,
                            staged_v,
                        ));
                        assert(peers_unique(self.subscriptions@)) by {
                            assert forall|p: int, q: int|
                                0 <= p < q < self.subscriptions@.len() implies
                                self.subscriptions@[p].0@ != self.subscriptions@[q].0@ by {
                                assert(self.subscriptions@[p].0 == sups_pre[p].0);
                                assert(self.subscriptions@[q].0 == sups_pre[q].0);
                            }
                        }
                    }
                }
            }
        }
        if self.options.send_blocks_diff_on_statuses {
            let diff = self.blocks_diff(&head_block, &tail_block, now);
            let ghost dv = diff@;
            let message = ShardMessage::Update(ShardUpdate::AnnounceBlocks { blocks: diff });
            proof {
                assert(message@ matches crate::message::MessageView::Update(
                    crate::message::UpdateView::AnnounceBlocks { blocks },
                ) && blocks =~= Seq::new(dv.len(), |k: int| dv[k]@));
            }
            actions.push(ShardAction::Send { member: sender.clone(), message });
        }
        if self.options.send_transactions_diff_on_statuses {
            let diff = self.transactions_diff(&staged_transactions);
            let ghost dv = diff@;
            let message = ShardMessage::Update(
                ShardUpdate::AnnounceTransactions { transactions: diff },
            );
            proof {
                assert(message@ matches crate::message::MessageView::Update(
                    crate::message::UpdateView::AnnounceTransactions { transactions },
                ) && transactions =~= Seq::new(dv.len(), |k: int| dv[k]@));
            }
            actions.push(ShardAction::Send { member: sender.clone(), message });
        }
        actions
    }

    /// The blocks the peer appears to lack, given its reported
    /// endpoints: our endpoints when it lacks its own, then the runs
    /// between the endpoints, at most `max_blocks_diff_size` in all;
    /// every one of them is a block our own store holds.
    fn blocks_diff(
        &self,
        remote_head: &Option<Block>,
        remote_tail: &Option<Block>,
        now: u64,
    ) -> (r: Vec<Block>)
        ensures
            r@.len() <= self.options.max_blocks_diff_size,
            forall|i: int|
                0 <= i < r@.len() ==> crate::blocks_index::stores(
                    self.backend.blockchain.blocks@,
                    (#[trigger] r@[i])@,
                ),
    {
        let max = self.options.max_blocks_diff_size;
        let mut diff: Vec<Block> = Vec::new();
        let our_head = self.backend.get_head_block();
        let our_tail = self.backend.get_tail_block();
        match (our_head, our_tail) {
            (Some(oh), Some(ot)) => {
                if remote_head.is_none() && diff.len() < max {
                    diff.push(oh.clone());
                }
                if remote_tail.is_none() && diff.len() < max {
                    diff.push(ot.clone());
                }
                if let Some(rh) = remote_head {
                    let mut cur = oh.clone();
                    loop
                        invariant
                            diff@.len() <= max,
                            max == self.options.max_blocks_diff_size,
                            crate::blocks_index::stores(self.backend.blockchain.blocks@, cur@),
                            forall|a: int|
                                0 <= a < diff@.len() ==> crate::blocks_index::stores(
                                    self.backend.blockchain.blocks@,
                                    (#[trigger] diff@[a])@,
                                ),
                        decreases max - diff@.len()
                    {
                        if diff.len() >= max {
                            break ;
                        }
                        if !(cur.number() < rh.number()) {
                            break ;
                        }
                        diff.push(cur.clone());
                        match self.backend.get_next_block(&cur) {
                            Some(b) => {
                                cur = b;
                            },
                            None => {
                                break ;
                            },
                        }
                    }
                }
                let mut walk = match remote_tail {
                    Some(rt) => rt.clone(),
                    None => oh,
                };
                loop
                    invariant
                        diff@.len() <= max,
                        max == self.options.max_blocks_diff_size,
                        forall|a: int|
                            0 <= a < diff@.len() ==> crate::blocks_index::stores(
                                self.backend.blockchain.blocks@,
                                (#[trigger] diff@[a])@,
                            ),
                    decreases max - diff@.len()
                {
                    if diff.len() >= max {
                        break ;
                    }
                    if !(walk.number() < ot.number()) {
                        break ;
                    }
                    match self.backend.get_next_block(&walk) {
                        Some(b) => {
                            diff.push(b.clone());
                            walk = b;
                        },
                        None => {
                            break ;
                        },
                    }
                }
            },
            (Some(only), None) => {
                let outside = match (remote_head, remote_tail) {
                    (Some(rh), Some(rt)) => only.number() < rh.number() || only.number()
                        > rt.number(),
                    (Some(rh), None) => only.number() < rh.number(),
                    (None, Some(rt)) => only.number() > rt.number(),
                    (None, None) => true,
                };
                if outside && diff.len() < max {
                    diff.push(only);
                }
            },
            (None, Some(only)) => {
                let outside = match (remote_head, remote_tail) {
                    (Some(rh), Some(rt)) => only.number() < rh.number() || only.number()
                        > rt.number(),
                    (Some(rh), None) => only.number() < rh.number(),
                    (None, Some(rt)) => only.number() > rt.number(),
                    (None, None) => true,
                };
                if outside && diff.len() < max {
                    diff.push(only);
                }
            },
            (None, None) => {},
        }
        diff
    }

    /// The staged transactions the peer does not itself report:
    /// every one comes from our own pool, none carries a digest the
    /// peer reported, and at most `max_transactions_diff_size` are
    /// taken.
    fn transactions_diff(&self, remote_staged: &Vec<crate::hash::Hash>) -> (r: Vec<Transaction>)
        ensures
            r@.len() <= self.options.max_transactions_diff_size,
            forall|i: int|
                0 <= i < r@.len() ==> crate::backend::pool_holds(
                    self.backend.staged_view(),
                    (#[trigger] r@[i])@,
                ),
            forall|i: int, j: int|
                (0 <= i < r@.len() && 0 <= j < remote_staged@.len()) ==> (#[trigger] r@[i])@.hash
                    != (#[trigger] remote_staged@[j])@,
    {
        let max = self.options.max_transactions_diff_size;
        let mut diff: Vec<Transaction> = Vec::new();
        let ours = self.backend.get_staged_transactions();
        let n = ours.len();
        let mut i: usize = 0;
        while i < n
            invariant
                n == ours@.len(),
                i <= n,
                diff@.len() <= max,
                max == self.options.max_transactions_diff_size,
                forall|a: int|
                    0 <= a < diff@.len() ==> crate::backend::pool_holds(
                        self.backend.staged_view(),
                        (#[trigger] diff@[a])@,
                    ),
                forall|a: int, j: int|
                    (0 <= a < diff@.len() && 0 <= j < remote_staged@.len())
                        ==> (#[trigger] diff@[a])@.hash != (#[trigger] remote_staged@[j])@,
            decreases n - i,
        {
            if diff.len() >= max {
                return diff;
            }
            let h = ours[i];
            let mut known = false;
            let m = remote_staged.len();
            let mut k: usize = 0;
            while k < m
                invariant
                    m == remote_staged@.len(),
                    k <= m,
                    h@ == ours@[i as int]@,
                    !known ==> (forall|j: int| 0 <= j < k ==> (#[trigger] remote_staged@[j])@ != h@),
                    known ==> (exists|j: int| 0 <= j < m && remote_staged@[j]@ == h@),
                decreases m - k,
            {
                if remote_staged[k] == h {
                    proof {
                        assert(remote_staged@[k as int]@ == h@);
                    }
                    known = true;
                }
                k = k + 1;
            }
            if !known {
                match self.backend.get_staged_transaction(&h) {
                    Some(t) => {
                        diff.push(t);
                    },
                    None => {},
                }
            }
            i = i + 1;
        }
        diff
    }
}


/// Whether a run of members holds one with this model.
pub open spec fn member_among(s: Seq<ShardMember>, m: MemberView) -> bool {
    exists|j: int| 0 <= j < s.len() && s[j]@ == m
}

impl<H: ShardHooks> Shard<H> {
    /// Members announced by a publisher we follow: the candidates to
    /// subscribe to, in the order to try them — announcement order,
    /// or a uniformly random order when configured.  From any other
    /// sender, or when the feature is off, there are none.
    pub fn handle_announce_members(&mut self, sender: &ShardMember, members: Vec<ShardMember>) -> (
        r: Vec<ShardMember>)
        ensures
            *final(self) == *old(self),
            !(old(self).options.subscribe_on_announced_members && has_peer(
                old(self).subscriptions@,
                sender@,
            )) ==> r@.len() == 0,
            (old(self).options.subscribe_on_announced_members && has_peer(
                old(self).subscriptions@,
                sender@,
            )) ==> r@.len() == members@.len(),
            forall|i: int| 0 <= i < r@.len() ==> member_among(members@, #[trigger] r@[i]@),
    {
        let ghost input = members@;
        let follow = match find_peer(&self.subscriptions, sender) {
            Some(_) => true,
            None => false,
        };
        if !(self.options.subscribe_on_announced_members && follow) {
            return Vec::new();
        }
        let mut rest = members;
        let mut out: Vec<ShardMember> = Vec::new();
        proof {
            assert forall|i: int|
                0 <= i < rest@.len() implies member_among(input, #[trigger] rest@[i]@) by {
                assert(input[i]@ == rest@[i]@);
            }
        }
        while rest.len() > 0
            invariant
                out@.len() + rest@.len() == input.len(),
                forall|i: int| 0 <= i < out@.len() ==> member_among(input, #[trigger] out@[i]@),
                forall|i: int| 0 <= i < rest@.len() ==> member_among(input, #[trigger] rest@[i]@),
            decreases rest@.len(),
        {
            let idx: usize = if self.options.randomly_choose_announced_members {
                (crate::crypto::random_u64() % (rest.len() as u64)) as usize
            } else {
                0
            };
            let ghost cur = rest@;
            let picked = rest.remove(idx);
            proof {
                assert forall|j: int|
                    0 <= j < rest@.len() implies member_among(input, #[trigger] rest@[j]@) by {
                    if j < idx {
                        assert(cur[j] == rest@[j]);
                    } else {
                        assert(cur[j + 1] == rest@[j]);
                    }
                }
            }
            out.push(picked);
        }
        out
    }

    /// Blocks announced by a peer: in rising number order, each block
    /// not seen before is validated and, when valid, admitted; the
    /// valid newcomers are passed on to every other peer that does
    /// not appear to know them.  No send ever answers the sender.
    pub fn handle_announce_blocks(
        &mut self,
        sender: &ShardMember,
        blocks: Vec<Block>,
        now: u64,
    ) -> (r: Vec<ShardAction>)
        requires
            old(self).wf(),
        ensures
            final(self).wf(),
            final(self).options == old(self).options,
            final(self).subscribers@.len() == old(self).subscribers@.len(),
            final(self).subscriptions@.len() == old(self).subscriptions@.len(),
            old(self).caps_ok() ==> final(self).caps_ok(),
            forall|i: int|
                0 <= i < r@.len() ==> (#[trigger] r@[i] matches ShardAction::SendOrDrop {
                    member,
                    message,
                } && member@ != sender@ && (message@ matches crate::message::MessageView::Update(
                    crate::message::UpdateView::AnnounceBlocks { blocks: sent },
                ) && (forall|k: int|
                    0 <= k < sent.len() ==> block_among(blocks@, #[trigger] sent[k])))),
            (old(self).handled_blocks@.len() + blocks@.len() < old(self).options.max_handled_blocks_memory) ==> (forall|j: int|
                (0 <= j < blocks@.len() && crate::blockchain::block_checks_ok(
                    (#[trigger] blocks@[j])@,
                    now,
                )) ==> handled_has(
                    handled_view(final(self).handled_blocks@),
                    blocks@[j]@.hash,
                )),
            (old(self).handled_blocks@.len() + blocks@.len() < old(self).options.max_handled_blocks_memory) ==> (forall|h: Seq<u8>|
                handled_has(handled_view(final(self).handled_blocks@), h) ==> handled_has(
                    handled_view(old(self).handled_blocks@),
                    h,
                ) || exists|j: int| 0 <= j < blocks@.len() && (#[trigger] blocks@[j])@.hash == h),
    {
        let ghost input = blocks@;
        let ghost handled0 = handled_view(self.handled_blocks@);
        let ghost cap = self.options.max_handled_blocks_memory as int;
        let ghost no_clear = handled0.len() + input.len() < cap;
        let sorted = sort_blocks_by_number(blocks);
        let mut valid_blocks: Vec<Block> = Vec::new();
        let n = sorted.len();
        let mut i: usize = 0;
        while i < n
            invariant
                n == sorted@.len(),
                n == input.len(),
                i <= n,
                self.backend.wf(),
                self.options == old(self).options,
                self.subscribers == old(self).subscribers,
                self.subscriptions == old(self).subscriptions,
                handled0 == handled_view(old(self).handled_blocks@),
                cap == self.options.max_handled_blocks_memory as int,
                no_clear == (handled0.len() + input.len() < cap),
                forall|j: int| 0 <= j < n ==> block_among(input, (#[trigger] sorted@[j])@),
                forall|j: int|
                    0 <= j < valid_blocks@.len() ==> block_among(
                        input,
                        (#[trigger] valid_blocks@[j])@,
                    ),
                no_clear ==> handled_view(self.handled_blocks@).len() <= handled0.len() + i,
                no_clear ==> (forall|h: Seq<u8>|
                    handled_has(handled0, h) ==> handled_has(
                        handled_view(self.handled_blocks@),
                        h,
                    )),
                no_clear ==> (forall|h: Seq<u8>|
                    handled_has(handled_view(self.handled_blocks@), h) ==> handled_has(
                        handled0,
                        h,
                    ) || exists|j: int| 0 <= j < i && (#[trigger] sorted@[j])@.hash == h),
                no_clear ==> (forall|j: int|
                    (0 <= j < i && crate::blockchain::block_checks_ok(
                        (#[trigger] sorted@[j])@,
                        now,
                    )) ==> handled_has(
                        handled_view(self.handled_blocks@),
                        sorted@[j]@.hash,
                    )),
            decreases n - i,
        {
            let ghost hcur = handled_view(self.handled_blocks@);
            let already = handled_contains(&self.handled_blocks, &sorted[i].get_hash());
            if !already {
                let ingest = match sorted[i].validate_at(now) {
                    Ok(v) => v.is_valid(),
                    Err(_) => false,
                };
                proof {
                    assert(ingest == crate::blockchain::block_checks_ok(
                        sorted@[i as int]@,
                        now,
                    ));
                }
                if ingest {
                    self.backend.handle_block(sorted[i].clone());
                    if self.handled_blocks.len() >= self.options.max_handled_blocks_memory {
                        proof {
                            if no_clear {
                                assert(false);
                            }
                        }
                        self.handled_blocks = Vec::new();
                    }
                    let ghost hmid = handled_view(self.handled_blocks@);
                    self.handled_blocks.push(sorted[i].get_hash());
                    proof {
                        if no_clear {
                            assert(hmid == hcur);
                            let hnew = handled_view(self.handled_blocks@);
                            assert(hnew =~= hcur.push(sorted@[i as int]@.hash));
                            assert(handled_has(hnew, sorted@[i as int]@.hash)) by {
                                assert(hnew[hcur.len() as int] == sorted@[i as int]@.hash);
                            }
                            assert forall|h: Seq<u8>|
                                handled_has(hcur, h) implies handled_has(hnew, h) by {
                                let x = choose|x: int| 0 <= x < hcur.len() && hcur[x] == h;
                                assert(hnew[x] == h);
                            }
                        }
                    }
                    valid_blocks.push(sorted[i].clone());
                }
            }
            i = i + 1;
        }
        proof {
            if no_clear {
                assert forall|j: int|
                    (0 <= j < input.len() && crate::blockchain::block_checks_ok(
                        (#[trigger] input[j])@,
                        now,
                    )) implies handled_has(
                    handled_view(self.handled_blocks@),
                    input[j]@.hash,
                ) by {
                    assert(block_among(sorted@, input[j]@));
                    let k = choose|k: int| 0 <= k < sorted@.len() && sorted@[k]@ == input[j]@;
                    assert(crate::blockchain::block_checks_ok(sorted@[k]@, now));
                }
                assert forall|h: Seq<u8>|
                    handled_has(handled_view(self.handled_blocks@), h) implies handled_has(
                    handled0,
                    h,
                ) || exists|j: int| 0 <= j < input.len() && (#[trigger] input[j])@.hash == h by {
                    if !handled_has(handled0, h) {
                        let k = choose|k: int|
                            0 <= k < sorted@.len() && (#[trigger] sorted@[k])@.hash == h;
                        assert(block_among(input, sorted@[k]@));
                        let j = choose|j: int| 0 <= j < input.len() && input[j]@ == sorted@[k]@;
                        assert(input[j]@.hash == h);
                    }
                }
            }
        }
        let mut actions: Vec<ShardAction> = Vec::new();
        self.announce_blocks_to_list(true, sender, &valid_blocks, Ghost(input), &mut actions);
        self.announce_blocks_to_list(false, sender, &valid_blocks, Ghost(input), &mut actions);
        actions
    }

    /// Pass the valid blocks on to one peer list, skipping the sender
    /// and peers that appear to know them all.
    fn announce_blocks_to_list(
        &self,
        use_subscriptions: bool,
        sender: &ShardMember,
        valid_blocks: &Vec<Block>,
        input: Ghost<Seq<Block>>,
        actions: &mut Vec<ShardAction>,
    )
        requires
            forall|j: int|
                0 <= j < valid_blocks@.len() ==> block_among(
                    input@,
                    (#[trigger] valid_blocks@[j])@,
                ),
            forall|i: int|
                0 <= i < old(actions)@.len() ==> (#[trigger] old(actions)@[i]
                    matches ShardAction::SendOrDrop { member, message } && member@ != sender@
                    && (message@ matches crate::message::MessageView::Update(
                    crate::message::UpdateView::AnnounceBlocks { blocks: sent },
                ) && (forall|k: int|
                    0 <= k < sent.len() ==> block_among(input@, #[trigger] sent[k])))),
        ensures
            forall|i: int|
                0 <= i < final(actions)@.len() ==> (#[trigger] final(actions)@[i]
                    matches ShardAction::SendOrDrop { member, message } && member@ != sender@
                    && (message@ matches crate::message::MessageView::Update(
                    crate::message::UpdateView::AnnounceBlocks { blocks: sent },
                ) && (forall|k: int|
                    0 <= k < sent.len() ==> block_among(input@, #[trigger] sent[k])))),
    {
        let list = if use_subscriptions {
            &self.subscriptions
        } else {
            &self.subscribers
        };
        let total = list.len();
        let mut peer_idx: usize = 0;
        while peer_idx < total
            invariant
                total == list@.len(),
                peer_idx <= total,
                forall|j: int|
                    0 <= j < valid_blocks@.len() ==> block_among(
                        input@,
                        (#[trigger] valid_blocks@[j])@,
                    ),
                forall|i: int|
                    0 <= i < actions@.len() ==> (#[trigger] actions@[i]
                        matches ShardAction::SendOrDrop { member, message } && member@ != sender@
                        && (message@ matches crate::message::MessageView::Update(
                        crate::message::UpdateView::AnnounceBlocks { blocks: sent },
                    ) && (forall|k: int|
                        0 <= k < sent.len() ==> block_among(input@, #[trigger] sent[k])))),
            decreases total - peer_idx,
        {
            let entry = &list[peer_idx];
            let peer = entry.0.clone();
            let mut sub_blocks: Vec<Block> = Vec::new();
            let m = valid_blocks.len();
            let mut k: usize = 0;
            while k < m
                invariant
                    m == valid_blocks@.len(),
                    k <= m,
                    forall|j: int|
                        0 <= j < valid_blocks@.len() ==> block_among(
                            input@,
                            (#[trigger] valid_blocks@[j])@,
                        ),
                    forall|j: int|
                        0 <= j < sub_blocks@.len() ==> block_among(
                            input@,
                            (#[trigger] sub_blocks@[j])@,
                        ),
                decreases m - k,
            {
                if !entry.1.is_block_known(&valid_blocks[k]) {
                    sub_blocks.push(valid_blocks[k].clone());
                }
                k = k + 1;
            }
            let skip = peer == *sender || sub_blocks.len() == 0;
            if !skip {
                let ghost sent_blocks = sub_blocks@;
                let message = ShardMessage::Update(ShardUpdate::AnnounceBlocks { blocks: sub_blocks });
                proof {
                    assert(message@ matches crate::message::MessageView::Update(
                        crate::message::UpdateView::AnnounceBlocks { blocks: sent },
                    ) && sent =~= Seq::new(sent_blocks.len(), |j: int| sent_blocks[j]@));
                }
                actions.push(ShardAction::SendOrDrop { member: peer, message });
            }
            peer_idx = peer_idx + 1;
        }
    }

    /// Transactions announced by a peer: each one not seen before is
    /// validated and, when valid, staged; the valid newcomers are
    /// passed on to every other peer that does not report them.  No
    /// send ever answers the sender.
    pub fn handle_announce_transactions(
        &mut self,
        sender: &ShardMember,
        transactions: Vec<Transaction>,
        now: u64,
    ) -> (r: Vec<ShardAction>)
        requires
            old(self).wf(),
        ensures
            final(self).wf(),
            final(self).options == old(self).options,
            final(self).subscribers@.len() == old(self).subscribers@.len(),
            final(self).subscriptions@.len() == old(self).subscriptions@.len(),
            old(self).caps_ok() ==> final(self).caps_ok(),
            forall|i: int|
                0 <= i < r@.len() ==> (#[trigger] r@[i] matches ShardAction::SendOrDrop {
                    member,
                    ..
                } && member@ != sender@),
            (old(self).handled_transactions@.len() + transactions@.len() < old(self).options.max_handled_transactions_memory) ==> (forall|j: int|
                (0 <= j < transactions@.len() && crate::block::tx_ok(
                    (#[trigger] transactions@[j])@,
                    now,
                )) ==> handled_has(
                    handled_view(final(self).handled_transactions@),
                    transactions@[j]@.hash,
                )),
            (old(self).handled_transactions@.len() + transactions@.len() < old(self).options.max_handled_transactions_memory) ==> (forall|h: Seq<u8>|
                handled_has(handled_view(final(self).handled_transactions@), h) ==> handled_has(
                    handled_view(old(self).handled_transactions@),
                    h,
                ) || exists|j: int|
                    0 <= j < transactions@.len() && (#[trigger] transactions@[j])@.hash == h),
    {
        let ghost input = transactions@;
        let ghost handled0 = handled_view(self.handled_transactions@);
        let ghost cap = self.options.max_handled_transactions_memory as int;
        let ghost no_clear = handled0.len() + input.len() < cap;
        let mut valid_transactions: Vec<Transaction> = Vec::new();
        let n = transactions.len();
        let mut i: usize = 0;
        while i < n
            invariant
                n == transactions@.len(),
                transactions@ == input,
                i <= n,
                self.backend.wf(),
                self.options == old(self).options,
                self.subscribers == old(self).subscribers,
                self.subscriptions == old(self).subscriptions,
                handled0 == handled_view(old(self).handled_transactions@),
                cap == self.options.max_handled_transactions_memory as int,
                no_clear == (handled0.len() + input.len() < cap),
                no_clear ==> handled_view(self.handled_transactions@).len() <= handled0.len() + i,
                no_clear ==> (forall|h: Seq<u8>|
                    handled_has(handled0, h) ==> handled_has(
                        handled_view(self.handled_transactions@),
                        h,
                    )),
                no_clear ==> (forall|h: Seq<u8>|
                    handled_has(handled_view(self.handled_transactions@), h) ==> handled_has(
                        handled0,
                        h,
                    ) || exists|j: int| 0 <= j < i && (#[trigger] input[j])@.hash == h),
                no_clear ==> (forall|j: int|
                    (0 <= j < i && crate::block::tx_ok((#[trigger] input[j])@, now))
                        ==> handled_has(
                        handled_view(self.handled_transactions@),
                        input[j]@.hash,
                    )),
            decreases n - i,
        {
            let ghost hcur = handled_view(self.handled_transactions@);
            let already = handled_contains(&self.handled_transactions, &transactions[i].get_hash());
            if !already {
                let ingest = match transactions[i].validate_at(now) {
                    Ok(v) => v.is_valid(),
                    Err(_) => false,
                };
                proof {
                    assert(ingest == crate::block::tx_ok(input[i as int]@, now));
                }
                if ingest {
                    self.backend.handle_transaction(transactions[i].clone());
                    if self.handled_transactions.len()
                        >= self.options.max_handled_transactions_memory {
                        proof {
                            if no_clear {
                                assert(false);
                            }
                        }
                        self.handled_transactions = Vec::new();
                    }
                    let ghost hmid = handled_view(self.handled_transactions@);
                    self.handled_transactions.push(transactions[i].get_hash());
                    proof {
                        if no_clear {
                            assert(hmid == hcur);
                            let hnew = handled_view(self.handled_transactions@);
                            assert(hnew =~= hcur.push(input[i as int]@.hash));
                            assert(handled_has(hnew, input[i as int]@.hash)) by {
                                assert(hnew[hcur.len() as int] == input[i as int]@.hash);
                            }
                            assert forall|h: Seq<u8>|
                                handled_has(hcur, h) implies handled_has(hnew, h) by {
                                let x = choose|x: int| 0 <= x < hcur.len() && hcur[x] == h;
                                assert(hnew[x] == h);
                            }
                        }
                    }
                    valid_transactions.push(transactions[i].clone());
                }
            }
            i = i + 1;
        }
        let mut actions: Vec<ShardAction> = Vec::new();
        self.announce_txs_to_list(true, sender, &valid_transactions, &mut actions);
        self.announce_txs_to_list(false, sender, &valid_transactions, &mut actions);
        actions
    }

    /// Pass the valid transactions on to one peer list, skipping the
    /// sender and peers that report them all.
    fn announce_txs_to_list(
        &self,
        use_subscriptions: bool,
        sender: &ShardMember,
        valid_transactions: &Vec<Transaction>,
        actions: &mut Vec<ShardAction>,
    )
        requires
            forall|i: int|
                0 <= i < old(actions)@.len() ==> (#[trigger] old(actions)@[i]
                    matches ShardAction::SendOrDrop { member, .. } && member@ != sender@),
        ensures
            forall|i: int|
                0 <= i < final(actions)@.len() ==> (#[trigger] final(actions)@[i]
                    matches ShardAction::SendOrDrop { member, .. } && member@ != sender@),
    {
        let list = if use_subscriptions {
            &self.subscriptions
        } else {
            &self.subscribers
        };
        let total = list.len();
        let mut peer_idx: usize = 0;
        while peer_idx < total
            invariant
                total == list@.len(),
                peer_idx <= total,
                forall|i: int|
                    0 <= i < actions@.len() ==> (#[trigger] actions@[i]
                        matches ShardAction::SendOrDrop { member, .. } && member@ != sender@),
            decreases total - peer_idx,
        {
            let entry = &list[peer_idx];
            let peer = entry.0.clone();
            let mut subset: Vec<Transaction> = Vec::new();
            let m = valid_transactions.len();
            let mut k: usize = 0;
            while k < m
                invariant
                    m == valid_transactions@.len(),
                    k <= m,
                decreases m - k,
            {
                if !entry.1.is_transaction_known(&valid_transactions[k]) {
                    subset.push(valid_transactions[k].clone());
                }
                k = k + 1;
            }
            let skip = peer == *sender || subset.len() == 0;
            if !skip {
                let message = ShardMessage::Update(
                    ShardUpdate::AnnounceTransactions { transactions: subset },
                );
                actions.push(ShardAction::SendOrDrop { member: peer, message });
            }
            peer_idx = peer_idx + 1;
        }
    }
}


impl<H: ShardHooks> Shard<H> {
    /// One inbound message: route it as the protocol says.  A
    /// subscription is admitted or, when configured, answered with
    /// our subscribers; updates count only from peers we know; the
    /// caps on both peer lists are preserved; and no send that may
    /// drop a peer ever answers the sender.
    pub fn handle_message(
        &mut self,
        sender: &ShardMember,
        message: ShardMessage,
        now: u64,
    ) -> (r: Vec<ShardAction>)
        requires
            old(self).wf(),
        ensures
            final(self).wf(),
            final(self).options == old(self).options,
            old(self).caps_ok() ==> final(self).caps_ok(),
            forall|i: int|
                0 <= i < r@.len() ==> ((#[trigger] r@[i]) matches ShardAction::SendOrDrop {
                    member,
                    ..
                } ==> member@ != sender@),
            message@ == crate::message::MessageView::Subscribe ==> subscribe_post(
                *old(self),
                *final(self),
                sender@,
                now,
                subscribe_admitted(*old(self), sender@),
            ) && (if !subscribe_admitted(*old(self), sender@) && old(self).options.announce_members_on_failed_subscription {
                r@.len() == 1 && (r@[0] matches ShardAction::Send { member, message: m }
                    && member@ == sender@ && (m@ matches crate::message::MessageView::Update(
                    crate::message::UpdateView::AnnounceMembers { members },
                ) && members == Seq::new(
                    final(self).subscribers@.len(),
                    |i: int| final(self).subscribers@[i].0@,
                )))
            } else {
                r@.len() == 0
            }),
            message@ == crate::message::MessageView::Unsubscribe ==> !has_peer(
                final(self).subscribers@,
                sender@,
            ) && (forall|m: MemberView|
                m != sender@ ==> has_peer(final(self).subscribers@, m) == has_peer(
                    old(self).subscribers@,
                    m,
                )) && final(self).subscriptions == old(self).subscriptions && final(self).backend
                == old(self).backend && r@.len() == 0,
            message@ == crate::message::MessageView::Heartbeat ==> heartbeat_post(
                *old(self),
                *final(self),
                sender@,
                now,
            ) && r@.len() == 0,
            (message@ matches crate::message::MessageView::Update(_) && !has_peer(
                old(self).subscribers@,
                sender@,
            ) && !has_peer(old(self).subscriptions@, sender@)) ==> *final(self) == *old(self)
                && r@.len() == 0,
            (message@ matches crate::message::MessageView::Update(
                crate::message::UpdateView::Status { .. },
            ) && (has_peer(old(self).subscribers@, sender@) || has_peer(
                old(self).subscriptions@,
                sender@,
            ))) ==> r@.len() == (if old(self).options.send_blocks_diff_on_statuses {
                1int
            } else {
                0
            }) + (if old(self).options.send_transactions_diff_on_statuses {
                1int
            } else {
                0
            }) && (forall|i: int|
                0 <= i < r@.len() ==> (#[trigger] r@[i] matches ShardAction::Send {
                    member,
                    ..
                } && member@ == sender@)),
            message@ matches crate::message::MessageView::Update(
                crate::message::UpdateView::AnnounceMembers { members: mv },
            ) ==> ((has_peer(old(self).subscribers@, sender@) || has_peer(
                old(self).subscriptions@,
                sender@,
            )) ==> *final(self) == *old(self) && (forall|i: int|
                0 <= i < r@.len() ==> (#[trigger] r@[i] matches ShardAction::SubscribeTo {
                    member,
                } && mv.contains(member@))) && ((old(self).options.subscribe_on_announced_members && has_peer(
                old(self).subscriptions@,
                sender@,
            )) ==> r@.len() == mv.len())),
    {
        match message {
            ShardMessage::Subscribe => {
                let admitted = self.handle_subscribe(sender.clone(), now);
                if !admitted && self.options.announce_members_on_failed_subscription {
                    let members = self.subscribers_members();
                    let mut actions: Vec<ShardAction> = Vec::new();
                    actions.push(
                        ShardAction::Send {
                            member: sender.clone(),
                            message: ShardMessage::Update(
                                ShardUpdate::AnnounceMembers { members },
                            ),
                        },
                    );
                    actions
                } else {
                    Vec::new()
                }
            },
            ShardMessage::Unsubscribe => {
                self.handle_unsubscribe(sender);
                Vec::new()
            },
            ShardMessage::Heartbeat => {
                self.handle_heartbeat(sender, now);
                Vec::new()
            },
            ShardMessage::Update(update) => {
                let known = match find_peer(&self.subscribers, sender) {
                    Some(_) => true,
                    None => match find_peer(&self.subscriptions, sender) {
                        Some(_) => true,
                        None => false,
                    },
                };
                if !known {
                    return Vec::new();
                }
                match update {
                    ShardUpdate::Status { head_block, tail_block, staged_transactions } => self
                        .handle_status(sender, head_block, tail_block, staged_transactions, now),
                    ShardUpdate::AnnounceMembers { members } => {
                        let ghost mv = Seq::new(members@.len(), |k: int| members@[k]@);
                        let ghost members_snapshot = members@;
                        let candidates = self.handle_announce_members(sender, members);
                        proof {
                            assert forall|k: int|
                                0 <= k < candidates@.len() implies mv.contains(
                                (#[trigger] candidates@[k])@,
                            ) by {
                                assert(member_among(members_snapshot, candidates@[k]@));
                                let j = choose|j: int|
                                    0 <= j < members_snapshot.len() && members_snapshot[j]@
                                        == candidates@[k]@;
                                assert(mv[j] == candidates@[k]@);
                            }
                        }
                        let mut actions: Vec<ShardAction> = Vec::new();
                        let n = candidates.len();
                        let mut i: usize = 0;
                        while i < n
                            invariant
                                n == candidates@.len(),
                                i <= n,
                                actions@.len() == i,
                                forall|k: int|
                                    0 <= k < candidates@.len() ==> mv.contains(
                                        (#[trigger] candidates@[k])@,
                                    ),
                                forall|k: int|
                                    0 <= k < actions@.len() ==> ((#[trigger] actions@[k])
                                        matches ShardAction::SubscribeTo { member } && mv.contains(
                                        member@,
                                    )),
                            decreases n - i,
                        {
                            actions.push(
                                ShardAction::SubscribeTo { member: candidates[i].clone() },
                            );
                            i = i + 1;
                        }
                        actions
                    },
                    ShardUpdate::AnnounceBlocks { blocks } => self.handle_announce_blocks(
                        sender,
                        blocks,
                        now,
                    ),
                    ShardUpdate::AnnounceTransactions { transactions } => self
                        .handle_announce_transactions(sender, transactions, now),
                }
            },
        }
    }

    /// One timer pass: shrink both peer lists to their caps, send an
    /// unsubscription to each member shrunk away from our
    /// subscriptions, drop peers whose heartbeats went silent, and
    /// send our own heartbeats and status reports as they fall due.
    /// Afterwards both lists are within their caps.
    pub fn tick(&mut self, now: u64) -> (r: Vec<ShardAction>)
        requires
            old(self).wf(),
        ensures
            final(self).wf(),
            final(self).options == old(self).options,
            final(self).backend == old(self).backend,
            final(self).caps_ok(),
            forall|j: int|
                0 <= j < final(self).subscribers@.len() ==> tick_descended(
                    old(self).subscribers@,
                    #[trigger] final(self).subscribers@[j],
                    now,
                    old(self).options,
                ),
            forall|j: int|
                0 <= j < final(self).subscriptions@.len() ==> tick_descended(
                    old(self).subscriptions@,
                    #[trigger] final(self).subscriptions@[j],
                    now,
                    old(self).options,
                ),
            forall|i: int|
                0 <= i < r@.len() ==> (#[trigger] r@[i] matches ShardAction::Send {
                    message,
                    ..
                } && message@ == crate::message::MessageView::Unsubscribe) || (r@[i]
                    matches ShardAction::SendOrDrop { member, message } && (has_peer(
                    final(self).subscribers@,
                    member@,
                ) || has_peer(final(self).subscriptions@, member@)) && (message@
                    == crate::message::MessageView::Heartbeat || message@
                    matches crate::message::MessageView::Update(
                    crate::message::UpdateView::Status { .. },
                ))),
    {
        let mut actions: Vec<ShardAction> = Vec::new();
        if self.subscribers.len() > self.options.max_subscribers {
            let max = self.options.max_subscribers;
            self.shrink_subscribers(max);
        }
        if self.subscriptions.len() > self.options.max_subscriptions {
            let max = self.options.max_subscriptions;
            let evicted = self.shrink_subscriptions(max);
            let n = evicted.len();
            let mut i: usize = 0;
            while i < n
                invariant
                    n == evicted@.len(),
                    i <= n,
                    forall|a: int|
                        0 <= a < actions@.len() ==> (#[trigger] actions@[a]
                            matches ShardAction::Send { message, .. } && message@
                            == crate::message::MessageView::Unsubscribe),
                decreases n - i,
            {
                actions.push(
                    ShardAction::Send {
                        member: evicted[i].clone(),
                        message: ShardMessage::Unsubscribe,
                    },
                );
                i = i + 1;
            }
        }
        let ghost acts_mid = actions@;
        proof {
            assert(forall|a: int|
                0 <= a < acts_mid.len() ==> (#[trigger] acts_mid[a] matches ShardAction::Send {
                    message,
                    ..
                } && message@ == crate::message::MessageView::Unsubscribe));
        }
        let ghost mid_subscriptions = self.subscriptions@;
        let ghost mid_subscribers = self.subscribers@;
        proof {
            assert forall|k: int|
                0 <= k < mid_subscriptions.len() implies old(self).subscriptions@.contains(
                #[trigger] mid_subscriptions[k],
            ) by {
                if old(self).subscriptions@ == mid_subscriptions {
                    assert(old(self).subscriptions@[k] == mid_subscriptions[k]);
                }
            }
            assert forall|k: int|
                0 <= k < mid_subscribers.len() implies old(self).subscribers@.contains(
                #[trigger] mid_subscribers[k],
            ) by {
                if old(self).subscribers@ == mid_subscribers {
                    assert(old(self).subscribers@[k] == mid_subscribers[k]);
                }
            }
        }
        let head_block = self.backend.get_head_block();
        let tail_block = self.backend.get_tail_block();
        let staged_transactions = self.backend.get_staged_transactions();
        let status_message = ShardMessage::Update(
            ShardUpdate::Status { head_block, tail_block, staged_transactions },
        );
        self.tick_list(true, now, &status_message, &mut actions);
        let ghost acts_two = actions@;
        self.tick_list(false, now, &status_message, &mut actions);
        proof {
            assert forall|i: int|
                0 <= i < actions@.len() implies ((#[trigger] actions@[i]
                matches ShardAction::Send { message, .. } && message@
                == crate::message::MessageView::Unsubscribe) || (actions@[i]
                matches ShardAction::SendOrDrop { member, message } && (has_peer(
                self.subscribers@,
                member@,
            ) || has_peer(self.subscriptions@, member@)) && (message@
                == crate::message::MessageView::Heartbeat || message@
                matches crate::message::MessageView::Update(
                crate::message::UpdateView::Status { .. },
            )))) by {
                if i < acts_mid.len() {
                    assert(actions@[i] == acts_mid[i]);
                } else if i < acts_two.len() {
                    assert(actions@[i] == acts_two[i]);
                    assert(status_message@ matches crate::message::MessageView::Update(
                        crate::message::UpdateView::Status { .. },
                    ));
                } else {
                    assert(status_message@ matches crate::message::MessageView::Update(
                        crate::message::UpdateView::Status { .. },
                    ));
                }
            }
            assert forall|j: int|
                0 <= j < self.subscriptions@.len() implies tick_descended(
                old(self).subscriptions@,
                #[trigger] self.subscriptions@[j],
                now,
                old(self).options,
            ) by {
                assert(tick_entry_from(
                    mid_subscriptions,
                    self.subscriptions@[j],
                    now,
                    old(self).options,
                ));
                let k = choose|k: int|
                    0 <= k < mid_subscriptions.len() && (self.subscriptions@[j]).0@
                        == (#[trigger] mid_subscriptions[k]).0@ && peer_alive(
                        mid_subscriptions[k].1@,
                        now,
                        old(self).options,
                    ) && self.subscriptions@[j].1@ == ticked_status(
                        mid_subscriptions[k].1@,
                        now,
                        old(self).options,
                    );
                assert(old(self).subscriptions@.contains(mid_subscriptions[k]));
                assert(mid_subscriptions[k].0@ == self.subscriptions@[j].0@ && peer_alive(
                    mid_subscriptions[k].1@,
                    now,
                    old(self).options,
                ) && self.subscriptions@[j].1@ == ticked_status(
                    mid_subscriptions[k].1@,
                    now,
                    old(self).options,
                ));
            }
            assert forall|j: int|
                0 <= j < self.subscribers@.len() implies tick_descended(
                old(self).subscribers@,
                #[trigger] self.subscribers@[j],
                now,
                old(self).options,
            ) by {
                assert(tick_entry_from(
                    mid_subscribers,
                    self.subscribers@[j],
                    now,
                    old(self).options,
                ));
                let k = choose|k: int|
                    0 <= k < mid_subscribers.len() && (self.subscribers@[j]).0@
                        == (#[trigger] mid_subscribers[k]).0@ && peer_alive(
                        mid_subscribers[k].1@,
                        now,
                        old(self).options,
                    ) && self.subscribers@[j].1@ == ticked_status(
                        mid_subscribers[k].1@,
                        now,
                        old(self).options,
                    );
                assert(old(self).subscribers@.contains(mid_subscribers[k]));
                assert(mid_subscribers[k].0@ == self.subscribers@[j].0@ && peer_alive(
                    mid_subscribers[k].1@,
                    now,
                    old(self).options,
                ) && self.subscribers@[j].1@ == ticked_status(
                    mid_subscribers[k].1@,
                    now,
                    old(self).options,
                ));
            }
        }
        actions
    }

    /// Timer checks over one peer list: drop the silent, stamp and
    /// queue our own heartbeats and status reports.
    fn tick_list(
        &mut self,
        use_subscriptions: bool,
        now: u64,
        status_message: &ShardMessage,
        actions: &mut Vec<ShardAction>,
    )
        ensures
            final(self).backend == old(self).backend,
            final(self).options == old(self).options,
            final(self).handled_blocks == old(self).handled_blocks,
            final(self).handled_transactions == old(self).handled_transactions,
            use_subscriptions ==> final(self).subscribers == old(self).subscribers
                && tick_list_post(
                old(self).subscriptions@,
                final(self).subscriptions@,
                old(actions)@,
                final(actions)@,
                now,
                old(self).options,
                status_message@,
            ),
            !use_subscriptions ==> final(self).subscriptions == old(self).subscriptions
                && tick_list_post(
                old(self).subscribers@,
                final(self).subscribers@,
                old(actions)@,
                final(actions)@,
                now,
                old(self).options,
                status_message@,
            ),
    {
        let ghost opts = self.options;
        let ghost acts0 = actions@;
        let mut kept: Vec<(ShardMember, ShardMemberStatus)> = Vec::new();
        let mut list = if use_subscriptions {
            let mut swapped: Vec<(ShardMember, ShardMemberStatus)> = Vec::new();
            core::mem::swap(&mut swapped, &mut self.subscriptions);
            swapped
        } else {
            let mut swapped: Vec<(ShardMember, ShardMemberStatus)> = Vec::new();
            core::mem::swap(&mut swapped, &mut self.subscribers);
            swapped
        };
        let ghost list0 = list@;
        let ghost mut src: Seq<int> = Seq::empty();
        let ghost mut hb_idx: Seq<int> = Seq::empty();
        let ghost mut st_idx: Seq<int> = Seq::empty();
        let n = list.len();
        let mut i: usize = 0;
        while i < n
            invariant
                n == list@.len(),
                list@ == list0,
                i <= n,
                opts == self.options,
                src.len() == kept@.len(),
                kept@.len() <= i,
                forall|j: int| 0 <= j < src.len() ==> 0 <= #[trigger] src[j] < i,
                forall|j1: int, j2: int| 0 <= j1 < j2 < src.len() ==> src[j1] < src[j2],
                forall|j: int|
                    0 <= j < kept@.len() ==> (#[trigger] kept@[j]).0@ == list0[src[j]].0@,
                forall|j: int|
                    0 <= j < kept@.len() ==> peer_alive(list0[#[trigger] src[j]].1@, now, opts),
                forall|j: int|
                    0 <= j < kept@.len() ==> (#[trigger] kept@[j]).1@ == ticked_status(
                        list0[src[j]].1@,
                        now,
                        opts,
                    ),
                forall|k: int|
                    (0 <= k < i && peer_alive((#[trigger] list0[k]).1@, now, opts)) ==> has_peer(
                        kept@,
                        list0[k].0@,
                    ),
                actions@.len() >= acts0.len(),
                forall|a: int| 0 <= a < acts0.len() ==> #[trigger] actions@[a] == acts0[a],
                forall|a: int|
                    acts0.len() <= a < actions@.len() ==> (#[trigger] actions@[a]
                        matches ShardAction::SendOrDrop { member, message } && has_peer(
                        kept@,
                        member@,
                    ) && (message@ == crate::message::MessageView::Heartbeat || message@
                        == status_message@)),
                hb_idx.len() == kept@.len(),
                st_idx.len() == kept@.len(),
                forall|j: int|
                    (0 <= j < kept@.len() && out_heartbeat_due(list0[src[j]].1@, now, opts))
                        ==> acts0.len() <= #[trigger] hb_idx[j] < actions@.len() && (actions@[hb_idx[j]]
                        matches ShardAction::SendOrDrop { member, message } && member@
                        == kept@[j].0@ && message@ == crate::message::MessageView::Heartbeat),
                forall|j: int|
                    (0 <= j < kept@.len() && out_status_due(list0[src[j]].1@, now, opts))
                        ==> acts0.len() <= #[trigger] st_idx[j] < actions@.len() && (actions@[st_idx[j]]
                        matches ShardAction::SendOrDrop { member, message } && member@
                        == kept@[j].0@ && message@ == status_message@),
            decreases n - i,
        {
            let ghost kept_in = kept@;
            let ghost mut hb_ai: int = -1;
            let ghost mut st_ai: int = -1;
            let overdue = now.saturating_sub(list[i].1.last_in_heartbeat)
                > self.options.max_in_heartbeat_delay;
            proof {
                assert(peer_alive(list0[i as int].1@, now, opts) == !overdue);
            }
            if !overdue {
                let ghost kj = kept@.len() as int;
                let member = list[i].0.clone();
                let mut status = (list[i].0.clone(), clone_status(&list[i].1));
                let hb_due = now.saturating_sub(status.1.last_out_heartbeat)
                    > self.options.min_out_heartbeat_delay;
                let st_due = now.saturating_sub(status.1.last_out_status)
                    > self.options.min_out_status_delay;
                proof {
                    assert(hb_due == out_heartbeat_due(list0[i as int].1@, now, opts));
                    assert(st_due == out_status_due(list0[i as int].1@, now, opts));
                }
                if hb_due {
                    status.1.last_out_heartbeat = now;
                }
                if st_due {
                    status.1.last_out_status = now;
                }
                kept.push(status);
                proof {
                    src = src.push(i as int);
                    assert(kept@[kj].0@ == list0[i as int].0@);
                    assert(kept@[kj].1@ =~= ticked_status(list0[i as int].1@, now, opts));
                    assert(has_peer(kept@, list0[i as int].0@)) by {
                        assert(kept@[kj].0@ == list0[i as int].0@);
                    }
                }
                if hb_due {
                    proof {
                        hb_ai = actions@.len() as int;
                    }
                    actions.push(
                        ShardAction::SendOrDrop {
                            member: member.clone(),
                            message: ShardMessage::Heartbeat,
                        },
                    );
                    proof {
                        assert(actions@[hb_ai] matches ShardAction::SendOrDrop {
                            member: am,
                            message,
                        } && am@ == kept@[kj].0@ && message@
                            == crate::message::MessageView::Heartbeat);
                    }
                }
                if st_due {
                    proof {
                        st_ai = actions@.len() as int;
                    }
                    actions.push(
                        ShardAction::SendOrDrop { member, message: status_message.clone() },
                    );
                    proof {
                        assert(actions@[st_ai] matches ShardAction::SendOrDrop {
                            member: am,
                            message,
                        } && am@ == kept@[kj].0@ && message@ == status_message@);
                    }
                }
            }
            proof {
                if kept@.len() > kept_in.len() {
                    hb_idx = hb_idx.push(hb_ai);
                    st_idx = st_idx.push(st_ai);
                }
                let kept_now = kept@;
                assert forall|k: int|
                    (0 <= k < i + 1 && peer_alive((#[trigger] list0[k]).1@, now, opts)) implies
                    has_peer(kept_now, list0[k].0@) by {
                    if k < i {
                        assert(has_peer(kept_in, list0[k].0@));
                        let x = choose|x: int|
                            0 <= x < kept_in.len() && kept_in[x].0@ == list0[k].0@;
                        assert(kept_now[x].0@ == list0[k].0@);
                    }
                }
            }
            i = i + 1;
        }
        proof {
            assert forall|j: int|
                0 <= j < kept@.len() implies tick_entry_from(
                list0,
                #[trigger] kept@[j],
                now,
                opts,
            ) by {
                assert(0 <= src[j] < list0.len() && kept@[j].0@ == list0[src[j]].0@ && peer_alive(
                    list0[src[j]].1@,
                    now,
                    opts,
                ) && kept@[j].1@ == ticked_status(list0[src[j]].1@, now, opts));
            }
            assert forall|j: int|
                0 <= j < kept@.len() implies (out_heartbeat_due(
                list0[src[j]].1@,
                now,
                opts,
            ) ==> exists|a: int|
                acts0.len() <= a < actions@.len() && (#[trigger] actions@[a]
                    matches ShardAction::SendOrDrop { member, message } && member@
                    == (#[trigger] kept@[j]).0@ && message@
                    == crate::message::MessageView::Heartbeat)) && (out_status_due(
                list0[src[j]].1@,
                now,
                opts,
            ) ==> exists|a: int|
                acts0.len() <= a < actions@.len() && (#[trigger] actions@[a]
                    matches ShardAction::SendOrDrop { member, message } && member@
                    == kept@[j].0@ && message@ == status_message@)) by {
                if out_heartbeat_due(list0[src[j]].1@, now, opts) {
                    assert(actions@[hb_idx[j]] matches ShardAction::SendOrDrop {
                        member,
                        message,
                    } && member@ == kept@[j].0@ && message@
                        == crate::message::MessageView::Heartbeat);
                }
                if out_status_due(list0[src[j]].1@, now, opts) {
                    assert(actions@[st_idx[j]] matches ShardAction::SendOrDrop {
                        member,
                        message,
                    } && member@ == kept@[j].0@ && message@ == status_message@);
                }
            }
            assert(peers_unique(list0) ==> peers_unique(kept@)) by {
                if peers_unique(list0) {
                    assert forall|p: int, q: int|
                        0 <= p < q < kept@.len() implies kept@[p].0@ != kept@[q].0@ by {
                        assert(kept@[p].0@ == list0[src[p]].0@);
                        assert(kept@[q].0@ == list0[src[q]].0@);
                    }
                }
            }
        }
        if use_subscriptions {
            self.subscriptions = kept;
        } else {
            self.subscribers = kept;
        }
    }

    /// Admit a block locally — the backend decides exactly as
    /// `handle_block` states — then pass it on with one announcement
    /// per peer, subscriptions first, subscribers after.
    pub fn announce_block(&mut self, block: Block) -> (r: Vec<ShardAction>)
        requires
            old(self).wf(),
        ensures
            final(self).wf(),
            final(self).options == old(self).options,
            final(self).subscribers == old(self).subscribers,
            final(self).subscriptions == old(self).subscriptions,
            old(self).caps_ok() ==> final(self).caps_ok(),
            !crate::authorities::holds_key(
                old(self).backend.blockchain.authorities@,
                block@.validator,
            ) ==> final(self).backend.blockchain == old(self).backend.blockchain && final(self).backend.staged_view() == old(self).backend.staged_view(),
            crate::authorities::holds_key(
                old(self).backend.blockchain.authorities@,
                block@.validator,
            ) ==> crate::backend::admit_block_post(
                old(self).backend,
                final(self).backend,
                block,
                !crate::blocks_index::has_hash(
                    old(self).backend.blockchain.blocks@,
                    block@.hash,
                ),
            ) || (final(self).backend.blockchain == old(self).backend.blockchain && final(self).backend.staged_view() == old(self).backend.staged_view()),
            r@.len() == old(self).subscriptions@.len() + old(self).subscribers@.len(),
            forall|i: int|
                0 <= i < old(self).subscriptions@.len() ==> (#[trigger] r@[i]
                    matches ShardAction::SendOrDrop { member, message } && member@ == old(self).subscriptions@[i].0@ && message@ == crate::message::MessageView::Update(
                    crate::message::UpdateView::AnnounceBlocks { blocks: seq![block@] },
                )),
            forall|i: int|
                old(self).subscriptions@.len() <= i < r@.len() ==> (#[trigger] r@[i]
                    matches ShardAction::SendOrDrop { member, message } && member@ == old(self).subscribers@[i - old(self).subscriptions@.len()].0@ && message@
                    == crate::message::MessageView::Update(
                    crate::message::UpdateView::AnnounceBlocks { blocks: seq![block@] },
                )),
    {
        let ghost gb = block@;
        let admitted = self.backend.handle_block(block.clone());
        proof {
            if crate::authorities::holds_key(
                old(self).backend.blockchain.authorities@,
                gb.validator,
            ) {
                if admitted {
                    assert(crate::backend::admit_block_post(
                        old(self).backend,
                        self.backend,
                        block,
                        true,
                    ));
                }
            }
        }
        let message = ShardMessage::Update(
            ShardUpdate::AnnounceBlocks { blocks: vec![block] },
        );
        proof {
            assert(message@ matches crate::message::MessageView::Update(
                crate::message::UpdateView::AnnounceBlocks { blocks },
            ) && blocks =~= seq![gb]);
        }
        self.broadcast(&message)
    }

    /// Stage a transaction locally — the backend decides exactly as
    /// `handle_transaction` states — then pass it on with one
    /// announcement per peer, subscriptions first, subscribers after.
    pub fn announce_transaction(&mut self, transaction: Transaction) -> (r: Vec<ShardAction>)
        requires
            old(self).wf(),
        ensures
            final(self).wf(),
            final(self).options == old(self).options,
            final(self).subscribers == old(self).subscribers,
            final(self).subscriptions == old(self).subscriptions,
            old(self).caps_ok() ==> final(self).caps_ok(),
            final(self).backend.blockchain.blocks == old(self).backend.blockchain.blocks,
            final(self).backend.staged_view() == old(self).backend.staged_view() || final(self).backend.staged_view() == old(self).backend.staged_view().push(transaction@),
            r@.len() == old(self).subscriptions@.len() + old(self).subscribers@.len(),
            forall|i: int|
                0 <= i < old(self).subscriptions@.len() ==> (#[trigger] r@[i]
                    matches ShardAction::SendOrDrop { member, message } && member@ == old(self).subscriptions@[i].0@ && message@ == crate::message::MessageView::Update(
                    crate::message::UpdateView::AnnounceTransactions {
                        transactions: seq![transaction@],
                    },
                )),
            forall|i: int|
                old(self).subscriptions@.len() <= i < r@.len() ==> (#[trigger] r@[i]
                    matches ShardAction::SendOrDrop { member, message } && member@ == old(self).subscribers@[i - old(self).subscriptions@.len()].0@ && message@
                    == crate::message::MessageView::Update(
                    crate::message::UpdateView::AnnounceTransactions {
                        transactions: seq![transaction@],
                    },
                )),
    {
        let ghost gt = transaction@;
        self.backend.handle_transaction(transaction.clone());
        let message = ShardMessage::Update(
            ShardUpdate::AnnounceTransactions { transactions: vec![transaction] },
        );
        proof {
            assert(message@ matches crate::message::MessageView::Update(
                crate::message::UpdateView::AnnounceTransactions { transactions },
            ) && transactions =~= seq![gt]);
        }
        self.broadcast(&message)
    }

    /// One send to every peer: subscriptions first, subscribers after,
    /// each carrying this message.
    fn broadcast(&self, message: &ShardMessage) -> (r: Vec<ShardAction>)
        ensures
            r@.len() == self.subscriptions@.len() + self.subscribers@.len(),
            forall|i: int|
                0 <= i < self.subscriptions@.len() ==> (#[trigger] r@[i]
                    matches ShardAction::SendOrDrop { member, message: m } && member@
                    == self.subscriptions@[i].0@ && m@ == message@),
            forall|i: int|
                self.subscriptions@.len() <= i < r@.len() ==> (#[trigger] r@[i]
                    matches ShardAction::SendOrDrop { member, message: m } && member@
                    == self.subscribers@[i - self.subscriptions@.len()].0@ && m@ == message@),
    {
        let mut actions: Vec<ShardAction> = Vec::new();
        let n = self.subscriptions.len();
        let mut i: usize = 0;
        while i < n
            invariant
                n == self.subscriptions@.len(),
                i <= n,
                actions@.len() == i,
                forall|k: int|
                    0 <= k < i ==> (#[trigger] actions@[k] matches ShardAction::SendOrDrop {
                        member,
                        message: m,
                    } && member@ == self.subscriptions@[k].0@ && m@ == message@),
            decreases n - i,
        {
            actions.push(
                ShardAction::SendOrDrop {
                    member: self.subscriptions[i].0.clone(),
                    message: message.clone(),
                },
            );
            i = i + 1;
        }
        let m = self.subscribers.len();
        let mut k: usize = 0;
        while k < m
            invariant
                m == self.subscribers@.len(),
                n == self.subscriptions@.len(),
                k <= m,
                actions@.len() == n + k,
                forall|j: int|
                    0 <= j < n ==> (#[trigger] actions@[j] matches ShardAction::SendOrDrop {
                        member,
                        message: m2,
                    } && member@ == self.subscriptions@[j].0@ && m2@ == message@),
                forall|j: int|
                    n <= j < n + k ==> (#[trigger] actions@[j] matches ShardAction::SendOrDrop {
                        member,
                        message: m2,
                    } && member@ == self.subscribers@[j - n].0@ && m2@ == message@),
            decreases m - k,
        {
            actions.push(
                ShardAction::SendOrDrop {
                    member: self.subscribers[k].0.clone(),
                    message: message.clone(),
                },
            );
            k = k + 1;
        }
        actions
    }
}

/// A copy of a peer record.
fn clone_status(st: &ShardMemberStatus) -> (r: ShardMemberStatus)
    ensures
        r@ == st@,
{
    let head = match &st.head_block {
        Some(b) => Some(b.clone()),
        None => None,
    };
    let tail = match &st.tail_block {
        Some(b) => Some(b.clone()),
        None => None,
    };
    let mut staged: Vec<crate::hash::Hash> = Vec::new();
    let n = st.staged_transactions.len();
    let mut i: usize = 0;
    while i < n
        invariant
            n == st.staged_transactions@.len(),
            i <= n,
            staged@.len() == i,
            forall|j: int| 0 <= j < i ==> staged@[j]@ == st.staged_transactions@[j]@,
        decreases n - i,
    {
        staged.push(st.staged_transactions[i]);
        i = i + 1;
    }
    let r = ShardMemberStatus {
        head_block: head,
        tail_block: tail,
        staged_transactions: staged,
        last_in_heartbeat: st.last_in_heartbeat,
        last_out_heartbeat: st.last_out_heartbeat,
        last_out_status: st.last_out_status,
    };
    proof {
        assert(r@.staged_transactions =~= st@.staged_transactions);
        assert(r@ =~= st@);
    }
    r
}

} // verus!
