//! The overlay's wire messages.

use vstd::prelude::*;
use vstd::string::StringExecFns;

use crate::block::{Block, BlockView};
use crate::codec::{
    block_shape_ok, enc_block, enc_tx, tx_shape_ok,
};
use crate::crypto::{b64_of, pk_bytes_ok};
use crate::json::{
    arr_push, jv_view, jval_get, lemma_jv_views_index, lemma_jv_views_len, lemma_obj_get_at,
    obj_push, JVal, JsonError, JsonValue,
};
use crate::keys::PublicKey;
use crate::transaction::{Transaction, TxView};

verus! {

/// Mathematical model of a member identity.
#[verifier::ext_equal]
pub struct MemberView {
    pub client_public: Seq<u8>,
    pub server_address: Seq<char>,
}

/// A shard member: a client key and the server that relays to it.
#[derive(Debug)]
pub struct ShardMember {
    pub client_public: PublicKey,
    pub server_address: String,
}

impl View for ShardMember {
    type V = MemberView;

    open spec fn view(&self) -> MemberView {
        MemberView { client_public: self.client_public@, server_address: self.server_address@ }
    }
}

impl Clone for ShardMember {
    /// An identical member.
    fn clone(&self) -> (res: Self)
        ensures
            res@ == self@,
    {
        ShardMember {
            client_public: self.client_public.clone(),
            server_address: self.server_address.clone(),
        }
    }
}

impl PartialEq for ShardMember {
    fn eq(&self, other: &ShardMember) -> (r: bool) {
        self.client_public == other.client_public && self.server_address == other.server_address
    }
}

impl Eq for ShardMember {

}

impl vstd::std_specs::cmp::PartialEqSpecImpl for ShardMember {
    open spec fn obeys_eq_spec() -> bool {
        true
    }

    open spec fn eq_spec(&self, other: &ShardMember) -> bool {
        self@ == other@
    }
}

/// Whether a member model has the shapes a document can carry.
pub open spec fn member_shape_ok(m: MemberView) -> bool {
    pk_bytes_ok(m.client_public)
}

/// The document form of a member.
pub open spec fn enc_member(m: MemberView) -> JVal {
    JVal::Obj(
        seq![
            ("format"@, JVal::Num(1)),
            ("client"@, JVal::Str(b64_of(m.client_public))),
            ("server"@, JVal::Str(m.server_address)),
        ],
    )
}

proof fn lemma_enc_member_fields(x: MemberView)
    ensures
        jval_get(enc_member(x), "format"@) == Some(JVal::Num(1)),
        jval_get(enc_member(x), "client"@) == Some(JVal::Str(b64_of(x.client_public))),
        jval_get(enc_member(x), "server"@) == Some(JVal::Str(x.server_address)),
{
    reveal_strlit("format");
    reveal_strlit("client");
    reveal_strlit("server");
    let fields = seq![
        ("format"@, JVal::Num(1)),
        ("client"@, JVal::Str(b64_of(x.client_public))),
        ("server"@, JVal::Str(x.server_address)),
    ];
    assert("format"@.len() == 6 && "client"@.len() == 6 && "server"@.len() == 6);
    assert("format"@[0] == 'f' && "client"@[0] == 'c' && "server"@[0] == 's');
    lemma_obj_get_at(fields, "format"@, 0);
    lemma_obj_get_at(fields, "client"@, 1);
    lemma_obj_get_at(fields, "server"@, 2);
}

impl ShardMember {
    /// The document form of this member.
    pub fn to_json(&self) -> (r: JsonValue)
        ensures
            r@ == enc_member(self@),
    {
        let mut fields: Vec<(String, JsonValue)> = Vec::new();
        obj_push(&mut fields, "format", JsonValue::Num(1));
        obj_push(&mut fields, "client", JsonValue::of_string(self.client_public.to_base64()));
        obj_push(&mut fields, "server", JsonValue::of_string(self.server_address.clone()));
        let r = JsonValue::Obj(fields);
        proof {
            assert(r@ matches JVal::Obj(f) && f =~= (match enc_member(self@) {
                JVal::Obj(g) => g,
                _ => f,
            }));
        }
        r
    }

    /// The member whose document this is: a canonical document
    /// decodes to the member it was written from.
    pub fn from_json(j: &JsonValue) -> (r: Result<ShardMember, JsonError>)
        ensures
            forall|x: MemberView|
                (j@ == enc_member(x) && member_shape_ok(x)) ==> (r matches Ok(m) && m@ == x),
            r is Ok ==> jval_get(j@, "format"@) == Some(JVal::Num(1)),
            forall|v: u64|
                (jval_get(j@, "format"@) == Some(JVal::Num(v)) && v != 1) ==> r == Err::<
                    ShardMember,
                    JsonError,
                >(JsonError::InvalidStandard(v)),

    {
        let format_num = match crate::codec::read_u64_field(j, "format") {
            Ok(n) => n,
            Err(e) => {
                proof {
                    assert forall|x: MemberView| !(j@ == enc_member(x) && member_shape_ok(x)) by {
                        if j@ == enc_member(x) {
                            lemma_enc_member_fields(x);
                        }
                    }
                }
                return Err(e);
            },
        };
        if format_num != 1 {
            proof {
                assert forall|x: MemberView| !(j@ == enc_member(x) && member_shape_ok(x)) by {
                    if j@ == enc_member(x) {
                        lemma_enc_member_fields(x);
                    }
                }
            }
            return Err(JsonError::InvalidStandard(format_num));
        }
        let client = match crate::codec::read_key_field(j, "client") {
            Ok(k) => k,
            Err(e) => {
                proof {
                    assert forall|x: MemberView| !(j@ == enc_member(x) && member_shape_ok(x)) by {
                        if j@ == enc_member(x) {
                            lemma_enc_member_fields(x);
                        }
                    }
                }
                return Err(e);
            },
        };
        let server = match crate::codec::read_text_field(j, "server") {
            Ok(s) => s,
            Err(e) => {
                proof {
                    assert forall|x: MemberView| !(j@ == enc_member(x) && member_shape_ok(x)) by {
                        if j@ == enc_member(x) {
                            lemma_enc_member_fields(x);
                        }
                    }
                }
                return Err(e);
            },
        };
        let m = ShardMember { client_public: client, server_address: server };
        proof {
            assert forall|x: MemberView|
                (j@ == enc_member(x) && member_shape_ok(x)) implies m@ == x by {
                lemma_enc_member_fields(x);
                assert(m@ =~= x);
            }
        }
        Ok(m)
    }
}


/// Mathematical model of an update message.
#[verifier::ext_equal]
pub enum UpdateView {
    Status { head_block: Option<BlockView>, tail_block: Option<BlockView>, staged_transactions: Seq<Seq<u8>> },
    AnnounceMembers { members: Seq<MemberView> },
    AnnounceBlocks { blocks: Seq<BlockView> },
    AnnounceTransactions { transactions: Seq<TxView> },
}

/// A state update carried between members.
#[derive(Debug)]
pub enum ShardUpdate {
    /// The sender's view of its own chain and pool.
    Status {
        head_block: Option<Block>,
        tail_block: Option<Block>,
        staged_transactions: Vec<crate::hash::Hash>,
    },
    /// Members the sender knows of.
    AnnounceMembers { members: Vec<ShardMember> },
    /// Blocks the sender passes on.
    AnnounceBlocks { blocks: Vec<Block> },
    /// Transactions the sender passes on.
    AnnounceTransactions { transactions: Vec<Transaction> },
}

impl View for ShardUpdate {
    type V = UpdateView;

    open spec fn view(&self) -> UpdateView {
        match self {
            ShardUpdate::Status { head_block, tail_block, staged_transactions } => {
                UpdateView::Status {
                    head_block: match head_block {
                        Some(b) => Some(b@),
                        None => None,
                    },
                    tail_block: match tail_block {
                        Some(b) => Some(b@),
                        None => None,
                    },
                    staged_transactions: Seq::new(
                        staged_transactions@.len(),
                        |i: int| staged_transactions@[i]@,
                    ),
                }
            },
            ShardUpdate::AnnounceMembers { members } => UpdateView::AnnounceMembers {
                members: Seq::new(members@.len(), |i: int| members@[i]@),
            },
            ShardUpdate::AnnounceBlocks { blocks } => UpdateView::AnnounceBlocks {
                blocks: Seq::new(blocks@.len(), |i: int| blocks@[i]@),
            },
            ShardUpdate::AnnounceTransactions { transactions } => {
                UpdateView::AnnounceTransactions {
                    transactions: Seq::new(transactions@.len(), |i: int| transactions@[i]@),
                }
            },
        }
    }
}

/// Mathematical model of a wire message.
#[verifier::ext_equal]
pub enum MessageView {
    Subscribe,
    Unsubscribe,
    Heartbeat,
    Update(UpdateView),
}

/// A wire message of the overlay.
#[derive(Debug)]
pub enum ShardMessage {
    /// Ask the receiver to start sending status updates.
    Subscribe,
    /// Ask the receiver to stop.
    Unsubscribe,
    /// Note that the sender is still alive.
    Heartbeat,
    /// A state update.
    Update(ShardUpdate),
}

impl View for ShardMessage {
    type V = MessageView;

    open spec fn view(&self) -> MessageView {
        match self {
            ShardMessage::Subscribe => MessageView::Subscribe,
            ShardMessage::Unsubscribe => MessageView::Unsubscribe,
            ShardMessage::Heartbeat => MessageView::Heartbeat,
            ShardMessage::Update(u) => MessageView::Update(u@),
        }
    }
}

/// Whether an update model has the shapes a document can carry.
pub open spec fn update_shape_ok(u: UpdateView) -> bool {
    match u {
        UpdateView::Status { head_block, tail_block, staged_transactions } => (match head_block {
            Some(b) => block_shape_ok(b),
            None => true,
        }) && (match tail_block {
            Some(b) => block_shape_ok(b),
            None => true,
        }) && (forall|i: int|
            0 <= i < staged_transactions.len() ==> (#[trigger] staged_transactions[i]).len()
                == 32),
        UpdateView::AnnounceMembers { members } => forall|i: int|
            0 <= i < members.len() ==> member_shape_ok(#[trigger] members[i]),
        UpdateView::AnnounceBlocks { blocks } => forall|i: int|
            0 <= i < blocks.len() ==> block_shape_ok(#[trigger] blocks[i]),
        UpdateView::AnnounceTransactions { transactions } => forall|i: int|
            0 <= i < transactions.len() ==> tx_shape_ok(#[trigger] transactions[i]),
    }
}

/// Whether a message model has the shapes a document can carry.
pub open spec fn message_shape_ok(m: MessageView) -> bool {
    match m {
        MessageView::Update(u) => update_shape_ok(u),
        _ => true,
    }
}

/// The wire name of an update's kind.
pub open spec fn update_kind_str(u: UpdateView) -> Seq<char> {
    match u {
        UpdateView::Status { .. } => "status"@,
        UpdateView::AnnounceMembers { .. } => "announce_members"@,
        UpdateView::AnnounceBlocks { .. } => "announce_blocks"@,
        UpdateView::AnnounceTransactions { .. } => "announce_transactions"@,
    }
}

/// The document form of an optional block.
pub open spec fn enc_opt_block(b: Option<BlockView>) -> JVal {
    match b {
        Some(bv) => enc_block(bv),
        None => JVal::Null,
    }
}

/// The document forms of a run of digests.
pub open spec fn enc_hashes(hs: Seq<Seq<u8>>) -> Seq<JVal> {
    Seq::new(hs.len(), |i: int| JVal::Str(b64_of(hs[i])))
}

/// The document forms of a run of members.
pub open spec fn enc_members(ms: Seq<MemberView>) -> Seq<JVal> {
    Seq::new(ms.len(), |i: int| enc_member(ms[i]))
}

/// The document forms of a run of blocks.
pub open spec fn enc_blocks(bs: Seq<BlockView>) -> Seq<JVal> {
    Seq::new(bs.len(), |i: int| enc_block(bs[i]))
}

/// The document forms of a run of transactions.
pub open spec fn enc_txs_arr(ts: Seq<TxView>) -> Seq<JVal> {
    Seq::new(ts.len(), |i: int| enc_tx(ts[i]))
}

/// The body document of a status update.
pub open spec fn enc_status_body(
    head: Option<BlockView>,
    tail: Option<BlockView>,
    staged: Seq<Seq<u8>>,
) -> JVal {
    JVal::Obj(
        seq![
            (
                "blocks"@,
                JVal::Obj(
                    seq![("head"@, enc_opt_block(head)), ("tail"@, enc_opt_block(tail))],
                ),
            ),
            ("transactions"@, JVal::Arr(enc_hashes(staged))),
        ],
    )
}

/// The document form of an update message.
pub open spec fn enc_update(u: UpdateView) -> JVal {
    match u {
        UpdateView::Status { head_block, tail_block, staged_transactions } => JVal::Obj(
            seq![
                ("format"@, JVal::Num(1)),
                ("type"@, JVal::Str("status"@)),
                ("body"@, enc_status_body(head_block, tail_block, staged_transactions)),
            ],
        ),
        UpdateView::AnnounceMembers { members } => JVal::Obj(
            seq![
                ("format"@, JVal::Num(1)),
                ("type"@, JVal::Str("announce_members"@)),
                ("members"@, JVal::Arr(enc_members(members))),
            ],
        ),
        UpdateView::AnnounceBlocks { blocks } => JVal::Obj(
            seq![
                ("format"@, JVal::Num(1)),
                ("type"@, JVal::Str("announce_blocks"@)),
                ("blocks"@, JVal::Arr(enc_blocks(blocks))),
            ],
        ),
        UpdateView::AnnounceTransactions { transactions } => JVal::Obj(
            seq![
                ("format"@, JVal::Num(1)),
                ("type"@, JVal::Str("announce_transactions"@)),
                ("transactions"@, JVal::Arr(enc_txs_arr(transactions))),
            ],
        ),
    }
}

/// The wire name of a message's kind.
pub open spec fn message_kind_str(m: MessageView) -> Seq<char> {
    match m {
        MessageView::Subscribe => "subscribe"@,
        MessageView::Unsubscribe => "unsubscribe"@,
        MessageView::Heartbeat => "heartbeat"@,
        MessageView::Update(_) => "update"@,
    }
}

/// The document form of a wire message.
pub open spec fn enc_message(m: MessageView) -> JVal {
    match m {
        MessageView::Update(u) => JVal::Obj(
            seq![
                ("format"@, JVal::Num(1)),
                ("type"@, JVal::Str("update"@)),
                ("body"@, enc_update(u)),
            ],
        ),
        _ => JVal::Obj(
            seq![("format"@, JVal::Num(1)), ("type"@, JVal::Str(message_kind_str(m)))],
        ),
    }
}

/// Where each field of an encoded update is found.
proof fn lemma_enc_update_fields(x: UpdateView)
    ensures
        jval_get(enc_update(x), "format"@) == Some(JVal::Num(1)),
        jval_get(enc_update(x), "type"@) == Some(JVal::Str(update_kind_str(x))),
        x matches UpdateView::Status { head_block, tail_block, staged_transactions } ==> jval_get(
            enc_update(x),
            "body"@,
        ) == Some(enc_status_body(head_block, tail_block, staged_transactions)) && jval_get(
            enc_status_body(head_block, tail_block, staged_transactions),
            "blocks"@,
        ) == Some(
            JVal::Obj(seq![("head"@, enc_opt_block(head_block)), ("tail"@, enc_opt_block(tail_block))]),
        ) && jval_get(
            enc_status_body(head_block, tail_block, staged_transactions),
            "transactions"@,
        ) == Some(JVal::Arr(enc_hashes(staged_transactions))) && jval_get(
            JVal::Obj(seq![("head"@, enc_opt_block(head_block)), ("tail"@, enc_opt_block(tail_block))]),
            "head"@,
        ) == Some(enc_opt_block(head_block)) && jval_get(
            JVal::Obj(seq![("head"@, enc_opt_block(head_block)), ("tail"@, enc_opt_block(tail_block))]),
            "tail"@,
        ) == Some(enc_opt_block(tail_block)),
        x matches UpdateView::AnnounceMembers { members } ==> jval_get(enc_update(x), "members"@)
            == Some(JVal::Arr(enc_members(members))),
        x matches UpdateView::AnnounceBlocks { blocks } ==> jval_get(enc_update(x), "blocks"@)
            == Some(JVal::Arr(enc_blocks(blocks))),
        x matches UpdateView::AnnounceTransactions { transactions } ==> jval_get(
            enc_update(x),
            "transactions"@,
        ) == Some(JVal::Arr(enc_txs_arr(transactions))),
{
    reveal_strlit("format");
    reveal_strlit("type");
    reveal_strlit("body");
    reveal_strlit("members");
    reveal_strlit("blocks");
    reveal_strlit("transactions");
    reveal_strlit("head");
    reveal_strlit("tail");
    reveal_strlit("status");
    reveal_strlit("announce_members");
    reveal_strlit("announce_blocks");
    reveal_strlit("announce_transactions");
    assert("format"@.len() == 6 && "type"@.len() == 4 && "body"@.len() == 4 && "members"@.len()
        == 7 && "blocks"@.len() == 6 && "transactions"@.len() == 12 && "head"@.len() == 4
        && "tail"@.len() == 4);
    assert("type"@[0] == 't' && "body"@[0] == 'b' && "head"@[0] == 'h' && "tail"@[0] == 't'
        && "format"@[0] == 'f' && "blocks"@[0] == 'b' && "members"@[0] == 'm');
    match x {
        UpdateView::Status { head_block, tail_block, staged_transactions } => {
            let top = seq![
                ("format"@, JVal::Num(1)),
                ("type"@, JVal::Str("status"@)),
                ("body"@, enc_status_body(head_block, tail_block, staged_transactions)),
            ];
            lemma_obj_get_at(top, "format"@, 0);
            lemma_obj_get_at(top, "type"@, 1);
            lemma_obj_get_at(top, "body"@, 2);
            let blocks_obj = seq![
                ("head"@, enc_opt_block(head_block)),
                ("tail"@, enc_opt_block(tail_block)),
            ];
            let body = seq![
                ("blocks"@, JVal::Obj(blocks_obj)),
                ("transactions"@, JVal::Arr(enc_hashes(staged_transactions))),
            ];
            assert(enc_status_body(head_block, tail_block, staged_transactions) matches JVal::Obj(
                g,
            ) && g =~= body);
            assert(enc_status_body(head_block, tail_block, staged_transactions) == JVal::Obj(
                body,
            ));
            lemma_obj_get_at(body, "blocks"@, 0);
            lemma_obj_get_at(body, "transactions"@, 1);
            lemma_obj_get_at(blocks_obj, "head"@, 0);
            lemma_obj_get_at(blocks_obj, "tail"@, 1);
        },
        UpdateView::AnnounceMembers { members } => {
            let top = seq![
                ("format"@, JVal::Num(1)),
                ("type"@, JVal::Str("announce_members"@)),
                ("members"@, JVal::Arr(enc_members(members))),
            ];
            lemma_obj_get_at(top, "format"@, 0);
            lemma_obj_get_at(top, "type"@, 1);
            lemma_obj_get_at(top, "members"@, 2);
        },
        UpdateView::AnnounceBlocks { blocks } => {
            let top = seq![
                ("format"@, JVal::Num(1)),
                ("type"@, JVal::Str("announce_blocks"@)),
                ("blocks"@, JVal::Arr(enc_blocks(blocks))),
            ];
            lemma_obj_get_at(top, "format"@, 0);
            lemma_obj_get_at(top, "type"@, 1);
            lemma_obj_get_at(top, "blocks"@, 2);
        },
        UpdateView::AnnounceTransactions { transactions } => {
            let top = seq![
                ("format"@, JVal::Num(1)),
                ("type"@, JVal::Str("announce_transactions"@)),
                ("transactions"@, JVal::Arr(enc_txs_arr(transactions))),
            ];
            lemma_obj_get_at(top, "format"@, 0);
            lemma_obj_get_at(top, "type"@, 1);
            lemma_obj_get_at(top, "transactions"@, 2);
        },
    }
}

/// Where each field of an encoded message is found.
proof fn lemma_enc_message_fields(x: MessageView)
    ensures
        jval_get(enc_message(x), "format"@) == Some(JVal::Num(1)),
        jval_get(enc_message(x), "type"@) == Some(JVal::Str(message_kind_str(x))),
        x matches MessageView::Update(u) ==> jval_get(enc_message(x), "body"@) == Some(
            enc_update(u),
        ),
{
    reveal_strlit("format");
    reveal_strlit("type");
    reveal_strlit("body");
    reveal_strlit("subscribe");
    reveal_strlit("unsubscribe");
    reveal_strlit("heartbeat");
    reveal_strlit("update");
    assert("format"@.len() == 6 && "type"@.len() == 4 && "body"@.len() == 4);
    assert("type"@[0] == 't' && "body"@[0] == 'b');
    match x {
        MessageView::Update(u) => {
            let top = seq![
                ("format"@, JVal::Num(1)),
                ("type"@, JVal::Str("update"@)),
                ("body"@, enc_update(u)),
            ];
            lemma_obj_get_at(top, "format"@, 0);
            lemma_obj_get_at(top, "type"@, 1);
            lemma_obj_get_at(top, "body"@, 2);
        },
        _ => {
            let top = seq![("format"@, JVal::Num(1)), ("type"@, JVal::Str(message_kind_str(x)))];
            lemma_obj_get_at(top, "format"@, 0);
            lemma_obj_get_at(top, "type"@, 1);
        },
    }
}


/// Decode a run of digest documents.
fn decode_hash_array(items: &Vec<JsonValue>) -> (r: Result<Vec<crate::hash::Hash>, JsonError>)
    ensures
        r matches Ok(hs) ==> hs@.len() == items@.len() && (forall|k: int, y: Seq<u8>|
            #![trigger hs@[k], b64_of(y)]
            (0 <= k < items@.len() && jv_view(items@[k]) == JVal::Str(b64_of(y)) && y.len() == 32)
                ==> hs@[k]@ == y),
        r is Err ==> (exists|k: int|
            0 <= k < items@.len() && (forall|y: Seq<u8>|
                !(jv_view(#[trigger] items@[k]) == JVal::Str(b64_of(y)) && y.len() == 32))),
{
    let mut out: Vec<crate::hash::Hash> = Vec::new();
    let n = items.len();
    let mut i: usize = 0;
    while i < n
        invariant
            n == items@.len(),
            i <= n,
            out@.len() == i,
            forall|k: int, y: Seq<u8>|
                #![trigger out@[k], b64_of(y)]
                (0 <= k < i && jv_view(items@[k]) == JVal::Str(b64_of(y)) && y.len() == 32)
                    ==> out@[k]@ == y,
        decreases n - i,
    {
        let s = match items[i].as_str() {
            Some(s) => s,
            None => {
                return Err(JsonError::InvalidField);
            },
        };
        match crate::hash::Hash::from_base64(s) {
            Ok(h) => {
                out.push(h);
            },
            Err(_) => {
                return Err(JsonError::InvalidField);
            },
        }
        i = i + 1;
    }
    Ok(out)
}

/// Decode a run of member documents.
fn decode_member_array(items: &Vec<JsonValue>) -> (r: Result<Vec<ShardMember>, JsonError>)
    ensures
        r matches Ok(ms) ==> ms@.len() == items@.len() && (forall|k: int, y: MemberView|
            #![trigger ms@[k], enc_member(y)]
            (0 <= k < items@.len() && jv_view(items@[k]) == enc_member(y) && member_shape_ok(y))
                ==> ms@[k]@ == y),
        r is Err ==> (exists|k: int|
            0 <= k < items@.len() && (forall|y: MemberView|
                !(jv_view(#[trigger] items@[k]) == enc_member(y) && member_shape_ok(y)))),
{
    let mut out: Vec<ShardMember> = Vec::new();
    let n = items.len();
    let mut i: usize = 0;
    while i < n
        invariant
            n == items@.len(),
            i <= n,
            out@.len() == i,
            forall|k: int, y: MemberView|
                #![trigger out@[k], enc_member(y)]
                (0 <= k < i && jv_view(items@[k]) == enc_member(y) && member_shape_ok(y))
                    ==> out@[k]@ == y,
        decreases n - i,
    {
        match ShardMember::from_json(&items[i]) {
            Ok(m) => {
                out.push(m);
            },
            Err(e) => {
                return Err(e);
            },
        }
        i = i + 1;
    }
    Ok(out)
}

/// Decode a run of block documents.
fn decode_block_array(items: &Vec<JsonValue>) -> (r: Result<Vec<Block>, JsonError>)
    ensures
        r matches Ok(bs) ==> bs@.len() == items@.len() && (forall|k: int, y: BlockView|
            #![trigger bs@[k], enc_block(y)]
            (0 <= k < items@.len() && jv_view(items@[k]) == enc_block(y) && block_shape_ok(y))
                ==> bs@[k]@ == y),
        r is Err ==> (exists|k: int|
            0 <= k < items@.len() && (forall|y: BlockView|
                !(jv_view(#[trigger] items@[k]) == enc_block(y) && block_shape_ok(y)))),
{
    let mut out: Vec<Block> = Vec::new();
    let n = items.len();
    let mut i: usize = 0;
    while i < n
        invariant
            n == items@.len(),
            i <= n,
            out@.len() == i,
            forall|k: int, y: BlockView|
                #![trigger out@[k], enc_block(y)]
                (0 <= k < i && jv_view(items@[k]) == enc_block(y) && block_shape_ok(y))
                    ==> out@[k]@ == y,
        decreases n - i,
    {
        match Block::from_json(&items[i]) {
            Ok(b) => {
                out.push(b);
            },
            Err(e) => {
                return Err(e);
            },
        }
        i = i + 1;
    }
    Ok(out)
}

/// Decode a run of transaction documents.
fn decode_tx_array_msg(items: &Vec<JsonValue>) -> (r: Result<Vec<Transaction>, JsonError>)
    ensures
        r matches Ok(ts) ==> ts@.len() == items@.len() && (forall|k: int, y: TxView|
            #![trigger ts@[k], enc_tx(y)]
            (0 <= k < items@.len() && jv_view(items@[k]) == enc_tx(y) && tx_shape_ok(y))
                ==> ts@[k]@ == y),
        r is Err ==> (exists|k: int|
            0 <= k < items@.len() && (forall|y: TxView|
                !(jv_view(#[trigger] items@[k]) == enc_tx(y) && tx_shape_ok(y)))),
{
    let mut out: Vec<Transaction> = Vec::new();
    let n = items.len();
    let mut i: usize = 0;
    while i < n
        invariant
            n == items@.len(),
            i <= n,
            out@.len() == i,
            forall|k: int, y: TxView|
                #![trigger out@[k], enc_tx(y)]
                (0 <= k < i && jv_view(items@[k]) == enc_tx(y) && tx_shape_ok(y)) ==> out@[k]@
                    == y,
        decreases n - i,
    {
        match Transaction::from_json(&items[i]) {
            Ok(t) => {
                out.push(t);
            },
            Err(e) => {
                return Err(e);
            },
        }
        i = i + 1;
    }
    Ok(out)
}

/// Decode an optional block: the null document is absence.
fn decode_opt_block(j: &JsonValue) -> (r: Result<Option<Block>, JsonError>)
    ensures
        j@ == JVal::Null ==> (r matches Ok(o) && o is None),
        forall|y: BlockView|
            (j@ == enc_block(y) && block_shape_ok(y)) ==> (r matches Ok(o) && o matches Some(b)
                && b@ == y),
{
    if j.is_null() {
        return Ok(None);
    }
    match Block::from_json(j) {
        Ok(b) => Ok(Some(b)),
        Err(e) => Err(e),
    }
}


impl ShardUpdate {
    /// The document form of this update.
    pub fn to_json(&self) -> (r: JsonValue)
        ensures
            r@ == enc_update(self@),
    {
        match self {
            ShardUpdate::Status { head_block, tail_block, staged_transactions } => {
                let ghost ghead = (match head_block {
                    Some(b) => Some(b@),
                    None => None,
                });
                let ghost gtail = (match tail_block {
                    Some(b) => Some(b@),
                    None => None,
                });
                let head_v: JsonValue = match head_block {
                    Some(b) => b.to_json(),
                    None => JsonValue::Null,
                };
                let tail_v: JsonValue = match tail_block {
                    Some(b) => b.to_json(),
                    None => JsonValue::Null,
                };
                proof {
                    assert(head_v@ == enc_opt_block(ghead));
                    assert(tail_v@ == enc_opt_block(gtail));
                }
                let mut blocks_fields: Vec<(String, JsonValue)> = Vec::new();
                obj_push(&mut blocks_fields, "head", head_v);
                obj_push(&mut blocks_fields, "tail", tail_v);
                let blocks_v = JsonValue::Obj(blocks_fields);
                proof {
                    assert(blocks_v@ matches JVal::Obj(f) && f =~= seq![
                        ("head"@, enc_opt_block(ghead)),
                        ("tail"@, enc_opt_block(gtail)),
                    ]);
                }
                let mut hashes: Vec<JsonValue> = Vec::new();
                let n = staged_transactions.len();
                let mut i: usize = 0;
                while i < n
                    invariant
                        n == staged_transactions@.len(),
                        i <= n,
                        crate::json::jv_views(hashes@) =~= enc_hashes(
                            Seq::new(
                                staged_transactions@.len(),
                                |k: int| staged_transactions@[k]@,
                            ),
                        ).take(i as int),
                    decreases n - i,
                {
                    arr_push(&mut hashes, JsonValue::of_string(staged_transactions[i].to_base64()));
                    proof {
                        assert(crate::json::jv_views(hashes@) =~= enc_hashes(
                            Seq::new(
                                staged_transactions@.len(),
                                |k: int| staged_transactions@[k]@,
                            ),
                        ).take(i + 1));
                    }
                    i = i + 1;
                }
                proof {
                    let hs = Seq::new(staged_transactions@.len(), |k: int| staged_transactions@[k]@);
                    assert(enc_hashes(hs).take(n as int) =~= enc_hashes(hs));
                }
                let mut body_fields: Vec<(String, JsonValue)> = Vec::new();
                obj_push(&mut body_fields, "blocks", blocks_v);
                obj_push(&mut body_fields, "transactions", JsonValue::Arr(hashes));
                let body_v = JsonValue::Obj(body_fields);
                proof {
                    let hs = Seq::new(staged_transactions@.len(), |k: int| staged_transactions@[k]@);
                    assert(body_v@ matches JVal::Obj(f) && f =~= (match enc_status_body(
                        ghead,
                        gtail,
                        hs,
                    ) {
                        JVal::Obj(g) => g,
                        _ => f,
                    }));
                    assert(body_v@ == enc_status_body(ghead, gtail, hs));
                }
                let mut top: Vec<(String, JsonValue)> = Vec::new();
                obj_push(&mut top, "format", JsonValue::Num(1));
                obj_push(&mut top, "type", JsonValue::of_str("status"));
                obj_push(&mut top, "body", body_v);
                let r = JsonValue::Obj(top);
                proof {
                    assert(r@ matches JVal::Obj(f) && f =~= (match enc_update(self@) {
                        JVal::Obj(g) => g,
                        _ => f,
                    }));
                }
                r
            },
            ShardUpdate::AnnounceMembers { members } => {
                let mut items: Vec<JsonValue> = Vec::new();
                let n = members.len();
                let mut i: usize = 0;
                while i < n
                    invariant
                        n == members@.len(),
                        i <= n,
                        crate::json::jv_views(items@) =~= enc_members(
                            Seq::new(members@.len(), |k: int| members@[k]@),
                        ).take(i as int),
                    decreases n - i,
                {
                    arr_push(&mut items, members[i].to_json());
                    proof {
                        assert(crate::json::jv_views(items@) =~= enc_members(
                            Seq::new(members@.len(), |k: int| members@[k]@),
                        ).take(i + 1));
                    }
                    i = i + 1;
                }
                proof {
                    let ms = Seq::new(members@.len(), |k: int| members@[k]@);
                    assert(enc_members(ms).take(n as int) =~= enc_members(ms));
                }
                let mut top: Vec<(String, JsonValue)> = Vec::new();
                obj_push(&mut top, "format", JsonValue::Num(1));
                obj_push(&mut top, "type", JsonValue::of_str("announce_members"));
                obj_push(&mut top, "members", JsonValue::Arr(items));
                let r = JsonValue::Obj(top);
                proof {
                    assert(r@ matches JVal::Obj(f) && f =~= (match enc_update(self@) {
                        JVal::Obj(g) => g,
                        _ => f,
                    }));
                }
                r
            },
            ShardUpdate::AnnounceBlocks { blocks } => {
                let mut items: Vec<JsonValue> = Vec::new();
                let n = blocks.len();
                let mut i: usize = 0;
                while i < n
                    invariant
                        n == blocks@.len(),
                        i <= n,
                        crate::json::jv_views(items@) =~= enc_blocks(
                            Seq::new(blocks@.len(), |k: int| blocks@[k]@),
                        ).take(i as int),
                    decreases n - i,
                {
                    arr_push(&mut items, blocks[i].to_json());
                    proof {
                        assert(crate::json::jv_views(items@) =~= enc_blocks(
                            Seq::new(blocks@.len(), |k: int| blocks@[k]@),
                        ).take(i + 1));
                    }
                    i = i + 1;
                }
                proof {
                    let bs = Seq::new(blocks@.len(), |k: int| blocks@[k]@);
                    assert(enc_blocks(bs).take(n as int) =~= enc_blocks(bs));
                }
                let mut top: Vec<(String, JsonValue)> = Vec::new();
                obj_push(&mut top, "format", JsonValue::Num(1));
                obj_push(&mut top, "type", JsonValue::of_str("announce_blocks"));
                obj_push(&mut top, "blocks", JsonValue::Arr(items));
                let r = JsonValue::Obj(top);
                proof {
                    assert(r@ matches JVal::Obj(f) && f =~= (match enc_update(self@) {
                        JVal::Obj(g) => g,
                        _ => f,
                    }));
                }
                r
            },
            ShardUpdate::AnnounceTransactions { transactions } => {
                let mut items: Vec<JsonValue> = Vec::new();
                let n = transactions.len();
                let mut i: usize = 0;
                while i < n
                    invariant
                        n == transactions@.len(),
                        i <= n,
                        crate::json::jv_views(items@) =~= enc_txs_arr(
                            Seq::new(transactions@.len(), |k: int| transactions@[k]@),
                        ).take(i as int),
                    decreases n - i,
                {
                    arr_push(&mut items, transactions[i].to_json());
                    proof {
                        assert(crate::json::jv_views(items@) =~= enc_txs_arr(
                            Seq::new(transactions@.len(), |k: int| transactions@[k]@),
                        ).take(i + 1));
                    }
                    i = i + 1;
                }
                proof {
                    let ts = Seq::new(transactions@.len(), |k: int| transactions@[k]@);
                    assert(enc_txs_arr(ts).take(n as int) =~= enc_txs_arr(ts));
                }
                let mut top: Vec<(String, JsonValue)> = Vec::new();
                obj_push(&mut top, "format", JsonValue::Num(1));
                obj_push(&mut top, "type", JsonValue::of_str("announce_transactions"));
                obj_push(&mut top, "transactions", JsonValue::Arr(items));
                let r = JsonValue::Obj(top);
                proof {
                    assert(r@ matches JVal::Obj(f) && f =~= (match enc_update(self@) {
                        JVal::Obj(g) => g,
                        _ => f,
                    }));
                }
                r
            },
        }
    }
}


impl ShardMessage {
    /// The document form of this message.
    pub fn to_json(&self) -> (r: JsonValue)
        ensures
            r@ == enc_message(self@),
    {
        match self {
            ShardMessage::Update(u) => {
                let mut top: Vec<(String, JsonValue)> = Vec::new();
                obj_push(&mut top, "format", JsonValue::Num(1));
                obj_push(&mut top, "type", JsonValue::of_str("update"));
                obj_push(&mut top, "body", u.to_json());
                let r = JsonValue::Obj(top);
                proof {
                    assert(r@ matches JVal::Obj(f) && f =~= (match enc_message(self@) {
                        JVal::Obj(g) => g,
                        _ => f,
                    }));
                }
                r
            },
            _ => {
                let kind: &str = match self {
                    ShardMessage::Subscribe => "subscribe",
                    ShardMessage::Unsubscribe => "unsubscribe",
                    ShardMessage::Heartbeat => "heartbeat",
                    ShardMessage::Update(_) => "update",
                };
                proof {
                    assert(kind@ == message_kind_str(self@));
                }
                let mut top: Vec<(String, JsonValue)> = Vec::new();
                obj_push(&mut top, "format", JsonValue::Num(1));
                obj_push(&mut top, "type", JsonValue::of_str(kind));
                let r = JsonValue::Obj(top);
                proof {
                    assert(r@ matches JVal::Obj(f) && f =~= (match enc_message(self@) {
                        JVal::Obj(g) => g,
                        _ => f,
                    }));
                }
                r
            },
        }
    }

    /// The message whose document this is: a canonical document
    /// decodes to the message it was written from.
    pub fn from_json(j: &JsonValue) -> (r: Result<ShardMessage, JsonError>)
        ensures
            forall|x: MessageView|
                (j@ == enc_message(x) && message_shape_ok(x)) ==> (r matches Ok(m) && m@ == x),
            r is Ok ==> jval_get(j@, "format"@) == Some(JVal::Num(1)),
            forall|v: u64|
                (jval_get(j@, "format"@) == Some(JVal::Num(v)) && v != 1) ==> r == Err::<
                    ShardMessage,
                    JsonError,
                >(JsonError::InvalidStandard(v)),

    {
        proof {
            reveal_strlit("subscribe");
            reveal_strlit("unsubscribe");
            reveal_strlit("heartbeat");
            reveal_strlit("update");
        }
        let format_num = match crate::codec::read_u64_field(j, "format") {
            Ok(n) => n,
            Err(e) => {
                proof {
                    assert forall|x: MessageView| !(j@ == enc_message(x) && message_shape_ok(x)) by {
                        if j@ == enc_message(x) {
                            lemma_enc_message_fields(x);
                        }
                    }
                }
                return Err(e);
            },
        };
        if format_num != 1 {
            proof {
                assert forall|x: MessageView| !(j@ == enc_message(x) && message_shape_ok(x)) by {
                    if j@ == enc_message(x) {
                        lemma_enc_message_fields(x);
                    }
                }
            }
            return Err(JsonError::InvalidStandard(format_num));
        }
        let type_v = match j.get("type") {
            Some(v) => v,
            None => {
                proof {
                    assert forall|x: MessageView| !(j@ == enc_message(x) && message_shape_ok(x)) by {
                        if j@ == enc_message(x) {
                            lemma_enc_message_fields(x);
                        }
                    }
                }
                return Err(JsonError::MissingField);
            },
        };
        let type_s = match type_v.as_str() {
            Some(s) => s,
            None => {
                proof {
                    assert forall|x: MessageView| !(j@ == enc_message(x) && message_shape_ok(x)) by {
                        if j@ == enc_message(x) {
                            lemma_enc_message_fields(x);
                        }
                    }
                }
                return Err(JsonError::InvalidField);
            },
        };
        if crate::json::str_eq(type_s, "subscribe") {
            proof {
                assert forall|x: MessageView|
                    (j@ == enc_message(x) && message_shape_ok(x)) implies x
                    == MessageView::Subscribe by {
                    lemma_enc_message_fields(x);
                    assert("subscribe"@.len() == 9 && "unsubscribe"@.len() == 11
                        && "heartbeat"@.len() == 9 && "update"@.len() == 6);
                    assert("subscribe"@[0] == 's' && "heartbeat"@[0] == 'h');
                }
            }
            return Ok(ShardMessage::Subscribe);
        }
        if crate::json::str_eq(type_s, "unsubscribe") {
            proof {
                assert forall|x: MessageView|
                    (j@ == enc_message(x) && message_shape_ok(x)) implies x
                    == MessageView::Unsubscribe by {
                    lemma_enc_message_fields(x);
                }
            }
            return Ok(ShardMessage::Unsubscribe);
        }
        if crate::json::str_eq(type_s, "heartbeat") {
            proof {
                assert forall|x: MessageView|
                    (j@ == enc_message(x) && message_shape_ok(x)) implies x
                    == MessageView::Heartbeat by {
                    lemma_enc_message_fields(x);
                    assert("subscribe"@[0] == 's' && "heartbeat"@[0] == 'h');
                }
            }
            return Ok(ShardMessage::Heartbeat);
        }
        if crate::json::str_eq(type_s, "update") {
            let body_v = match j.get("body") {
                Some(v) => v,
                None => {
                    proof {
                        assert forall|x: MessageView|
                            !(j@ == enc_message(x) && message_shape_ok(x)) by {
                            if j@ == enc_message(x) {
                                lemma_enc_message_fields(x);
                            }
                        }
                    }
                    return Err(JsonError::MissingField);
                },
            };
            let update = match ShardUpdate::from_json(body_v) {
                Ok(u) => u,
                Err(e) => {
                    proof {
                        assert forall|x: MessageView|
                            !(j@ == enc_message(x) && message_shape_ok(x)) by {
                            if j@ == enc_message(x) {
                                lemma_enc_message_fields(x);
                            }
                        }
                    }
                    return Err(e);
                },
            };
            let r = ShardMessage::Update(update);
            proof {
                assert forall|x: MessageView|
                    (j@ == enc_message(x) && message_shape_ok(x)) implies r@ == x by {
                    lemma_enc_message_fields(x);
                }
            }
            return Ok(r);
        }
        proof {
            assert forall|x: MessageView| !(j@ == enc_message(x) && message_shape_ok(x)) by {
                if j@ == enc_message(x) {
                    lemma_enc_message_fields(x);
                }
            }
        }
        Err(JsonError::InvalidField)
    }
}


impl ShardUpdate {
    /// The update whose document this is: a canonical document
    /// decodes to the update it was written from.
    pub fn from_json(j: &JsonValue) -> (r: Result<ShardUpdate, JsonError>)
        ensures
            forall|x: UpdateView|
                (j@ == enc_update(x) && update_shape_ok(x)) ==> (r matches Ok(u) && u@ == x),
            r is Ok ==> jval_get(j@, "format"@) == Some(JVal::Num(1)),
            forall|v: u64|
                (jval_get(j@, "format"@) == Some(JVal::Num(v)) && v != 1) ==> r == Err::<
                    ShardUpdate,
                    JsonError,
                >(JsonError::InvalidStandard(v)),

    {
        proof {
            reveal_strlit("status");
            reveal_strlit("announce_members");
            reveal_strlit("announce_blocks");
            reveal_strlit("announce_transactions");
            assert("status"@.len() == 6 && "announce_members"@.len() == 16
                && "announce_blocks"@.len() == 15 && "announce_transactions"@.len() == 21);
        }
        let format_num = match crate::codec::read_u64_field(j, "format") {
            Ok(n) => n,
            Err(e) => {
                proof {
                    assert forall|x: UpdateView| !(j@ == enc_update(x) && update_shape_ok(x)) by {
                        if j@ == enc_update(x) {
                            lemma_enc_update_fields(x);
                        }
                    }
                }
                return Err(e);
            },
        };
        if format_num != 1 {
            proof {
                assert forall|x: UpdateView| !(j@ == enc_update(x) && update_shape_ok(x)) by {
                    if j@ == enc_update(x) {
                        lemma_enc_update_fields(x);
                    }
                }
            }
            return Err(JsonError::InvalidStandard(format_num));
        }
        let type_v = match j.get("type") {
            Some(v) => v,
            None => {
                proof {
                    assert forall|x: UpdateView| !(j@ == enc_update(x) && update_shape_ok(x)) by {
                        if j@ == enc_update(x) {
                            lemma_enc_update_fields(x);
                        }
                    }
                }
                return Err(JsonError::MissingField);
            },
        };
        let type_s = match type_v.as_str() {
            Some(s) => s,
            None => {
                proof {
                    assert forall|x: UpdateView| !(j@ == enc_update(x) && update_shape_ok(x)) by {
                        if j@ == enc_update(x) {
                            lemma_enc_update_fields(x);
                        }
                    }
                }
                return Err(JsonError::InvalidField);
            },
        };
        if crate::json::str_eq(type_s, "status") {
            let body_v = match j.get("body") {
                Some(v) => v,
                None => {
                    proof {
                        assert forall|x: UpdateView|
                            !(j@ == enc_update(x) && update_shape_ok(x)) by {
                            if j@ == enc_update(x) {
                                lemma_enc_update_fields(x);
                            }
                        }
                    }
                    return Err(JsonError::MissingField);
                },
            };
            let blocks_v = match body_v.get("blocks") {
                Some(v) => v,
                None => {
                    proof {
                        assert forall|x: UpdateView|
                            !(j@ == enc_update(x) && update_shape_ok(x)) by {
                            if j@ == enc_update(x) {
                                lemma_enc_update_fields(x);
                            }
                        }
                    }
                    return Err(JsonError::MissingField);
                },
            };
            let head_v = match blocks_v.get("head") {
                Some(v) => v,
                None => {
                    proof {
                        assert forall|x: UpdateView|
                            !(j@ == enc_update(x) && update_shape_ok(x)) by {
                            if j@ == enc_update(x) {
                                lemma_enc_update_fields(x);
                            }
                        }
                    }
                    return Err(JsonError::MissingField);
                },
            };
            let head = match decode_opt_block(head_v) {
                Ok(o) => o,
                Err(e) => {
                    proof {
                        assert forall|x: UpdateView|
                            !(j@ == enc_update(x) && update_shape_ok(x)) by {
                            if j@ == enc_update(x) {
                                lemma_enc_update_fields(x);
                            }
                        }
                    }
                    return Err(e);
                },
            };
            let tail_v = match blocks_v.get("tail") {
                Some(v) => v,
                None => {
                    proof {
                        assert forall|x: UpdateView|
                            !(j@ == enc_update(x) && update_shape_ok(x)) by {
                            if j@ == enc_update(x) {
                                lemma_enc_update_fields(x);
                            }
                        }
                    }
                    return Err(JsonError::MissingField);
                },
            };
            let tail = match decode_opt_block(tail_v) {
                Ok(o) => o,
                Err(e) => {
                    proof {
                        assert forall|x: UpdateView|
                            !(j@ == enc_update(x) && update_shape_ok(x)) by {
                            if j@ == enc_update(x) {
                                lemma_enc_update_fields(x);
                            }
                        }
                    }
                    return Err(e);
                },
            };
            let txs_v = match body_v.get("transactions") {
                Some(v) => v,
                None => {
                    proof {
                        assert forall|x: UpdateView|
                            !(j@ == enc_update(x) && update_shape_ok(x)) by {
                            if j@ == enc_update(x) {
                                lemma_enc_update_fields(x);
                            }
                        }
                    }
                    return Err(JsonError::MissingField);
                },
            };
            let items = match txs_v.as_array() {
                Some(v) => v,
                None => {
                    proof {
                        assert forall|x: UpdateView|
                            !(j@ == enc_update(x) && update_shape_ok(x)) by {
                            if j@ == enc_update(x) {
                                lemma_enc_update_fields(x);
                            }
                        }
                    }
                    return Err(JsonError::InvalidField);
                },
            };
            let staged = match decode_hash_array(items) {
                Ok(hs) => hs,
                Err(e) => {
                    proof {
                        assert forall|x: UpdateView|
                            !(j@ == enc_update(x) && update_shape_ok(x)) by {
                            if j@ == enc_update(x) && update_shape_ok(x) {
                                lemma_enc_update_fields(x);
                                match x {
                                    UpdateView::Status { staged_transactions, .. } => {
                                        let bad_k = choose|k: int|
                                            0 <= k < items@.len() && (forall|y: Seq<u8>|
                                                !(jv_view(#[trigger] items@[k]) == JVal::Str(
                                                    b64_of(y),
                                                ) && y.len() == 32));
                                        lemma_jv_views_len(items@);
                                        lemma_jv_views_index(items@, bad_k);
                                    },
                                    _ => {},
                                }
                            }
                        }
                    }
                    return Err(e);
                },
            };
            let r = ShardUpdate::Status {
                head_block: head,
                tail_block: tail,
                staged_transactions: staged,
            };
            proof {
                assert forall|x: UpdateView|
                    (j@ == enc_update(x) && update_shape_ok(x)) implies r@ == x by {
                    lemma_enc_update_fields(x);
                    match x {
                        UpdateView::Status { head_block, tail_block, staged_transactions } => {
                            lemma_jv_views_len(items@);
                            assert forall|k: int|
                                0 <= k < staged_transactions.len() implies staged@[k]@
                                == staged_transactions[k] by {
                                lemma_jv_views_index(items@, k);
                            };
                            assert(r@ matches UpdateView::Status {
                                head_block: rh,
                                tail_block: rt,
                                staged_transactions: rs,
                            } && rh == head_block && rt == tail_block && rs
                                =~= staged_transactions);
                        },
                        _ => {},
                    }
                }
            }
            return Ok(r);
        }
        if crate::json::str_eq(type_s, "announce_members") {
            let ms_v = match j.get("members") {
                Some(v) => v,
                None => {
                    proof {
                        assert forall|x: UpdateView|
                            !(j@ == enc_update(x) && update_shape_ok(x)) by {
                            if j@ == enc_update(x) {
                                lemma_enc_update_fields(x);
                            }
                        }
                    }
                    return Err(JsonError::MissingField);
                },
            };
            let items = match ms_v.as_array() {
                Some(v) => v,
                None => {
                    proof {
                        assert forall|x: UpdateView|
                            !(j@ == enc_update(x) && update_shape_ok(x)) by {
                            if j@ == enc_update(x) {
                                lemma_enc_update_fields(x);
                            }
                        }
                    }
                    return Err(JsonError::InvalidField);
                },
            };
            let members = match decode_member_array(items) {
                Ok(ms) => ms,
                Err(e) => {
                    proof {
                        assert forall|x: UpdateView|
                            !(j@ == enc_update(x) && update_shape_ok(x)) by {
                            if j@ == enc_update(x) && update_shape_ok(x) {
                                lemma_enc_update_fields(x);
                                match x {
                                    UpdateView::AnnounceMembers { members: xm } => {
                                        let bad_k = choose|k: int|
                                            0 <= k < items@.len() && (forall|y: MemberView|
                                                !(jv_view(#[trigger] items@[k]) == enc_member(y)
                                                    && member_shape_ok(y)));
                                        lemma_jv_views_len(items@);
                                        lemma_jv_views_index(items@, bad_k);
                                    },
                                    _ => {},
                                }
                            }
                        }
                    }
                    return Err(e);
                },
            };
            let r = ShardUpdate::AnnounceMembers { members };
            proof {
                assert forall|x: UpdateView|
                    (j@ == enc_update(x) && update_shape_ok(x)) implies r@ == x by {
                    lemma_enc_update_fields(x);
                    match x {
                        UpdateView::AnnounceMembers { members: xm } => {
                            lemma_jv_views_len(items@);
                            assert forall|k: int|
                                0 <= k < xm.len() implies r@->AnnounceMembers_members[k]
                                == xm[k] by {
                                lemma_jv_views_index(items@, k);
                            };
                            assert(r@->AnnounceMembers_members =~= xm);
                        },
                        _ => {},
                    }
                }
            }
            return Ok(r);
        }
        if crate::json::str_eq(type_s, "announce_blocks") {
            let bs_v = match j.get("blocks") {
                Some(v) => v,
                None => {
                    proof {
                        assert forall|x: UpdateView|
                            !(j@ == enc_update(x) && update_shape_ok(x)) by {
                            if j@ == enc_update(x) {
                                lemma_enc_update_fields(x);
                            }
                        }
                    }
                    return Err(JsonError::MissingField);
                },
            };
            let items = match bs_v.as_array() {
                Some(v) => v,
                None => {
                    proof {
                        assert forall|x: UpdateView|
                            !(j@ == enc_update(x) && update_shape_ok(x)) by {
                            if j@ == enc_update(x) {
                                lemma_enc_update_fields(x);
                            }
                        }
                    }
                    return Err(JsonError::InvalidField);
                },
            };
            let blocks = match decode_block_array(items) {
                Ok(bs) => bs,
                Err(e) => {
                    proof {
                        assert forall|x: UpdateView|
                            !(j@ == enc_update(x) && update_shape_ok(x)) by {
                            if j@ == enc_update(x) && update_shape_ok(x) {
                                lemma_enc_update_fields(x);
                                match x {
                                    UpdateView::AnnounceBlocks { blocks: xb } => {
                                        let bad_k = choose|k: int|
                                            0 <= k < items@.len() && (forall|y: BlockView|
                                                !(jv_view(#[trigger] items@[k]) == enc_block(y)
                                                    && block_shape_ok(y)));
                                        lemma_jv_views_len(items@);
                                        lemma_jv_views_index(items@, bad_k);
                                    },
                                    _ => {},
                                }
                            }
                        }
                    }
                    return Err(e);
                },
            };
            let r = ShardUpdate::AnnounceBlocks { blocks };
            proof {
                assert forall|x: UpdateView|
                    (j@ == enc_update(x) && update_shape_ok(x)) implies r@ == x by {
                    lemma_enc_update_fields(x);
                    match x {
                        UpdateView::AnnounceBlocks { blocks: xb } => {
                            lemma_jv_views_len(items@);
                            assert forall|k: int|
                                0 <= k < xb.len() implies r@->AnnounceBlocks_blocks[k] == xb[k] by {
                                lemma_jv_views_index(items@, k);
                            };
                            assert(r@->AnnounceBlocks_blocks =~= xb);
                        },
                        _ => {},
                    }
                }
            }
            return Ok(r);
        }
        if crate::json::str_eq(type_s, "announce_transactions") {
            let ts_v = match j.get("transactions") {
                Some(v) => v,
                None => {
                    proof {
                        assert forall|x: UpdateView|
                            !(j@ == enc_update(x) && update_shape_ok(x)) by {
                            if j@ == enc_update(x) {
                                lemma_enc_update_fields(x);
                            }
                        }
                    }
                    return Err(JsonError::MissingField);
                },
            };
            let items = match ts_v.as_array() {
                Some(v) => v,
                None => {
                    proof {
                        assert forall|x: UpdateView|
                            !(j@ == enc_update(x) && update_shape_ok(x)) by {
                            if j@ == enc_update(x) {
                                lemma_enc_update_fields(x);
                            }
                        }
                    }
                    return Err(JsonError::InvalidField);
                },
            };
            let transactions = match decode_tx_array_msg(items) {
                Ok(ts) => ts,
                Err(e) => {
                    proof {
                        assert forall|x: UpdateView|
                            !(j@ == enc_update(x) && update_shape_ok(x)) by {
                            if j@ == enc_update(x) && update_shape_ok(x) {
                                lemma_enc_update_fields(x);
                                match x {
                                    UpdateView::AnnounceTransactions { transactions: xt } => {
                                        let bad_k = choose|k: int|
                                            0 <= k < items@.len() && (forall|y: TxView|
                                                !(jv_view(#[trigger] items@[k]) == enc_tx(y)
                                                    && tx_shape_ok(y)));
                                        lemma_jv_views_len(items@);
                                        lemma_jv_views_index(items@, bad_k);
                                    },
                                    _ => {},
                                }
                            }
                        }
                    }
                    return Err(e);
                },
            };
            let r = ShardUpdate::AnnounceTransactions { transactions };
            proof {
                assert forall|x: UpdateView|
                    (j@ == enc_update(x) && update_shape_ok(x)) implies r@ == x by {
                    lemma_enc_update_fields(x);
                    match x {
                        UpdateView::AnnounceTransactions { transactions: xt } => {
                            lemma_jv_views_len(items@);
                            assert forall|k: int|
                                0 <= k < xt.len() implies r@->AnnounceTransactions_transactions[k]
                                == xt[k] by {
                                lemma_jv_views_index(items@, k);
                            };
                            assert(r@->AnnounceTransactions_transactions =~= xt);
                        },
                        _ => {},
                    }
                }
            }
            return Ok(r);
        }
        proof {
            assert forall|x: UpdateView| !(j@ == enc_update(x) && update_shape_ok(x)) by {
                if j@ == enc_update(x) {
                    lemma_enc_update_fields(x);
                }
            }
        }
        Err(JsonError::InvalidField)
    }
}


/// Whether two runs of blocks are the same blocks.
fn blocks_eq(a: &Vec<Block>, b: &Vec<Block>) -> (r: bool)
    ensures
        r == (Seq::new(a@.len(), |i: int| a@[i]@) == Seq::new(b@.len(), |i: int| b@[i]@)),
{
    let ghost va = Seq::new(a@.len(), |i: int| a@[i]@);
    let ghost vb = Seq::new(b@.len(), |i: int| b@[i]@);
    if a.len() != b.len() {
        proof {
            assert(va.len() != vb.len());
        }
        return false;
    }
    let n = a.len();
    let mut i: usize = 0;
    while i < n
        invariant
            n == a@.len(),
            n == b@.len(),
            i <= n,
            va == Seq::new(a@.len(), |k: int| a@[k]@),
            vb == Seq::new(b@.len(), |k: int| b@[k]@),
            va.len() == n,
            vb.len() == n,
            forall|k: int| 0 <= k < i ==> va[k] == vb[k],
        decreases n - i,
    {
        if !(a[i] == b[i]) {
            proof {
                assert(va[i as int] != vb[i as int]);
            }
            return false;
        }
        i = i + 1;
    }
    proof {
        assert(va =~= vb);
    }
    true
}

/// Whether two runs of transactions are the same transactions.
fn txs_eq(a: &Vec<Transaction>, b: &Vec<Transaction>) -> (r: bool)
    ensures
        r == (Seq::new(a@.len(), |i: int| a@[i]@) == Seq::new(b@.len(), |i: int| b@[i]@)),
{
    let ghost va = Seq::new(a@.len(), |i: int| a@[i]@);
    let ghost vb = Seq::new(b@.len(), |i: int| b@[i]@);
    if a.len() != b.len() {
        proof {
            assert(va.len() != vb.len());
        }
        return false;
    }
    let n = a.len();
    let mut i: usize = 0;
    while i < n
        invariant
            n == a@.len(),
            n == b@.len(),
            i <= n,
            va == Seq::new(a@.len(), |k: int| a@[k]@),
            vb == Seq::new(b@.len(), |k: int| b@[k]@),
            va.len() == n,
            vb.len() == n,
            forall|k: int| 0 <= k < i ==> va[k] == vb[k],
        decreases n - i,
    {
        if !(a[i] == b[i]) {
            proof {
                assert(va[i as int] != vb[i as int]);
            }
            return false;
        }
        i = i + 1;
    }
    proof {
        assert(va =~= vb);
    }
    true
}

/// Whether two runs of members are the same members.
fn members_eq(a: &Vec<ShardMember>, b: &Vec<ShardMember>) -> (r: bool)
    ensures
        r == (Seq::new(a@.len(), |i: int| a@[i]@) == Seq::new(b@.len(), |i: int| b@[i]@)),
{
    let ghost va = Seq::new(a@.len(), |i: int| a@[i]@);
    let ghost vb = Seq::new(b@.len(), |i: int| b@[i]@);
    if a.len() != b.len() {
        proof {
            assert(va.len() != vb.len());
        }
        return false;
    }
    let n = a.len();
    let mut i: usize = 0;
    while i < n
        invariant
            n == a@.len(),
            n == b@.len(),
            i <= n,
            va == Seq::new(a@.len(), |k: int| a@[k]@),
            vb == Seq::new(b@.len(), |k: int| b@[k]@),
            va.len() == n,
            vb.len() == n,
            forall|k: int| 0 <= k < i ==> va[k] == vb[k],
        decreases n - i,
    {
        if !(a[i] == b[i]) {
            proof {
                assert(va[i as int] != vb[i as int]);
            }
            return false;
        }
        i = i + 1;
    }
    proof {
        assert(va =~= vb);
    }
    true
}

/// Whether two runs of digests are the same digests.
fn hashes_eq(a: &Vec<crate::hash::Hash>, b: &Vec<crate::hash::Hash>) -> (r: bool)
    ensures
        r == (Seq::new(a@.len(), |i: int| a@[i]@) == Seq::new(b@.len(), |i: int| b@[i]@)),
{
    let ghost va = Seq::new(a@.len(), |i: int| a@[i]@);
    let ghost vb = Seq::new(b@.len(), |i: int| b@[i]@);
    if a.len() != b.len() {
        proof {
            assert(va.len() != vb.len());
        }
        return false;
    }
    let n = a.len();
    let mut i: usize = 0;
    while i < n
        invariant
            n == a@.len(),
            n == b@.len(),
            i <= n,
            va == Seq::new(a@.len(), |k: int| a@[k]@),
            vb == Seq::new(b@.len(), |k: int| b@[k]@),
            va.len() == n,
            vb.len() == n,
            forall|k: int| 0 <= k < i ==> va[k] == vb[k],
        decreases n - i,
    {
        if !(a[i] == b[i]) {
            proof {
                assert(va[i as int] != vb[i as int]);
            }
            return false;
        }
        i = i + 1;
    }
    proof {
        assert(va =~= vb);
    }
    true
}

/// Whether two optional blocks are the same.
fn opt_block_eq(a: &Option<Block>, b: &Option<Block>) -> (r: bool)
    ensures
        r == ((match a {
            Some(x) => Some(x@),
            None => None,
        }) == (match b {
            Some(x) => Some(x@),
            None => None,
        })),
{
    match (a, b) {
        (Some(x), Some(y)) => *x == *y,
        (None, None) => true,
        _ => false,
    }
}

impl PartialEq for ShardUpdate {
    fn eq(&self, other: &ShardUpdate) -> (r: bool) {
        match (self, other) {
            (
                ShardUpdate::Status { head_block: h1, tail_block: t1, staged_transactions: s1 },
                ShardUpdate::Status { head_block: h2, tail_block: t2, staged_transactions: s2 },
            ) => opt_block_eq(h1, h2) && opt_block_eq(t1, t2) && hashes_eq(s1, s2),
            (
                ShardUpdate::AnnounceMembers { members: m1 },
                ShardUpdate::AnnounceMembers { members: m2 },
            ) => members_eq(m1, m2),
            (
                ShardUpdate::AnnounceBlocks { blocks: b1 },
                ShardUpdate::AnnounceBlocks { blocks: b2 },
            ) => blocks_eq(b1, b2),
            (
                ShardUpdate::AnnounceTransactions { transactions: t1 },
                ShardUpdate::AnnounceTransactions { transactions: t2 },
            ) => txs_eq(t1, t2),
            _ => false,
        }
    }
}

impl Eq for ShardUpdate {

}

impl vstd::std_specs::cmp::PartialEqSpecImpl for ShardUpdate {
    open spec fn obeys_eq_spec() -> bool {
        true
    }

    open spec fn eq_spec(&self, other: &ShardUpdate) -> bool {
        self@ == other@
    }
}

impl PartialEq for ShardMessage {
    fn eq(&self, other: &ShardMessage) -> (r: bool) {
        match (self, other) {
            (ShardMessage::Subscribe, ShardMessage::Subscribe) => true,
            (ShardMessage::Unsubscribe, ShardMessage::Unsubscribe) => true,
            (ShardMessage::Heartbeat, ShardMessage::Heartbeat) => true,
            (ShardMessage::Update(a), ShardMessage::Update(b)) => *a == *b,
            _ => false,
        }
    }
}

impl Eq for ShardMessage {

}

impl vstd::std_specs::cmp::PartialEqSpecImpl for ShardMessage {
    open spec fn obeys_eq_spec() -> bool {
        true
    }

    open spec fn eq_spec(&self, other: &ShardMessage) -> bool {
        self@ == other@
    }
}

impl Clone for ShardUpdate {
    /// An identical update.
    fn clone(&self) -> (res: Self)
        ensures
            res@ == self@,
    {
        match self {
            ShardUpdate::Status { head_block, tail_block, staged_transactions } => {
                let head = match head_block {
                    Some(b) => Some(b.clone()),
                    None => None,
                };
                let tail = match tail_block {
                    Some(b) => Some(b.clone()),
                    None => None,
                };
                let mut staged: Vec<crate::hash::Hash> = Vec::new();
                let n = staged_transactions.len();
                let mut i: usize = 0;
                while i < n
                    invariant
                        n == staged_transactions@.len(),
                        i <= n,
                        staged@.len() == i,
                        forall|k: int| 0 <= k < i ==> staged@[k]@ == staged_transactions@[k]@,
                    decreases n - i,
                {
                    staged.push(staged_transactions[i]);
                    i = i + 1;
                }
                let res = ShardUpdate::Status {
                    head_block: head,
                    tail_block: tail,
                    staged_transactions: staged,
                };
                proof {
                    assert(res@ matches UpdateView::Status { staged_transactions: rs, .. } && rs
                        =~= (match self@ {
                        UpdateView::Status { staged_transactions: ss, .. } => ss,
                        _ => rs,
                    }));
                }
                res
            },
            ShardUpdate::AnnounceMembers { members } => {
                let mut out: Vec<ShardMember> = Vec::new();
                let n = members.len();
                let mut i: usize = 0;
                while i < n
                    invariant
                        n == members@.len(),
                        i <= n,
                        out@.len() == i,
                        forall|k: int| 0 <= k < i ==> out@[k]@ == members@[k]@,
                    decreases n - i,
                {
                    out.push(members[i].clone());
                    i = i + 1;
                }
                let res = ShardUpdate::AnnounceMembers { members: out };
                proof {
                    assert(res@ matches UpdateView::AnnounceMembers { members: rm } && rm
                        =~= (match self@ {
                        UpdateView::AnnounceMembers { members: sm } => sm,
                        _ => rm,
                    }));
                }
                res
            },
            ShardUpdate::AnnounceBlocks { blocks } => {
                let mut out: Vec<Block> = Vec::new();
                let n = blocks.len();
                let mut i: usize = 0;
                while i < n
                    invariant
                        n == blocks@.len(),
                        i <= n,
                        out@.len() == i,
                        forall|k: int| 0 <= k < i ==> out@[k]@ == blocks@[k]@,
                    decreases n - i,
                {
                    out.push(blocks[i].clone());
                    i = i + 1;
                }
                let res = ShardUpdate::AnnounceBlocks { blocks: out };
                proof {
                    assert(res@ matches UpdateView::AnnounceBlocks { blocks: rb } && rb
                        =~= (match self@ {
                        UpdateView::AnnounceBlocks { blocks: sb } => sb,
                        _ => rb,
                    }));
                }
                res
            },
            ShardUpdate::AnnounceTransactions { transactions } => {
                let mut out: Vec<Transaction> = Vec::new();
                let n = transactions.len();
                let mut i: usize = 0;
                while i < n
                    invariant
                        n == transactions@.len(),
                        i <= n,
                        out@.len() == i,
                        forall|k: int| 0 <= k < i ==> out@[k]@ == transactions@[k]@,
                    decreases n - i,
                {
                    out.push(transactions[i].clone());
                    i = i + 1;
                }
                let res = ShardUpdate::AnnounceTransactions { transactions: out };
                proof {
                    assert(res@ matches UpdateView::AnnounceTransactions { transactions: rt } && rt
                        =~= (match self@ {
                        UpdateView::AnnounceTransactions { transactions: st } => st,
                        _ => rt,
                    }));
                }
                res
            },
        }
    }
}

impl Clone for ShardMessage {
    /// An identical message.
    fn clone(&self) -> (res: Self)
        ensures
            res@ == self@,
    {
        match self {
            ShardMessage::Subscribe => ShardMessage::Subscribe,
            ShardMessage::Unsubscribe => ShardMessage::Unsubscribe,
            ShardMessage::Heartbeat => ShardMessage::Heartbeat,
            ShardMessage::Update(u) => ShardMessage::Update(u.clone()),
        }
    }
}

} // verus!
