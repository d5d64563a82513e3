//! JSON forms of the chain's values.
//!
//! Every value that crosses the wire or rests in a chunk has one
//! canonical document form; reading a canonical document gives the
//! value back.

use vstd::prelude::*;
use vstd::string::StringExecFns;

use crate::crypto::{b64_of, base64_decode, base64_encode, pk_bytes_ok};
use crate::encoding::{encoding_str, MessageEncoding};
use crate::json::{jval_get, lemma_obj_get_at, obj_push, JVal, JsonError, JsonValue};
use crate::keys::PublicKey;
use crate::block::{Block, BlockMinter, BlockView, MinterView};
use crate::transaction::{type_str, BodyView, Transaction, TransactionBody, TransactionType, TxView};

verus! {

/// The kind of a body model.
pub open spec fn body_kind(b: BodyView) -> TransactionType {
    match b {
        BodyView::Raw(_) => TransactionType::Raw,
        BodyView::Message { .. } => TransactionType::Message,
        BodyView::Announcement { .. } => TransactionType::Announcement,
    }
}

/// Whether every key a body embeds decodes to a curve point.
pub open spec fn body_keys_ok(b: BodyView) -> bool {
    match b {
        BodyView::Raw(_) => true,
        BodyView::Message { from, to, .. } => pk_bytes_ok(from) && pk_bytes_ok(to),
        BodyView::Announcement { from, .. } => pk_bytes_ok(from),
    }
}

/// The inner document under a body's `body` field.
pub open spec fn enc_body_inner(b: BodyView) -> JVal {
    match b {
        BodyView::Raw(bytes) => JVal::Str(b64_of(bytes)),
        BodyView::Message { from, to, format, content } => JVal::Obj(
            seq![
                ("from"@, JVal::Str(b64_of(from))),
                ("to"@, JVal::Str(b64_of(to))),
                ("format"@, JVal::Str(encoding_str(format))),
                ("content"@, JVal::Str(content)),
            ],
        ),
        BodyView::Announcement { from, format, content } => JVal::Obj(
            seq![
                ("from"@, JVal::Str(b64_of(from))),
                ("format"@, JVal::Str(encoding_str(format))),
                ("content"@, JVal::Str(content)),
            ],
        ),
    }
}

/// The document form of a transaction body.
pub open spec fn enc_body(b: BodyView) -> JVal {
    JVal::Obj(
        seq![
            ("type"@, JVal::Str(type_str(body_kind(b)))),
            ("body"@, enc_body_inner(b)),
        ],
    )
}

/// Where each field of an encoded body is found.
proof fn lemma_enc_body_fields(x: BodyView)
    ensures
        jval_get(enc_body(x), "type"@) == Some(JVal::Str(type_str(body_kind(x)))),
        jval_get(enc_body(x), "body"@) == Some(enc_body_inner(x)),
{
    reveal_strlit("type");
    reveal_strlit("body");
    let fields = seq![
        ("type"@, JVal::Str(type_str(body_kind(x)))),
        ("body"@, enc_body_inner(x)),
    ];
    lemma_obj_get_at(fields, "type"@, 0);
    assert("type"@.len() == 4 && "body"@.len() == 4);
    assert("type"@[0] == 't' && "body"@[0] == 'b');
    lemma_obj_get_at(fields, "body"@, 1);
}

/// Where each field of an encoded message body is found.
proof fn lemma_enc_message_fields(from: Seq<u8>, to: Seq<u8>, format: MessageEncoding, content: Seq<char>)
    ensures
        jval_get(enc_body_inner(BodyView::Message { from, to, format, content }), "from"@)
            == Some(JVal::Str(b64_of(from))),
        jval_get(enc_body_inner(BodyView::Message { from, to, format, content }), "to"@)
            == Some(JVal::Str(b64_of(to))),
        jval_get(enc_body_inner(BodyView::Message { from, to, format, content }), "format"@)
            == Some(JVal::Str(encoding_str(format))),
        jval_get(enc_body_inner(BodyView::Message { from, to, format, content }), "content"@)
            == Some(JVal::Str(content)),
{
    reveal_strlit("from");
    reveal_strlit("to");
    reveal_strlit("format");
    reveal_strlit("content");
    let fields = seq![
        ("from"@, JVal::Str(b64_of(from))),
        ("to"@, JVal::Str(b64_of(to))),
        ("format"@, JVal::Str(encoding_str(format))),
        ("content"@, JVal::Str(content)),
    ];
    assert("from"@.len() == 4 && "to"@.len() == 2 && "format"@.len() == 6 && "content"@.len() == 7);
    lemma_obj_get_at(fields, "from"@, 0);
    lemma_obj_get_at(fields, "to"@, 1);
    assert("format"@[0] == 'f' && "from"@[1] == 'r' && "format"@[1] == 'o');
    lemma_obj_get_at(fields, "format"@, 2);
    assert("content"@[0] == 'c');
    lemma_obj_get_at(fields, "content"@, 3);
}

/// Where each field of an encoded announcement body is found.
proof fn lemma_enc_announcement_fields(from: Seq<u8>, format: MessageEncoding, content: Seq<char>)
    ensures
        jval_get(enc_body_inner(BodyView::Announcement { from, format, content }), "from"@)
            == Some(JVal::Str(b64_of(from))),
        jval_get(enc_body_inner(BodyView::Announcement { from, format, content }), "format"@)
            == Some(JVal::Str(encoding_str(format))),
        jval_get(enc_body_inner(BodyView::Announcement { from, format, content }), "content"@)
            == Some(JVal::Str(content)),
{
    reveal_strlit("from");
    reveal_strlit("format");
    reveal_strlit("content");
    let fields = seq![
        ("from"@, JVal::Str(b64_of(from))),
        ("format"@, JVal::Str(encoding_str(format))),
        ("content"@, JVal::Str(content)),
    ];
    assert("from"@.len() == 4 && "format"@.len() == 6 && "content"@.len() == 7);
    lemma_obj_get_at(fields, "from"@, 0);
    lemma_obj_get_at(fields, "format"@, 1);
    lemma_obj_get_at(fields, "content"@, 2);
}

impl TransactionBody {
    /// The document form of this body.
    pub fn to_json(&self) -> (r: JsonValue)
        ensures
            r@ == enc_body(self@),
    {
        let kind = self.transaction_type();
        let inner: JsonValue = match self {
            TransactionBody::Raw(bytes) => JsonValue::of_string(base64_encode(bytes.as_slice())),
            TransactionBody::Message { from, to, format, content } => {
                let mut fields: Vec<(String, JsonValue)> = Vec::new();
                obj_push(&mut fields, "from", JsonValue::of_string(from.to_base64()));
                obj_push(&mut fields, "to", JsonValue::of_string(to.to_base64()));
                obj_push(&mut fields, "format", JsonValue::of_str(format.as_str()));
                obj_push(&mut fields, "content", JsonValue::of_string(content.clone()));
                let r = JsonValue::Obj(fields);
                proof {
                    assert(r@ matches JVal::Obj(f) && f =~= (match enc_body_inner(self@) {
                        JVal::Obj(g) => g,
                        _ => f,
                    }));
                }
                r
            },
            TransactionBody::Announcement { from, format, content } => {
                let mut fields: Vec<(String, JsonValue)> = Vec::new();
                obj_push(&mut fields, "from", JsonValue::of_string(from.to_base64()));
                obj_push(&mut fields, "format", JsonValue::of_str(format.as_str()));
                obj_push(&mut fields, "content", JsonValue::of_string(content.clone()));
                let r = JsonValue::Obj(fields);
                proof {
                    assert(r@ matches JVal::Obj(f) && f =~= (match enc_body_inner(self@) {
                        JVal::Obj(g) => g,
                        _ => f,
                    }));
                }
                r
            },
        };
        proof {
            assert(inner@ == enc_body_inner(self@));
        }
        let mut fields: Vec<(String, JsonValue)> = Vec::new();
        obj_push(&mut fields, "type", JsonValue::of_str(kind.as_str()));
        obj_push(&mut fields, "body", inner);
        let r = JsonValue::Obj(fields);
        proof {
            assert(r@ matches JVal::Obj(f) && f =~= (match enc_body(self@) {
                JVal::Obj(g) => g,
                _ => f,
            }));
        }
        r
    }

    /// The body whose document this is: a canonical document decodes
    /// to the body it was written from.
    pub fn from_json(j: &JsonValue) -> (r: Result<TransactionBody, JsonError>)
        ensures
            forall|x: BodyView|
                (j@ == enc_body(x) && body_keys_ok(x)) ==> (r matches Ok(b) && b@ == x),
    {
        let type_v = match j.get("type") {
            Some(v) => v,
            None => {
                proof {
                    assert forall|x: BodyView| !(j@ == enc_body(x) && body_keys_ok(x)) by {
                        if j@ == enc_body(x) {
                            lemma_enc_body_fields(x);
                        }
                    }
                }
                return Err(JsonError::MissingField);
            },
        };
        let type_s = match type_v.as_str() {
            Some(s) => s,
            None => {
                proof {
                    assert forall|x: BodyView| !(j@ == enc_body(x) && body_keys_ok(x)) by {
                        if j@ == enc_body(x) {
                            lemma_enc_body_fields(x);
                        }
                    }
                }
                return Err(JsonError::InvalidField);
            },
        };
        let kind = match TransactionType::from_str(type_s) {
            Some(k) => k,
            None => {
                proof {
                    assert forall|x: BodyView| !(j@ == enc_body(x) && body_keys_ok(x)) by {
                        if j@ == enc_body(x) {
                            lemma_enc_body_fields(x);
                        }
                    }
                }
                return Err(JsonError::InvalidField);
            },
        };
        let body_v = match j.get("body") {
            Some(v) => v,
            None => {
                proof {
                    assert forall|x: BodyView| !(j@ == enc_body(x) && body_keys_ok(x)) by {
                        if j@ == enc_body(x) {
                            lemma_enc_body_fields(x);
                        }
                    }
                }
                return Err(JsonError::MissingField);
            },
        };
        proof {
            assert forall|x: BodyView|
                (j@ == enc_body(x) && body_keys_ok(x)) implies (type_s@ == type_str(body_kind(x))
                && body_v@ == enc_body_inner(x) && kind == body_kind(x)) by {
                lemma_enc_body_fields(x);
                reveal_strlit("raw");
                reveal_strlit("message");
                reveal_strlit("announcement");
                assert("raw"@.len() == 3 && "message"@.len() == 7 && "announcement"@.len() == 12);
            }
        }
        match kind {
            TransactionType::Raw => {
                let bytes_s = match body_v.as_str() {
                    Some(s) => s,
                    None => {
                        proof {
                            assert forall|x: BodyView| !(j@ == enc_body(x) && body_keys_ok(x)) by {
                                if j@ == enc_body(x) {
                                    lemma_enc_body_fields(x);
                                }
                            }
                        }
                        return Err(JsonError::InvalidField);
                    },
                };
                match base64_decode(bytes_s) {
                    Some(bytes) => Ok(TransactionBody::Raw(bytes)),
                    None => {
                        proof {
                            assert forall|x: BodyView| !(j@ == enc_body(x) && body_keys_ok(x)) by {
                                if j@ == enc_body(x) {
                                    lemma_enc_body_fields(x);
                                }
                            }
                        }
                        Err(JsonError::InvalidField)
                    },
                }
            },
            TransactionType::Message => {
                let from = match read_key_field(body_v, "from") {
                    Ok(k) => k,
                    Err(e) => {
                        proof {
                            assert forall|x: BodyView| !(j@ == enc_body(x) && body_keys_ok(x)) by {
                                if j@ == enc_body(x) && body_keys_ok(x) {
                                    lemma_enc_body_fields(x);
                                    match x {
                                        BodyView::Message { from: xf, to: xt, format: xe, content: xc } => {
                                            lemma_enc_message_fields(xf, xt, xe, xc);
                                        },
                                        _ => {},
                                    }
                                }
                            }
                        }
                        return Err(e);
                    },
                };
                let to = match read_key_field(body_v, "to") {
                    Ok(k) => k,
                    Err(e) => {
                        proof {
                            assert forall|x: BodyView| !(j@ == enc_body(x) && body_keys_ok(x)) by {
                                if j@ == enc_body(x) && body_keys_ok(x) {
                                    lemma_enc_body_fields(x);
                                    match x {
                                        BodyView::Message { from: xf, to: xt, format: xe, content: xc } => {
                                            lemma_enc_message_fields(xf, xt, xe, xc);
                                        },
                                        _ => {},
                                    }
                                }
                            }
                        }
                        return Err(e);
                    },
                };
                let format = match read_format_field(body_v) {
                    Ok(f) => f,
                    Err(e) => {
                        proof {
                            assert forall|x: BodyView| !(j@ == enc_body(x) && body_keys_ok(x)) by {
                                if j@ == enc_body(x) && body_keys_ok(x) {
                                    lemma_enc_body_fields(x);
                                    match x {
                                        BodyView::Message { from: xf, to: xt, format: xe, content: xc } => {
                                            lemma_enc_message_fields(xf, xt, xe, xc);
                                        },
                                        _ => {},
                                    }
                                }
                            }
                        }
                        return Err(e);
                    },
                };
                let content = match read_text_field(body_v, "content") {
                    Ok(c) => c,
                    Err(e) => {
                        proof {
                            assert forall|x: BodyView| !(j@ == enc_body(x) && body_keys_ok(x)) by {
                                if j@ == enc_body(x) && body_keys_ok(x) {
                                    lemma_enc_body_fields(x);
                                    match x {
                                        BodyView::Message { from: xf, to: xt, format: xe, content: xc } => {
                                            lemma_enc_message_fields(xf, xt, xe, xc);
                                        },
                                        _ => {},
                                    }
                                }
                            }
                        }
                        return Err(e);
                    },
                };
                let r = TransactionBody::Message { from, to, format, content };
                proof {
                    assert forall|x: BodyView|
                        (j@ == enc_body(x) && body_keys_ok(x)) implies r@ == x by {
                        lemma_enc_body_fields(x);
                        match x {
                            BodyView::Message { from: xf, to: xt, format: xe, content: xc } => {
                                lemma_enc_message_fields(xf, xt, xe, xc);
                                crate::encoding::lemma_encoding_name_roundtrip(format, xe);
                            },
                            _ => {},
                        }
                    }
                }
                Ok(r)
            },
            TransactionType::Announcement => {
                let from = match read_key_field(body_v, "from") {
                    Ok(k) => k,
                    Err(e) => {
                        proof {
                            assert forall|x: BodyView| !(j@ == enc_body(x) && body_keys_ok(x)) by {
                                if j@ == enc_body(x) && body_keys_ok(x) {
                                    lemma_enc_body_fields(x);
                                    match x {
                                        BodyView::Announcement { from: xf, format: xe, content: xc } => {
                                            lemma_enc_announcement_fields(xf, xe, xc);
                                        },
                                        _ => {},
                                    }
                                }
                            }
                        }
                        return Err(e);
                    },
                };
                let format = match read_format_field(body_v) {
                    Ok(f) => f,
                    Err(e) => {
                        proof {
                            assert forall|x: BodyView| !(j@ == enc_body(x) && body_keys_ok(x)) by {
                                if j@ == enc_body(x) && body_keys_ok(x) {
                                    lemma_enc_body_fields(x);
                                    match x {
                                        BodyView::Announcement { from: xf, format: xe, content: xc } => {
                                            lemma_enc_announcement_fields(xf, xe, xc);
                                        },
                                        _ => {},
                                    }
                                }
                            }
                        }
                        return Err(e);
                    },
                };
                let content = match read_text_field(body_v, "content") {
                    Ok(c) => c,
                    Err(e) => {
                        proof {
                            assert forall|x: BodyView| !(j@ == enc_body(x) && body_keys_ok(x)) by {
                                if j@ == enc_body(x) && body_keys_ok(x) {
                                    lemma_enc_body_fields(x);
                                    match x {
                                        BodyView::Announcement { from: xf, format: xe, content: xc } => {
                                            lemma_enc_announcement_fields(xf, xe, xc);
                                        },
                                        _ => {},
                                    }
                                }
                            }
                        }
                        return Err(e);
                    },
                };
                let r = TransactionBody::Announcement { from, format, content };
                proof {
                    assert forall|x: BodyView|
                        (j@ == enc_body(x) && body_keys_ok(x)) implies r@ == x by {
                        lemma_enc_body_fields(x);
                        match x {
                            BodyView::Announcement { from: xf, format: xe, content: xc } => {
                                lemma_enc_announcement_fields(xf, xe, xc);
                                crate::encoding::lemma_encoding_name_roundtrip(format, xe);
                            },
                            _ => {},
                        }
                    }
                }
                Ok(r)
            },
        }
    }
}

/// Read the field named `key` as a base64-encoded verifying key.
pub(crate) fn read_key_field(j: &JsonValue, key: &str) -> (r: Result<PublicKey, JsonError>)
    ensures
        forall|bytes: Seq<u8>|
            (jval_get(j@, key@) == Some(JVal::Str(b64_of(bytes))) && pk_bytes_ok(bytes)) ==> (
            r matches Ok(k) && k@ == bytes),
        r matches Ok(k) ==> jval_get(j@, key@) == Some(JVal::Str(b64_of(k@))) && pk_bytes_ok(k@),
{
    let v = match j.get(key) {
        Some(v) => v,
        None => {
            return Err(JsonError::MissingField);
        },
    };
    let s = match v.as_str() {
        Some(s) => s,
        None => {
            return Err(JsonError::InvalidField);
        },
    };
    match PublicKey::from_base64(s) {
        Ok(k) => Ok(k),
        Err(_) => Err(JsonError::InvalidField),
    }
}

/// Read the field named `key` as text.
pub(crate) fn read_text_field(j: &JsonValue, key: &str) -> (r: Result<String, JsonError>)
    ensures
        forall|text: Seq<char>|
            jval_get(j@, key@) == Some(JVal::Str(text)) ==> (r matches Ok(s) && s@ == text),
        r matches Ok(s) ==> jval_get(j@, key@) == Some(JVal::Str(s@)),
{
    let v = match j.get(key) {
        Some(v) => v,
        None => {
            return Err(JsonError::MissingField);
        },
    };
    match v.as_str() {
        Some(s) => Ok(String::from_str(s)),
        None => Err(JsonError::InvalidField),
    }
}

/// Read the `format` field as an encoding name.
pub(crate) fn read_format_field(j: &JsonValue) -> (r: Result<MessageEncoding, JsonError>)
    ensures
        forall|e: MessageEncoding|
            jval_get(j@, "format"@) == Some(JVal::Str(encoding_str(e))) ==> (r matches Ok(f)
                && encoding_str(f) == encoding_str(e)),
{
    let v = match j.get("format") {
        Some(v) => v,
        None => {
            return Err(JsonError::MissingField);
        },
    };
    let s = match v.as_str() {
        Some(s) => s,
        None => {
            return Err(JsonError::InvalidField);
        },
    };
    match MessageEncoding::from_str(s) {
        Some(f) => Ok(f),
        None => Err(JsonError::InvalidField),
    }
}


/// Whether a transaction model has the shapes a document can carry:
/// a 32-byte digest and keys that decode.
pub open spec fn tx_shape_ok(t: TxView) -> bool {
    t.hash.len() == 32 && pk_bytes_ok(t.author) && body_keys_ok(t.body)
}

/// The metadata document of a transaction.
pub open spec fn enc_tx_meta(t: TxView) -> JVal {
    JVal::Obj(
        seq![
            ("random_seed"@, JVal::Num(t.random_seed)),
            ("created_at"@, JVal::Num(t.created_at)),
        ],
    )
}

/// The content document of a transaction.
pub open spec fn enc_tx_content(t: TxView) -> JVal {
    JVal::Obj(
        seq![
            ("author"@, JVal::Str(b64_of(t.author))),
            ("body"@, enc_body(t.body)),
            ("sign"@, JVal::Str(b64_of(t.sign))),
        ],
    )
}

/// The inner document under a transaction's `transaction` field.
pub open spec fn enc_tx_inner(t: TxView) -> JVal {
    JVal::Obj(
        seq![
            ("hash"@, JVal::Str(b64_of(t.hash))),
            ("metadata"@, enc_tx_meta(t)),
            ("content"@, enc_tx_content(t)),
        ],
    )
}

/// The document form of a transaction.
pub open spec fn enc_tx(t: TxView) -> JVal {
    JVal::Obj(seq![("format"@, JVal::Num(1)), ("transaction"@, enc_tx_inner(t))])
}

/// Where each field of an encoded transaction is found.
proof fn lemma_enc_tx_fields(x: TxView)
    ensures
        jval_get(enc_tx(x), "format"@) == Some(JVal::Num(1)),
        jval_get(enc_tx(x), "transaction"@) == Some(enc_tx_inner(x)),
        jval_get(enc_tx_inner(x), "hash"@) == Some(JVal::Str(b64_of(x.hash))),
        jval_get(enc_tx_inner(x), "metadata"@) == Some(enc_tx_meta(x)),
        jval_get(enc_tx_meta(x), "random_seed"@) == Some(JVal::Num(x.random_seed)),
        jval_get(enc_tx_meta(x), "created_at"@) == Some(JVal::Num(x.created_at)),
        jval_get(enc_tx_inner(x), "content"@) == Some(enc_tx_content(x)),
        jval_get(enc_tx_content(x), "author"@) == Some(JVal::Str(b64_of(x.author))),
        jval_get(enc_tx_content(x), "body"@) == Some(enc_body(x.body)),
        jval_get(enc_tx_content(x), "sign"@) == Some(JVal::Str(b64_of(x.sign))),
{
    reveal_strlit("format");
    reveal_strlit("transaction");
    reveal_strlit("hash");
    reveal_strlit("metadata");
    reveal_strlit("content");
    reveal_strlit("random_seed");
    reveal_strlit("created_at");
    reveal_strlit("author");
    reveal_strlit("body");
    reveal_strlit("sign");
    assert("format"@.len() == 6 && "transaction"@.len() == 11);
    let top = seq![("format"@, JVal::Num(1)), ("transaction"@, enc_tx_inner(x))];
    lemma_obj_get_at(top, "format"@, 0);
    lemma_obj_get_at(top, "transaction"@, 1);
    assert("hash"@.len() == 4 && "metadata"@.len() == 8 && "content"@.len() == 7);
    let inner = seq![
        ("hash"@, JVal::Str(b64_of(x.hash))),
        ("metadata"@, enc_tx_meta(x)),
        ("content"@, enc_tx_content(x)),
    ];
    lemma_obj_get_at(inner, "hash"@, 0);
    lemma_obj_get_at(inner, "metadata"@, 1);
    lemma_obj_get_at(inner, "content"@, 2);
    assert("random_seed"@.len() == 11 && "created_at"@.len() == 10);
    let meta = seq![
        ("random_seed"@, JVal::Num(x.random_seed)),
        ("created_at"@, JVal::Num(x.created_at)),
    ];
    lemma_obj_get_at(meta, "random_seed"@, 0);
    lemma_obj_get_at(meta, "created_at"@, 1);
    assert("author"@.len() == 6 && "body"@.len() == 4 && "sign"@.len() == 4);
    assert("body"@[0] == 'b' && "sign"@[0] == 's');
    let content = seq![
        ("author"@, JVal::Str(b64_of(x.author))),
        ("body"@, enc_body(x.body)),
        ("sign"@, JVal::Str(b64_of(x.sign))),
    ];
    lemma_obj_get_at(content, "author"@, 0);
    lemma_obj_get_at(content, "body"@, 1);
    lemma_obj_get_at(content, "sign"@, 2);
}


impl Transaction {
    /// The document form of this transaction.
    pub fn to_json(&self) -> (r: JsonValue)
        ensures
            r@ == enc_tx(self@),
    {
        let mut meta: Vec<(String, JsonValue)> = Vec::new();
        obj_push(&mut meta, "random_seed", JsonValue::Num(self.random_seed()));
        obj_push(&mut meta, "created_at", JsonValue::Num(self.created_at()));
        let meta_v = JsonValue::Obj(meta);
        proof {
            assert(meta_v@ matches JVal::Obj(f) && f =~= (match enc_tx_meta(self@) {
                JVal::Obj(g) => g,
                _ => f,
            }));
        }
        let mut content: Vec<(String, JsonValue)> = Vec::new();
        obj_push(&mut content, "author", JsonValue::of_string(self.author().to_base64()));
        obj_push(&mut content, "body", self.body().to_json());
        obj_push(&mut content, "sign", JsonValue::of_string(base64_encode(self.sign())));
        let content_v = JsonValue::Obj(content);
        proof {
            assert(content_v@ matches JVal::Obj(f) && f =~= (match enc_tx_content(self@) {
                JVal::Obj(g) => g,
                _ => f,
            }));
        }
        let mut inner: Vec<(String, JsonValue)> = Vec::new();
        obj_push(&mut inner, "hash", JsonValue::of_string(self.get_hash().to_base64()));
        obj_push(&mut inner, "metadata", meta_v);
        obj_push(&mut inner, "content", content_v);
        let inner_v = JsonValue::Obj(inner);
        proof {
            assert(inner_v@ matches JVal::Obj(f) && f =~= (match enc_tx_inner(self@) {
                JVal::Obj(g) => g,
                _ => f,
            }));
        }
        let mut top: Vec<(String, JsonValue)> = Vec::new();
        obj_push(&mut top, "format", JsonValue::Num(1));
        obj_push(&mut top, "transaction", inner_v);
        let r = JsonValue::Obj(top);
        proof {
            assert(r@ matches JVal::Obj(f) && f =~= (match enc_tx(self@) {
                JVal::Obj(g) => g,
                _ => f,
            }));
        }
        r
    }

    /// The transaction whose document this is: a canonical document
    /// decodes to the transaction it was written from.
    pub fn from_json(j: &JsonValue) -> (r: Result<Transaction, JsonError>)
        ensures
            forall|x: TxView|
                (j@ == enc_tx(x) && tx_shape_ok(x)) ==> (r matches Ok(t) && t@ == x),
            r is Ok ==> jval_get(j@, "format"@) == Some(JVal::Num(1)),
            forall|v: u64|
                (jval_get(j@, "format"@) == Some(JVal::Num(v)) && v != 1) ==> r == Err::<
                    Transaction,
                    JsonError,
                >(JsonError::InvalidStandard(v)),

    {
        let format_num = match read_u64_field(j, "format") {
            Ok(n) => n,
            Err(e) => {
                proof {
                    assert forall|x: TxView| !(j@ == enc_tx(x) && tx_shape_ok(x)) by {
                        if j@ == enc_tx(x) {
                            lemma_enc_tx_fields(x);
                        }
                    }
                }
                return Err(e);
            },
        };
        if format_num != 1 {
            proof {
                assert forall|x: TxView| !(j@ == enc_tx(x) && tx_shape_ok(x)) by {
                    if j@ == enc_tx(x) {
                        lemma_enc_tx_fields(x);
                    }
                }
            }
            return Err(JsonError::InvalidStandard(format_num));
        }
        let inner = match j.get("transaction") {
            Some(v) => v,
            None => {
                proof {
                    assert forall|x: TxView| !(j@ == enc_tx(x) && tx_shape_ok(x)) by {
                        if j@ == enc_tx(x) {
                            lemma_enc_tx_fields(x);
                        }
                    }
                }
                return Err(JsonError::MissingField);
            },
        };
        let hash = match read_hash_field(inner, "hash") {
            Ok(h) => h,
            Err(e) => {
                proof {
                    assert forall|x: TxView| !(j@ == enc_tx(x) && tx_shape_ok(x)) by {
                        if j@ == enc_tx(x) {
                            lemma_enc_tx_fields(x);
                        }
                    }
                }
                return Err(e);
            },
        };
        let meta = match inner.get("metadata") {
            Some(v) => v,
            None => {
                proof {
                    assert forall|x: TxView| !(j@ == enc_tx(x) && tx_shape_ok(x)) by {
                        if j@ == enc_tx(x) {
                            lemma_enc_tx_fields(x);
                        }
                    }
                }
                return Err(JsonError::MissingField);
            },
        };
        let random_seed = match read_u64_field(meta, "random_seed") {
            Ok(n) => n,
            Err(e) => {
                proof {
                    assert forall|x: TxView| !(j@ == enc_tx(x) && tx_shape_ok(x)) by {
                        if j@ == enc_tx(x) {
                            lemma_enc_tx_fields(x);
                        }
                    }
                }
                return Err(e);
            },
        };
        let created_at = match read_u64_field(meta, "created_at") {
            Ok(n) => n,
            Err(e) => {
                proof {
                    assert forall|x: TxView| !(j@ == enc_tx(x) && tx_shape_ok(x)) by {
                        if j@ == enc_tx(x) {
                            lemma_enc_tx_fields(x);
                        }
                    }
                }
                return Err(e);
            },
        };
        let content = match inner.get("content") {
            Some(v) => v,
            None => {
                proof {
                    assert forall|x: TxView| !(j@ == enc_tx(x) && tx_shape_ok(x)) by {
                        if j@ == enc_tx(x) {
                            lemma_enc_tx_fields(x);
                        }
                    }
                }
                return Err(JsonError::MissingField);
            },
        };
        let author = match read_key_field(content, "author") {
            Ok(k) => k,
            Err(e) => {
                proof {
                    assert forall|x: TxView| !(j@ == enc_tx(x) && tx_shape_ok(x)) by {
                        if j@ == enc_tx(x) {
                            lemma_enc_tx_fields(x);
                        }
                    }
                }
                return Err(e);
            },
        };
        let body_v = match content.get("body") {
            Some(v) => v,
            None => {
                proof {
                    assert forall|x: TxView| !(j@ == enc_tx(x) && tx_shape_ok(x)) by {
                        if j@ == enc_tx(x) {
                            lemma_enc_tx_fields(x);
                        }
                    }
                }
                return Err(JsonError::MissingField);
            },
        };
        let body = match TransactionBody::from_json(body_v) {
            Ok(b) => b,
            Err(e) => {
                proof {
                    assert forall|x: TxView| !(j@ == enc_tx(x) && tx_shape_ok(x)) by {
                        if j@ == enc_tx(x) {
                            lemma_enc_tx_fields(x);
                        }
                    }
                }
                return Err(e);
            },
        };
        let sign = match read_bytes_field(content, "sign") {
            Ok(s) => s,
            Err(e) => {
                proof {
                    assert forall|x: TxView| !(j@ == enc_tx(x) && tx_shape_ok(x)) by {
                        if j@ == enc_tx(x) {
                            lemma_enc_tx_fields(x);
                        }
                    }
                }
                return Err(e);
            },
        };
        let t = Transaction::assemble(hash, random_seed, created_at, author, body, sign);
        proof {
            assert forall|x: TxView| (j@ == enc_tx(x) && tx_shape_ok(x)) implies t@ == x by {
                lemma_enc_tx_fields(x);
                assert(t@ =~= x);
            }
        }
        Ok(t)
    }
}

/// Read the field named `key` as a `u64` number.
pub(crate) fn read_u64_field(j: &JsonValue, key: &str) -> (r: Result<u64, JsonError>)
    ensures
        forall|n: u64|
            jval_get(j@, key@) == Some(JVal::Num(n)) ==> (r matches Ok(m) && m == n),
        r matches Ok(m) ==> jval_get(j@, key@) == Some(JVal::Num(m)),
{
    let v = match j.get(key) {
        Some(v) => v,
        None => {
            return Err(JsonError::MissingField);
        },
    };
    match v.as_u64() {
        Some(n) => Ok(n),
        None => Err(JsonError::InvalidField),
    }
}

/// Read the field named `key` as a base64-encoded 32-byte digest.
pub(crate) fn read_hash_field(j: &JsonValue, key: &str) -> (r: Result<crate::hash::Hash, JsonError>)
    ensures
        forall|bytes: Seq<u8>|
            (jval_get(j@, key@) == Some(JVal::Str(b64_of(bytes))) && bytes.len() == 32) ==> (
            r matches Ok(h) && h@ == bytes),
        r matches Ok(h) ==> jval_get(j@, key@) == Some(JVal::Str(b64_of(h@))),
{
    let v = match j.get(key) {
        Some(v) => v,
        None => {
            return Err(JsonError::MissingField);
        },
    };
    let s = match v.as_str() {
        Some(s) => s,
        None => {
            return Err(JsonError::InvalidField);
        },
    };
    match crate::hash::Hash::from_base64(s) {
        Ok(h) => Ok(h),
        Err(_) => Err(JsonError::InvalidField),
    }
}

/// Read the field named `key` as base64-encoded bytes.
pub(crate) fn read_bytes_field(j: &JsonValue, key: &str) -> (r: Result<Vec<u8>, JsonError>)
    ensures
        forall|bytes: Seq<u8>|
            jval_get(j@, key@) == Some(JVal::Str(b64_of(bytes))) ==> (r matches Ok(d) && d@
                == bytes),
        r matches Ok(d) ==> jval_get(j@, key@) == Some(JVal::Str(b64_of(d@))),
{
    let v = match j.get(key) {
        Some(v) => v,
        None => {
            return Err(JsonError::MissingField);
        },
    };
    let s = match v.as_str() {
        Some(s) => s,
        None => {
            return Err(JsonError::InvalidField);
        },
    };
    match base64_decode(s) {
        Some(d) => Ok(d),
        None => Err(JsonError::InvalidField),
    }
}


/// Whether a minter model has the shapes a document can carry.
pub open spec fn minter_shape_ok(m: MinterView) -> bool {
    pk_bytes_ok(m.public_key) && m.balance_mask.len() == 32
}

/// The inner document under a minter's `minter` field.
pub open spec fn enc_minter_inner(m: MinterView) -> JVal {
    JVal::Obj(
        seq![
            ("public_key"@, JVal::Str(b64_of(m.public_key))),
            ("balance_mask"@, JVal::Str(b64_of(m.balance_mask))),
        ],
    )
}

/// The document form of a minter record.
pub open spec fn enc_minter(m: MinterView) -> JVal {
    JVal::Obj(seq![("format"@, JVal::Num(1)), ("minter"@, enc_minter_inner(m))])
}

/// Where each field of an encoded minter is found.
proof fn lemma_enc_minter_fields(x: MinterView)
    ensures
        jval_get(enc_minter(x), "format"@) == Some(JVal::Num(1)),
        jval_get(enc_minter(x), "minter"@) == Some(enc_minter_inner(x)),
        jval_get(enc_minter_inner(x), "public_key"@) == Some(JVal::Str(b64_of(x.public_key))),
        jval_get(enc_minter_inner(x), "balance_mask"@) == Some(JVal::Str(b64_of(x.balance_mask))),
{
    reveal_strlit("format");
    reveal_strlit("minter");
    reveal_strlit("public_key");
    reveal_strlit("balance_mask");
    assert("format"@.len() == 6 && "minter"@.len() == 6);
    assert("format"@[0] == 'f' && "minter"@[0] == 'm');
    let top = seq![("format"@, JVal::Num(1)), ("minter"@, enc_minter_inner(x))];
    lemma_obj_get_at(top, "format"@, 0);
    lemma_obj_get_at(top, "minter"@, 1);
    assert("public_key"@.len() == 10 && "balance_mask"@.len() == 12);
    let inner = seq![
        ("public_key"@, JVal::Str(b64_of(x.public_key))),
        ("balance_mask"@, JVal::Str(b64_of(x.balance_mask))),
    ];
    lemma_obj_get_at(inner, "public_key"@, 0);
    lemma_obj_get_at(inner, "balance_mask"@, 1);
}

impl BlockMinter {
    /// The document form of this record.
    pub fn to_json(&self) -> (r: JsonValue)
        ensures
            r@ == enc_minter(self@),
    {
        let mut inner: Vec<(String, JsonValue)> = Vec::new();
        obj_push(&mut inner, "public_key", JsonValue::of_string(self.public_key().to_base64()));
        obj_push(
            &mut inner,
            "balance_mask",
            JsonValue::of_string(self.balance_mask().to_base64()),
        );
        let inner_v = JsonValue::Obj(inner);
        proof {
            assert(inner_v@ matches JVal::Obj(f) && f =~= (match enc_minter_inner(self@) {
                JVal::Obj(g) => g,
                _ => f,
            }));
        }
        let mut top: Vec<(String, JsonValue)> = Vec::new();
        obj_push(&mut top, "format", JsonValue::Num(1));
        obj_push(&mut top, "minter", inner_v);
        let r = JsonValue::Obj(top);
        proof {
            assert(r@ matches JVal::Obj(f) && f =~= (match enc_minter(self@) {
                JVal::Obj(g) => g,
                _ => f,
            }));
        }
        r
    }

    /// The record whose document this is: a canonical document
    /// decodes to the record it was written from.
    pub fn from_json(j: &JsonValue) -> (r: Result<BlockMinter, JsonError>)
        ensures
            forall|x: MinterView|
                (j@ == enc_minter(x) && minter_shape_ok(x)) ==> (r matches Ok(m) && m@ == x),
            r is Ok ==> jval_get(j@, "format"@) == Some(JVal::Num(1)),
            forall|v: u64|
                (jval_get(j@, "format"@) == Some(JVal::Num(v)) && v != 1) ==> r == Err::<
                    BlockMinter,
                    JsonError,
                >(JsonError::InvalidStandard(v)),

    {
        let format_num = match read_u64_field(j, "format") {
            Ok(n) => n,
            Err(e) => {
                proof {
                    assert forall|x: MinterView| !(j@ == enc_minter(x) && minter_shape_ok(x)) by {
                        if j@ == enc_minter(x) {
                            lemma_enc_minter_fields(x);
                        }
                    }
                }
                return Err(e);
            },
        };
        if format_num != 1 {
            proof {
                assert forall|x: MinterView| !(j@ == enc_minter(x) && minter_shape_ok(x)) by {
                    if j@ == enc_minter(x) {
                        lemma_enc_minter_fields(x);
                    }
                }
            }
            return Err(JsonError::InvalidStandard(format_num));
        }
        let inner = match j.get("minter") {
            Some(v) => v,
            None => {
                proof {
                    assert forall|x: MinterView| !(j@ == enc_minter(x) && minter_shape_ok(x)) by {
                        if j@ == enc_minter(x) {
                            lemma_enc_minter_fields(x);
                        }
                    }
                }
                return Err(JsonError::MissingField);
            },
        };
        let public_key = match read_key_field(inner, "public_key") {
            Ok(k) => k,
            Err(e) => {
                proof {
                    assert forall|x: MinterView| !(j@ == enc_minter(x) && minter_shape_ok(x)) by {
                        if j@ == enc_minter(x) {
                            lemma_enc_minter_fields(x);
                        }
                    }
                }
                return Err(e);
            },
        };
        let balance_mask = match read_hash_field(inner, "balance_mask") {
            Ok(h) => h,
            Err(e) => {
                proof {
                    assert forall|x: MinterView| !(j@ == enc_minter(x) && minter_shape_ok(x)) by {
                        if j@ == enc_minter(x) {
                            lemma_enc_minter_fields(x);
                        }
                    }
                }
                return Err(e);
            },
        };
        let m = BlockMinter::new(public_key, balance_mask);
        proof {
            assert forall|x: MinterView|
                (j@ == enc_minter(x) && minter_shape_ok(x)) implies m@ == x by {
                lemma_enc_minter_fields(x);
                assert(m@ =~= x);
            }
        }
        Ok(m)
    }
}


/// The document forms of a run of transactions.
pub open spec fn enc_txs(ts: Seq<TxView>) -> Seq<JVal> {
    Seq::new(ts.len(), |i: int| enc_tx(ts[i]))
}

/// The document forms of a run of minter records.
pub open spec fn enc_minters(ms: Seq<MinterView>) -> Seq<JVal> {
    Seq::new(ms.len(), |i: int| enc_minter(ms[i]))
}

/// Whether a block model has the shapes a document can carry.
pub open spec fn block_shape_ok(b: BlockView) -> bool {
    b.hash.len() == 32 && (match b.previous_block {
        Some(h) => h.len() == 32,
        None => true,
    }) && pk_bytes_ok(b.validator) && (forall|i: int|
        0 <= i < b.transactions.len() ==> tx_shape_ok(#[trigger] b.transactions[i])) && (forall|
        i: int,
    |
        0 <= i < b.minters.len() ==> minter_shape_ok(#[trigger] b.minters[i]))
}

/// The metadata document of a block.
pub open spec fn enc_block_meta(b: BlockView) -> JVal {
    JVal::Obj(
        seq![
            ("random_seed"@, JVal::Num(b.random_seed)),
            ("created_at"@, JVal::Num(b.created_at)),
        ],
    )
}

/// The content document of a block.
pub open spec fn enc_block_content(b: BlockView) -> JVal {
    JVal::Obj(
        seq![
            ("transactions"@, JVal::Arr(enc_txs(b.transactions))),
            ("minters"@, JVal::Arr(enc_minters(b.minters))),
            ("validator"@, JVal::Str(b64_of(b.validator))),
            ("sign"@, JVal::Str(b64_of(b.sign))),
        ],
    )
}

/// The inner document under a block's `block` field.
pub open spec fn enc_block_inner(b: BlockView) -> JVal {
    JVal::Obj(
        seq![
            ("previous"@, match b.previous_block {
                Some(h) => JVal::Str(b64_of(h)),
                None => JVal::Null,
            }),
            ("current"@, JVal::Str(b64_of(b.hash))),
            ("number"@, JVal::Num(b.number)),
            ("metadata"@, enc_block_meta(b)),
            ("content"@, enc_block_content(b)),
        ],
    )
}

/// The document form of a block.
pub open spec fn enc_block(b: BlockView) -> JVal {
    JVal::Obj(seq![("format"@, JVal::Num(1)), ("block"@, enc_block_inner(b))])
}

/// Where each field of an encoded block is found.
proof fn lemma_enc_block_fields(x: BlockView)
    ensures
        jval_get(enc_block(x), "format"@) == Some(JVal::Num(1)),
        jval_get(enc_block(x), "block"@) == Some(enc_block_inner(x)),
        jval_get(enc_block_inner(x), "previous"@) == Some(
            match x.previous_block {
                Some(h) => JVal::Str(b64_of(h)),
                None => JVal::Null,
            },
        ),
        jval_get(enc_block_inner(x), "current"@) == Some(JVal::Str(b64_of(x.hash))),
        jval_get(enc_block_inner(x), "number"@) == Some(JVal::Num(x.number)),
        jval_get(enc_block_inner(x), "metadata"@) == Some(enc_block_meta(x)),
        jval_get(enc_block_meta(x), "random_seed"@) == Some(JVal::Num(x.random_seed)),
        jval_get(enc_block_meta(x), "created_at"@) == Some(JVal::Num(x.created_at)),
        jval_get(enc_block_inner(x), "content"@) == Some(enc_block_content(x)),
        jval_get(enc_block_content(x), "transactions"@) == Some(
            JVal::Arr(enc_txs(x.transactions)),
        ),
        jval_get(enc_block_content(x), "minters"@) == Some(JVal::Arr(enc_minters(x.minters))),
        jval_get(enc_block_content(x), "validator"@) == Some(JVal::Str(b64_of(x.validator))),
        jval_get(enc_block_content(x), "sign"@) == Some(JVal::Str(b64_of(x.sign))),
{
    reveal_strlit("format");
    reveal_strlit("block");
    reveal_strlit("previous");
    reveal_strlit("current");
    reveal_strlit("number");
    reveal_strlit("metadata");
    reveal_strlit("content");
    reveal_strlit("random_seed");
    reveal_strlit("created_at");
    reveal_strlit("transactions");
    reveal_strlit("minters");
    reveal_strlit("validator");
    reveal_strlit("sign");
    assert("format"@.len() == 6 && "block"@.len() == 5);
    let top = seq![("format"@, JVal::Num(1)), ("block"@, enc_block_inner(x))];
    lemma_obj_get_at(top, "format"@, 0);
    lemma_obj_get_at(top, "block"@, 1);
    let prev = (match x.previous_block {
        Some(h) => JVal::Str(b64_of(h)),
        None => JVal::Null,
    });
    let inner = seq![
        ("previous"@, prev),
        ("current"@, JVal::Str(b64_of(x.hash))),
        ("number"@, JVal::Num(x.number)),
        ("metadata"@, enc_block_meta(x)),
        ("content"@, enc_block_content(x)),
    ];
    assert("previous"@.len() == 8 && "current"@.len() == 7 && "number"@.len() == 6
        && "metadata"@.len() == 8 && "content"@.len() == 7);
    assert("previous"@[0] == 'p' && "metadata"@[0] == 'm');
    assert("current"@[1] == 'u' && "content"@[1] == 'o');
    assert("current"@[1] != "previous"@[1] && "number"@[0] != "previous"@[0]);
    assert(enc_block_inner(x) matches JVal::Obj(g) && g =~= inner);
    assert(enc_block_inner(x) == JVal::Obj(inner));
    lemma_obj_get_at(inner, "previous"@, 0);
    lemma_obj_get_at(inner, "current"@, 1);
    lemma_obj_get_at(inner, "number"@, 2);
    lemma_obj_get_at(inner, "metadata"@, 3);
    lemma_obj_get_at(inner, "content"@, 4);
    let meta = seq![
        ("random_seed"@, JVal::Num(x.random_seed)),
        ("created_at"@, JVal::Num(x.created_at)),
    ];
    assert("random_seed"@.len() == 11 && "created_at"@.len() == 10);
    lemma_obj_get_at(meta, "random_seed"@, 0);
    lemma_obj_get_at(meta, "created_at"@, 1);
    let content = seq![
        ("transactions"@, JVal::Arr(enc_txs(x.transactions))),
        ("minters"@, JVal::Arr(enc_minters(x.minters))),
        ("validator"@, JVal::Str(b64_of(x.validator))),
        ("sign"@, JVal::Str(b64_of(x.sign))),
    ];
    assert("transactions"@.len() == 12 && "minters"@.len() == 7 && "validator"@.len() == 9
        && "sign"@.len() == 4);
    lemma_obj_get_at(content, "transactions"@, 0);
    lemma_obj_get_at(content, "minters"@, 1);
    lemma_obj_get_at(content, "validator"@, 2);
    lemma_obj_get_at(content, "sign"@, 3);
}

impl Block {
    /// The document form of this block.
    pub fn to_json(&self) -> (r: JsonValue)
        ensures
            r@ == enc_block(self@),
    {
        let ghost bv = self@;
        let txs = self.transactions();
        let mut txs_json: Vec<JsonValue> = Vec::new();
        let n = txs.len();
        let mut i: usize = 0;
        while i < n
            invariant
                n == txs@.len(),
                i <= n,
                bv == self@,
                bv.transactions.len() == n,
                forall|k: int| 0 <= k < n ==> txs@[k]@ == bv.transactions[k],
                crate::json::jv_views(txs_json@) =~= enc_txs(bv.transactions).take(i as int),
            decreases n - i,
        {
            crate::json::arr_push(&mut txs_json, txs[i].to_json());
            proof {
                assert(crate::json::jv_views(txs_json@) =~= enc_txs(bv.transactions).take(i + 1));
            }
            i = i + 1;
        }
        proof {
            assert(enc_txs(bv.transactions).take(n as int) =~= enc_txs(bv.transactions));
        }
        let ms = self.minters();
        let mut ms_json: Vec<JsonValue> = Vec::new();
        let m = ms.len();
        let mut k: usize = 0;
        while k < m
            invariant
                m == ms@.len(),
                k <= m,
                bv == self@,
                bv.minters.len() == m,
                forall|j: int| 0 <= j < m ==> ms@[j]@ == bv.minters[j],
                crate::json::jv_views(ms_json@) =~= enc_minters(bv.minters).take(k as int),
            decreases m - k,
        {
            crate::json::arr_push(&mut ms_json, ms[k].to_json());
            proof {
                assert(crate::json::jv_views(ms_json@) =~= enc_minters(bv.minters).take(k + 1));
            }
            k = k + 1;
        }
        proof {
            assert(enc_minters(bv.minters).take(m as int) =~= enc_minters(bv.minters));
        }
        let mut content: Vec<(String, JsonValue)> = Vec::new();
        obj_push(&mut content, "transactions", JsonValue::Arr(txs_json));
        obj_push(&mut content, "minters", JsonValue::Arr(ms_json));
        obj_push(&mut content, "validator", JsonValue::of_string(self.validator().to_base64()));
        obj_push(&mut content, "sign", JsonValue::of_string(base64_encode(self.sign())));
        let content_v = JsonValue::Obj(content);
        proof {
            assert(content_v@ matches JVal::Obj(f) && f =~= (match enc_block_content(bv) {
                JVal::Obj(g) => g,
                _ => f,
            }));
        }
        let mut meta: Vec<(String, JsonValue)> = Vec::new();
        obj_push(&mut meta, "random_seed", JsonValue::Num(self.random_seed()));
        obj_push(&mut meta, "created_at", JsonValue::Num(self.created_at()));
        let meta_v = JsonValue::Obj(meta);
        proof {
            assert(meta_v@ matches JVal::Obj(f) && f =~= (match enc_block_meta(bv) {
                JVal::Obj(g) => g,
                _ => f,
            }));
        }
        let prev_v: JsonValue = match self.previous_block() {
            Some(h) => JsonValue::of_string(h.to_base64()),
            None => JsonValue::Null,
        };
        let mut inner: Vec<(String, JsonValue)> = Vec::new();
        obj_push(&mut inner, "previous", prev_v);
        obj_push(&mut inner, "current", JsonValue::of_string(self.get_hash().to_base64()));
        obj_push(&mut inner, "number", JsonValue::Num(self.number()));
        obj_push(&mut inner, "metadata", meta_v);
        obj_push(&mut inner, "content", content_v);
        let inner_v = JsonValue::Obj(inner);
        proof {
            assert(inner_v@ matches JVal::Obj(f) && f =~= (match enc_block_inner(bv) {
                JVal::Obj(g) => g,
                _ => f,
            }));
        }
        let mut top: Vec<(String, JsonValue)> = Vec::new();
        obj_push(&mut top, "format", JsonValue::Num(1));
        obj_push(&mut top, "block", inner_v);
        let r = JsonValue::Obj(top);
        proof {
            assert(r@ matches JVal::Obj(f) && f =~= (match enc_block(bv) {
                JVal::Obj(g) => g,
                _ => f,
            }));
        }
        r
    }
}


/// Decode a run of transaction documents; what each canonical item
/// encodes is what comes back at its position.
fn decode_tx_array(items: &Vec<JsonValue>) -> (r: Result<Vec<Transaction>, JsonError>)
    ensures
        r matches Ok(ts) ==> ts@.len() == items@.len() && (forall|k: int, y: TxView|
            #![trigger ts@[k], enc_tx(y)]
            (0 <= k < items@.len() && crate::json::jv_view(items@[k]) == enc_tx(y) && tx_shape_ok(
                y,
            )) ==> ts@[k]@ == y),
        r is Err ==> (exists|k: int|
            0 <= k < items@.len() && (forall|y: TxView|
                !(crate::json::jv_view(#[trigger] items@[k]) == enc_tx(y) && tx_shape_ok(y)))),
{
    let mut out: Vec<Transaction> = Vec::new();
    let n = items.len();
    let mut i: usize = 0;
    while i < n
        invariant
            n == items@.len(),
            i <= n,
            out@.len() == i,
            forall|k: int, y: TxView|
                #![trigger out@[k], enc_tx(y)]
                (0 <= k < i && crate::json::jv_view(items@[k]) == enc_tx(y) && tx_shape_ok(y))
                    ==> out@[k]@ == y,
        decreases n - i,
    {
        match Transaction::from_json(&items[i]) {
            Ok(t) => {
                out.push(t);
            },
            Err(e) => {
                proof {
                    assert(forall|y: TxView|
                        !(crate::json::jv_view(items@[i as int]) == enc_tx(y) && tx_shape_ok(y)));
                }
                return Err(e);
            },
        }
        i = i + 1;
    }
    Ok(out)
}

/// Decode a run of minter documents; what each canonical item encodes
/// is what comes back at its position.
fn decode_minter_array(items: &Vec<JsonValue>) -> (r: Result<Vec<BlockMinter>, JsonError>)
    ensures
        r matches Ok(ms) ==> ms@.len() == items@.len() && (forall|k: int, y: MinterView|
            #![trigger ms@[k], enc_minter(y)]
            (0 <= k < items@.len() && crate::json::jv_view(items@[k]) == enc_minter(y)
                && minter_shape_ok(y)) ==> ms@[k]@ == y),
        r is Err ==> (exists|k: int|
            0 <= k < items@.len() && (forall|y: MinterView|
                !(crate::json::jv_view(#[trigger] items@[k]) == enc_minter(y) && minter_shape_ok(
                    y,
                )))),
{
    let mut out: Vec<BlockMinter> = Vec::new();
    let n = items.len();
    let mut i: usize = 0;
    while i < n
        invariant
            n == items@.len(),
            i <= n,
            out@.len() == i,
            forall|k: int, y: MinterView|
                #![trigger out@[k], enc_minter(y)]
                (0 <= k < i && crate::json::jv_view(items@[k]) == enc_minter(y) && minter_shape_ok(
                    y,
                )) ==> out@[k]@ == y,
        decreases n - i,
    {
        match BlockMinter::from_json(&items[i]) {
            Ok(m) => {
                out.push(m);
            },
            Err(e) => {
                proof {
                    assert(forall|y: MinterView|
                        !(crate::json::jv_view(items@[i as int]) == enc_minter(y)
                            && minter_shape_ok(y)));
                }
                return Err(e);
            },
        }
        i = i + 1;
    }
    Ok(out)
}

impl Block {
    /// The block whose document this is: a canonical document decodes
    /// to the block it was written from.
    pub fn from_json(j: &JsonValue) -> (r: Result<Block, JsonError>)
        ensures
            forall|x: BlockView|
                (j@ == enc_block(x) && block_shape_ok(x)) ==> (r matches Ok(b) && b@ == x),
            r is Ok ==> jval_get(j@, "format"@) == Some(JVal::Num(1)),
            forall|v: u64|
                (jval_get(j@, "format"@) == Some(JVal::Num(v)) && v != 1) ==> r == Err::<
                    Block,
                    JsonError,
                >(JsonError::InvalidStandard(v)),

    {
        let format_num = match read_u64_field(j, "format") {
            Ok(n) => n,
            Err(e) => {
                proof {
                    assert forall|x: BlockView| !(j@ == enc_block(x) && block_shape_ok(x)) by {
                        if j@ == enc_block(x) {
                            lemma_enc_block_fields(x);
                        }
                    }
                }
                return Err(e);
            },
        };
        if format_num != 1 {
            proof {
                assert forall|x: BlockView| !(j@ == enc_block(x) && block_shape_ok(x)) by {
                    if j@ == enc_block(x) {
                        lemma_enc_block_fields(x);
                    }
                }
            }
            return Err(JsonError::InvalidStandard(format_num));
        }
        let inner = match j.get("block") {
            Some(v) => v,
            None => {
                proof {
                    assert forall|x: BlockView| !(j@ == enc_block(x) && block_shape_ok(x)) by {
                        if j@ == enc_block(x) {
                            lemma_enc_block_fields(x);
                        }
                    }
                }
                return Err(JsonError::MissingField);
            },
        };
        let prev_v = match inner.get("previous") {
            Some(v) => v,
            None => {
                proof {
                    assert forall|x: BlockView| !(j@ == enc_block(x) && block_shape_ok(x)) by {
                        if j@ == enc_block(x) {
                            lemma_enc_block_fields(x);
                        }
                    }
                }
                return Err(JsonError::MissingField);
            },
        };
        let previous_block: Option<crate::hash::Hash> = if prev_v.is_null() {
            None
        } else {
            let s = match prev_v.as_str() {
                Some(s) => s,
                None => {
                    proof {
                        assert forall|x: BlockView| !(j@ == enc_block(x) && block_shape_ok(x)) by {
                            if j@ == enc_block(x) {
                                lemma_enc_block_fields(x);
                            }
                        }
                    }
                    return Err(JsonError::InvalidField);
                },
            };
            match crate::hash::Hash::from_base64(s) {
                Ok(h) => Some(h),
                Err(_) => {
                    proof {
                        assert forall|x: BlockView| !(j@ == enc_block(x) && block_shape_ok(x)) by {
                            if j@ == enc_block(x) {
                                lemma_enc_block_fields(x);
                            }
                        }
                    }
                    return Err(JsonError::InvalidField);
                },
            }
        };
        let hash = match read_hash_field(inner, "current") {
            Ok(h) => h,
            Err(e) => {
                proof {
                    assert forall|x: BlockView| !(j@ == enc_block(x) && block_shape_ok(x)) by {
                        if j@ == enc_block(x) {
                            lemma_enc_block_fields(x);
                        }
                    }
                }
                return Err(e);
            },
        };
        let number = match read_u64_field(inner, "number") {
            Ok(n) => n,
            Err(e) => {
                proof {
                    assert forall|x: BlockView| !(j@ == enc_block(x) && block_shape_ok(x)) by {
                        if j@ == enc_block(x) {
                            lemma_enc_block_fields(x);
                        }
                    }
                }
                return Err(e);
            },
        };
        let meta = match inner.get("metadata") {
            Some(v) => v,
            None => {
                proof {
                    assert forall|x: BlockView| !(j@ == enc_block(x) && block_shape_ok(x)) by {
                        if j@ == enc_block(x) {
                            lemma_enc_block_fields(x);
                        }
                    }
                }
                return Err(JsonError::MissingField);
            },
        };
        let random_seed = match read_u64_field(meta, "random_seed") {
            Ok(n) => n,
            Err(e) => {
                proof {
                    assert forall|x: BlockView| !(j@ == enc_block(x) && block_shape_ok(x)) by {
                        if j@ == enc_block(x) {
                            lemma_enc_block_fields(x);
                        }
                    }
                }
                return Err(e);
            },
        };
        let created_at = match read_u64_field(meta, "created_at") {
            Ok(n) => n,
            Err(e) => {
                proof {
                    assert forall|x: BlockView| !(j@ == enc_block(x) && block_shape_ok(x)) by {
                        if j@ == enc_block(x) {
                            lemma_enc_block_fields(x);
                        }
                    }
                }
                return Err(e);
            },
        };
        let content = match inner.get("content") {
            Some(v) => v,
            None => {
                proof {
                    assert forall|x: BlockView| !(j@ == enc_block(x) && block_shape_ok(x)) by {
                        if j@ == enc_block(x) {
                            lemma_enc_block_fields(x);
                        }
                    }
                }
                return Err(JsonError::MissingField);
            },
        };
        let txs_v = match content.get("transactions") {
            Some(v) => v,
            None => {
                proof {
                    assert forall|x: BlockView| !(j@ == enc_block(x) && block_shape_ok(x)) by {
                        if j@ == enc_block(x) {
                            lemma_enc_block_fields(x);
                        }
                    }
                }
                return Err(JsonError::MissingField);
            },
        };
        let tx_items = match txs_v.as_array() {
            Some(v) => v,
            None => {
                proof {
                    assert forall|x: BlockView| !(j@ == enc_block(x) && block_shape_ok(x)) by {
                        if j@ == enc_block(x) {
                            lemma_enc_block_fields(x);
                        }
                    }
                }
                return Err(JsonError::InvalidField);
            },
        };
        let transactions = match decode_tx_array(tx_items) {
            Ok(ts) => ts,
            Err(e) => {
                proof {
                    assert forall|x: BlockView| !(j@ == enc_block(x) && block_shape_ok(x)) by {
                        if j@ == enc_block(x) && block_shape_ok(x) {
                            lemma_enc_block_fields(x);
                            let bad_k = choose|k: int|
                                0 <= k < tx_items@.len() && (forall|y: TxView|
                                    !(crate::json::jv_view(#[trigger] tx_items@[k]) == enc_tx(y)
                                        && tx_shape_ok(y)));
                            crate::json::lemma_jv_views_len(tx_items@);
                            crate::json::lemma_jv_views_index(tx_items@, bad_k);
                        }
                    }
                }
                return Err(e);
            },
        };
        let ms_v = match content.get("minters") {
            Some(v) => v,
            None => {
                proof {
                    assert forall|x: BlockView| !(j@ == enc_block(x) && block_shape_ok(x)) by {
                        if j@ == enc_block(x) {
                            lemma_enc_block_fields(x);
                        }
                    }
                }
                return Err(JsonError::MissingField);
            },
        };
        let ms_items = match ms_v.as_array() {
            Some(v) => v,
            None => {
                proof {
                    assert forall|x: BlockView| !(j@ == enc_block(x) && block_shape_ok(x)) by {
                        if j@ == enc_block(x) {
                            lemma_enc_block_fields(x);
                        }
                    }
                }
                return Err(JsonError::InvalidField);
            },
        };
        let minters = match decode_minter_array(ms_items) {
            Ok(ms) => ms,
            Err(e) => {
                proof {
                    assert forall|x: BlockView| !(j@ == enc_block(x) && block_shape_ok(x)) by {
                        if j@ == enc_block(x) && block_shape_ok(x) {
                            lemma_enc_block_fields(x);
                            let bad_k = choose|k: int|
                                0 <= k < ms_items@.len() && (forall|y: MinterView|
                                    !(crate::json::jv_view(#[trigger] ms_items@[k]) == enc_minter(
                                        y,
                                    ) && minter_shape_ok(y)));
                            crate::json::lemma_jv_views_len(ms_items@);
                            crate::json::lemma_jv_views_index(ms_items@, bad_k);
                        }
                    }
                }
                return Err(e);
            },
        };
        let validator = match read_key_field(content, "validator") {
            Ok(k) => k,
            Err(e) => {
                proof {
                    assert forall|x: BlockView| !(j@ == enc_block(x) && block_shape_ok(x)) by {
                        if j@ == enc_block(x) {
                            lemma_enc_block_fields(x);
                        }
                    }
                }
                return Err(e);
            },
        };
        let sign = match read_bytes_field(content, "sign") {
            Ok(s) => s,
            Err(e) => {
                proof {
                    assert forall|x: BlockView| !(j@ == enc_block(x) && block_shape_ok(x)) by {
                        if j@ == enc_block(x) {
                            lemma_enc_block_fields(x);
                        }
                    }
                }
                return Err(e);
            },
        };
        let b = Block::assemble(
            previous_block,
            hash,
            number,
            random_seed,
            created_at,
            transactions,
            minters,
            validator,
            sign,
        );
        proof {
            assert forall|x: BlockView| (j@ == enc_block(x) && block_shape_ok(x)) implies (
            b@ == x) by {
                lemma_enc_block_fields(x);
                crate::json::lemma_jv_views_len(tx_items@);
                crate::json::lemma_jv_views_len(ms_items@);
                assert forall|k: int| 0 <= k < x.transactions.len() implies b@.transactions[k]
                    == x.transactions[k] by {
                    crate::json::lemma_jv_views_index(tx_items@, k);
                };
                assert forall|k: int| 0 <= k < x.minters.len() implies b@.minters[k]
                    == x.minters[k] by {
                    crate::json::lemma_jv_views_index(ms_items@, k);
                };
                assert(b@.transactions =~= x.transactions);
                assert(b@.minters =~= x.minters);
                assert(b@ =~= x);
            }
        }
        Ok(b)
    }
}


} // verus!
