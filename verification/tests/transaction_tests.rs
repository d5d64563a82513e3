use hyperchain::encoding::MessageEncoding;
use hyperchain::json::{JsonError, JsonValue};
use hyperchain::keys::SecretKey;
use hyperchain::transaction::{
    Transaction, TransactionBody, TransactionBuilder, TransactionValidationResult,
};

fn secret(tag: u8) -> SecretKey {
    let mut bytes = [0u8; 32];
    bytes[0] = tag;
    bytes[31] = tag.wrapping_add(1);
    SecretKey::from_bytes(bytes)
}

fn message_body(tag: u8) -> TransactionBody {
    let s = secret(tag);
    TransactionBody::Message {
        from: s.public_key(),
        to: secret(tag.wrapping_add(7)).public_key(),
        format: MessageEncoding::Base64,
        content: String::from("SGVsbG8sIFdvcmxkIQ=="),
    }
}

fn announcement_body(tag: u8) -> TransactionBody {
    let s = secret(tag);
    TransactionBody::Announcement {
        from: s.public_key(),
        format: MessageEncoding::Base64,
        content: String::from("SGVsbG8sIFdvcmxkIQ=="),
    }
}

fn get_message() -> (Transaction, SecretKey) {
    let s = secret(3);
    let t = TransactionBuilder::new().with_body(message_body(4)).sign(&s).unwrap();
    (t, s)
}

fn get_announcement() -> (Transaction, SecretKey) {
    let s = secret(5);
    let t = TransactionBuilder::new().with_body(announcement_body(6)).sign(&s).unwrap();
    (t, s)
}

#[test]
fn mod_validate() {
    let transactions = [get_message(), get_announcement()];
    for (transaction, author) in transactions {
        assert_eq!(*transaction.author(), author.public_key());
        assert!(transaction.validate().unwrap().is_valid());
    }
}

#[test]
fn serialize() {
    let transactions = [get_message().0, get_announcement().0];
    for transaction in transactions {
        assert_eq!(
            Transaction::from_json(&transaction.to_json()).unwrap(),
            transaction
        );
    }
}

#[test]
fn transaction_body_serialize() {
    let bodies = [
        TransactionBody::Raw(b"Hello, World!".to_vec()),
        message_body(8),
        announcement_body(9),
    ];
    for body in bodies {
        assert_eq!(TransactionBody::from_json(&body.to_json()).unwrap(), body);
    }
}

/// Walk a JSON object path and run `edit` on the value found there.
fn edit_json(j: &mut JsonValue, path: &[&str], edit: &dyn Fn(&mut JsonValue)) {
    if path.is_empty() {
        edit(j);
        return;
    }
    if let JsonValue::Obj(fields) = j {
        for (key, value) in fields.iter_mut() {
            if key == path[0] {
                edit_json(value, &path[1..], edit);
                return;
            }
        }
    }
    panic!("path not found");
}

#[test]
fn hash_binding() {
    let (transaction, _) = get_message();
    let mut doc = transaction.to_json();
    edit_json(&mut doc, &["transaction", "metadata", "random_seed"], &|v| {
        if let JsonValue::Num(n) = v {
            *v = JsonValue::Num(n.wrapping_add(1));
        } else {
            panic!("expected a number");
        }
    });
    let mutated = Transaction::from_json(&doc).unwrap();
    let verdict = mutated.validate_at(mutated.created_at()).unwrap();
    assert!(matches!(
        verdict,
        TransactionValidationResult::InvalidHash { .. }
    ));
}

#[test]
fn sign_binding() {
    let (transaction, _) = get_message();
    let mut doc = transaction.to_json();
    let other_sign =
        <base64::engine::GeneralPurpose as base64::Engine>::encode(
            &base64::engine::general_purpose::STANDARD,
            [1u8; 64],
        );
    edit_json(&mut doc, &["transaction", "content", "sign"], &|v| {
        *v = JsonValue::Str(other_sign.clone());
    });
    let mutated = Transaction::from_json(&doc).unwrap();
    let verdict = mutated.validate_at(mutated.created_at()).unwrap();
    assert!(matches!(
        verdict,
        TransactionValidationResult::InvalidSign { .. }
    ));
}

#[test]
fn unknown_format_version() {
    let (transaction, _) = get_message();
    let mut doc = transaction.to_json();
    edit_json(&mut doc, &["format"], &|v| {
        *v = JsonValue::Num(2);
    });
    assert_eq!(
        Transaction::from_json(&doc),
        Err(JsonError::InvalidStandard(2))
    );
}

#[test]
fn missing_field_refused() {
    let doc = JsonValue::Obj(vec![(String::from("format"), JsonValue::Num(1))]);
    assert_eq!(Transaction::from_json(&doc), Err(JsonError::MissingField));
}

#[test]
fn builder_without_body() {
    let s = secret(10);
    assert!(TransactionBuilder::new().sign(&s).is_none());
}
