use hyperchain::hash::{cmp_slices, HashError};
use hyperchain::keys::{PublicKey, SecretKey};

#[test]
fn digest_differs_from_input() {
    let a = hyperchain::hash::Hash::hash_slice(b"abc");
    let b = hyperchain::hash::Hash::hash_slice(b"abd");
    assert_ne!(a, b);
    assert_ne!(a.as_bytes().to_vec(), b"abc".to_vec());
    assert_eq!(a, hyperchain::hash::Hash::hash_slice(b"abc"));
}

#[test]
fn hash_base64_roundtrip() {
    let h = hyperchain::hash::Hash::hash_slice(b"roundtrip");
    let text = h.to_base64();
    assert_eq!(hyperchain::hash::Hash::from_base64(&text), Ok(h));
}

#[test]
fn zero_hash_base64_form() {
    let text = hyperchain::hash::Hash::min_value().to_base64();
    assert_eq!(text, "AAAAAAAAAAAAAAAAAAAAAAAAAAAAAAAAAAAAAAAAAAA=");
}

#[test]
fn hash_parse_errors() {
    assert_eq!(hyperchain::hash::Hash::from_base64("!!!"), Err(HashError::Base64Decode));
    assert_eq!(
        hyperchain::hash::Hash::from_base64("AAAA"),
        Err(HashError::InvalidHashLength { found: 3 })
    );
}

#[test]
fn constant_time_compare() {
    assert!(cmp_slices(b"same", b"same"));
    assert!(!cmp_slices(b"same", b"sama"));
    assert!(!cmp_slices(b"same", b"sam"));
}

#[test]
fn signatures_verify_and_bind() {
    let secret = SecretKey::from_bytes([42u8; 32]);
    let public = secret.public_key();
    let sign = secret.create_signature(b"message");

    assert_eq!(public.verify_signature(b"message", &sign), Ok(true));
    assert_eq!(public.verify_signature(b"other message", &sign), Ok(false));

    let mut tampered = sign.clone();
    tampered[0] = tampered[0].wrapping_add(1);
    assert_eq!(public.verify_signature(b"message", &tampered), Ok(false));
}

#[test]
fn key_base64_roundtrip() {
    let secret = SecretKey::from_bytes([9u8; 32]);
    let public = secret.public_key();
    let text = public.to_base64();
    assert_eq!(PublicKey::from_base64(&text).unwrap(), public);
}

#[test]
fn bad_key_bytes_fail_verification() {
    let bogus = PublicKey::from_bytes(vec![1, 2, 3]);
    assert!(bogus.verify_signature(b"m", &[0u8; 64]).is_err());
}
