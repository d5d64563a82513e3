//! Digests, base64 text, signatures, entropy and the clock.
//!
//! Every function here wraps one call into an outside crate (or std) and
//! states what that call returns; the rest of the library is verified
//! against these statements.

use vstd::prelude::*;

verus! {

/// The BLAKE3 digest of a byte string.
pub uninterp spec fn blake3_of(bytes: Seq<u8>) -> Seq<u8>;

/// The standard base64 text of a byte string.
pub uninterp spec fn b64_of(bytes: Seq<u8>) -> Seq<char>;

/// Whether a byte string is an encoded Ed25519 verifying key.
pub uninterp spec fn pk_bytes_ok(bytes: Seq<u8>) -> bool;

/// The Ed25519 verifying key derived from a 32-byte secret key.
pub uninterp spec fn pk_of(secret: Seq<u8>) -> Seq<u8>;

/// Whether an Ed25519 verifying key accepts a signature over a message.
pub uninterp spec fn sig_valid(pk: Seq<u8>, msg: Seq<u8>, sig: Seq<u8>) -> bool;

/// Failure of a signature check before any signature was examined.
#[derive(Debug, Clone, Copy, PartialEq, Eq, Structural)]
pub enum CryptoError {
    /// The verifying key bytes do not decode to a key.
    InvalidPublicKey,
}

/// Relies on blake3::hash: a 32-byte digest of the input alone.
#[verifier::external_body]
pub(crate) fn hash_bytes(bytes: &[u8]) -> (r: Vec<u8>)
    ensures
        r@ == blake3_of(bytes@),
        r@.len() == 32,
{
    blake3::hash(bytes).as_bytes().to_vec()
}

/// Relies on base64's standard engine: canonical RFC 4648 text of the
/// input alone.
#[verifier::external_body]
pub(crate) fn base64_encode(bytes: &[u8]) -> (r: String)
    ensures
        r@ == b64_of(bytes@),
{
    <base64::engine::GeneralPurpose as base64::Engine>::encode(
        &base64::engine::general_purpose::STANDARD,
        bytes,
    )
}

/// Relies on base64's standard engine: it accepts canonically padded
/// text without trailing bits, exactly the encoder's output, and the
/// encoding is injective since decoding inverts it.
#[verifier::external_body]
pub(crate) fn base64_decode(text: &str) -> (r: Option<Vec<u8>>)
    ensures
        r matches Some(d) ==> text@ == b64_of(d@) && (forall|bytes: Seq<u8>|
            b64_of(bytes) == text@ ==> bytes == d@),
        (exists|bytes: Seq<u8>| text@ == b64_of(bytes)) ==> r is Some,
{
    <base64::engine::GeneralPurpose as base64::Engine>::decode(
        &base64::engine::general_purpose::STANDARD,
        text,
    ).ok()
}

/// Relies on ed25519_dalek::VerifyingKey::from_bytes: 32 bytes decode
/// to a key exactly when they are a curve point encoding.
#[verifier::external_body]
pub(crate) fn key_bytes_valid(pk: &[u8]) -> (r: bool)
    ensures
        r == pk_bytes_ok(pk@),
{
    match <&[u8; 32]>::try_from(pk) {
        Ok(arr) => ed25519_dalek::VerifyingKey::from_bytes(arr).is_ok(),
        Err(_) => false,
    }
}

/// Relies on ed25519_dalek::SigningKey::from_bytes and verifying_key:
/// the verifying key is a function of the secret key and always decodes.
#[verifier::external_body]
pub(crate) fn derive_public(secret: &[u8; 32]) -> (r: Vec<u8>)
    ensures
        r@ == pk_of(secret@),
        r@.len() == 32,
        pk_bytes_ok(r@),
{
    let signing = ed25519_dalek::SigningKey::from_bytes(secret);
    signing.verifying_key().to_bytes().to_vec()
}

/// Relies on ed25519_dalek::Signer::sign: a 64-byte deterministic
/// signature that the derived verifying key accepts (RFC 8032).
#[verifier::external_body]
pub(crate) fn sign_message(secret: &[u8; 32], msg: &[u8]) -> (r: Vec<u8>)
    ensures
        r@.len() == 64,
        sig_valid(pk_of(secret@), msg@, r@),
{
    let signing = ed25519_dalek::SigningKey::from_bytes(secret);
    <ed25519_dalek::SigningKey as ed25519_dalek::Signer<ed25519_dalek::Signature>>::sign(
        &signing,
        msg,
    ).to_bytes().to_vec()
}

/// Relies on ed25519_dalek::VerifyingKey::verify: acceptance is a
/// function of key, message and signature; undecodable key bytes fail
/// before any signature is read, and no slice but a 64-byte one is a
/// signature.
#[verifier::external_body]
pub(crate) fn verify_signature(pk: &[u8], msg: &[u8], sig: &[u8]) -> (r: Result<
    bool,
    CryptoError,
>)
    ensures
        r matches Ok(b) ==> b == sig_valid(pk@, msg@, sig@),
        r is Err <==> !pk_bytes_ok(pk@),
{
    let arr = <&[u8; 32]>::try_from(pk).map_err(|_| CryptoError::InvalidPublicKey)?;
    let key = ed25519_dalek::VerifyingKey::from_bytes(arr).map_err(
        |_| CryptoError::InvalidPublicKey,
    )?;
    match ed25519_dalek::Signature::from_slice(sig) {
        Ok(parsed) => Ok(
            <ed25519_dalek::VerifyingKey as ed25519_dalek::Verifier<
                ed25519_dalek::Signature,
            >>::verify(&key, msg, &parsed).is_ok(),
        ),
        Err(_) => Ok(false),
    }
}

/// Relies on rand::random: some unsigned number; nothing is promised
/// of its value.
#[verifier::external_body]
pub(crate) fn random_u64() -> u64 {
    rand::random::<u64>()
}

/// Relies on std::time::SystemTime::now: the wall clock, read as whole
/// seconds since the Unix epoch; nothing is promised of its value.
#[verifier::external_body]
pub(crate) fn now_seconds() -> u64 {
    match std::time::SystemTime::now().duration_since(std::time::SystemTime::UNIX_EPOCH) {
        Ok(elapsed) => elapsed.as_secs(),
        Err(_) => 0,
    }
}

} // verus!
