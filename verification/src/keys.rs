//! Signing identities: public and secret keys, held as their bytes.

use vstd::prelude::*;

use crate::crypto::{
    b64_of, base64_decode, base64_encode, derive_public, key_bytes_valid, pk_bytes_ok, pk_of,
    sig_valid, sign_message, verify_signature, CryptoError,
};
use crate::hash::cmp_slices;

verus! {

/// Why a textual public key failed to parse.
#[derive(Debug, Clone, Copy, PartialEq, Eq, Structural)]
pub enum KeyError {
    /// The text is not canonical base64.
    Base64Decode,
    /// The decoded bytes are no verifying key.
    InvalidKeyBytes,
}

/// A verifying key, held as its 32-byte encoding.
#[derive(Debug)]
pub struct PublicKey {
    bytes: Vec<u8>,
}

/// A signing key: any 32 bytes name one.
#[derive(Debug, Clone, Copy)]
pub struct SecretKey {
    bytes: [u8; 32],
}

impl View for PublicKey {
    type V = Seq<u8>;

    closed spec fn view(&self) -> Seq<u8> {
        self.bytes@
    }
}

impl View for SecretKey {
    type V = Seq<u8>;

    closed spec fn view(&self) -> Seq<u8> {
        self.bytes@
    }
}

impl PublicKey {
    /// A well-formed key decodes to a curve point.
    pub open spec fn wf(&self) -> bool {
        pk_bytes_ok(self@)
    }

    /// The key with exactly these bytes; whether they name a curve
    /// point is checked only when a signature is verified.
    pub fn from_bytes(bytes: Vec<u8>) -> (r: PublicKey)
        ensures
            r@ == bytes@,
    {
        PublicKey { bytes }
    }

    /// The bytes of the key, borrowed.
    pub fn as_slice(&self) -> (r: &[u8])
        ensures
            r@ == self@,
    {
        self.bytes.as_slice()
    }

    /// The bytes of the key.
    pub fn to_bytes(&self) -> (r: Vec<u8>)
        ensures
            r@ == self@,
    {
        self.bytes.clone()
    }

    /// The canonical base64 text of the key bytes.
    pub fn to_base64(&self) -> (r: String)
        ensures
            r@ == b64_of(self@),
    {
        base64_encode(self.bytes.as_slice())
    }

    /// The key whose base64 text this is: accepts exactly the
    /// canonical base64 form of a verifying key.
    pub fn from_base64(text: &str) -> (r: Result<PublicKey, KeyError>)
        ensures
            r matches Ok(k) ==> text@ == b64_of(k@) && k.wf(),
            forall|bytes: Seq<u8>|
                (text@ == b64_of(bytes) && pk_bytes_ok(bytes)) ==> (r matches Ok(k) && k@ == bytes),
    {
        match base64_decode(text) {
            Some(decoded) => {
                if key_bytes_valid(decoded.as_slice()) {
                    Ok(PublicKey { bytes: decoded })
                } else {
                    Err(KeyError::InvalidKeyBytes)
                }
            },
            None => Err(KeyError::Base64Decode),
        }
    }

    /// Whether this key accepts `sign` over `message`; an error when
    /// the key bytes decode to no curve point.
    pub fn verify_signature(&self, message: &[u8], sign: &[u8]) -> (r: Result<bool, CryptoError>)
        ensures
            r matches Ok(b) ==> b == sig_valid(self@, message@, sign@),
            r is Err <==> !self.wf(),
    {
        verify_signature(self.bytes.as_slice(), message, sign)
    }
}

impl SecretKey {
    /// The signing key with exactly these bytes.
    pub fn from_bytes(bytes: [u8; 32]) -> (r: SecretKey)
        ensures
            r@ == bytes@,
    {
        SecretKey { bytes }
    }

    /// The bytes of the signing key.
    pub fn to_bytes(&self) -> (r: [u8; 32])
        ensures
            r@ == self@,
    {
        self.bytes
    }

    /// The verifying key of this signing key.
    pub fn public_key(&self) -> (r: PublicKey)
        ensures
            r@ == pk_of(self@),
            r.wf(),
    {
        PublicKey { bytes: derive_public(&self.bytes) }
    }

    /// A signature over `message` that `self.public_key()` accepts.
    pub fn create_signature(&self, message: &[u8]) -> (r: Vec<u8>)
        ensures
            r@.len() == 64,
            sig_valid(pk_of(self@), message@, r@),
    {
        sign_message(&self.bytes, message)
    }
}

impl Clone for PublicKey {
    /// An identical key.
    fn clone(&self) -> (res: Self)
        ensures
            res@ == self@,
    {
        PublicKey { bytes: crate::bytes::clone_bytes(&self.bytes) }
    }
}

impl PartialEq for PublicKey {
    fn eq(&self, other: &PublicKey) -> (r: bool) {
        cmp_slices(self.bytes.as_slice(), other.bytes.as_slice())
    }
}

impl Eq for PublicKey {

}

impl vstd::std_specs::cmp::PartialEqSpecImpl for PublicKey {
    open spec fn obeys_eq_spec() -> bool {
        true
    }

    open spec fn eq_spec(&self, other: &PublicKey) -> bool {
        self@ == other@
    }
}

} // verus!
