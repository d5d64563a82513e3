//! 256-bit content digests.

use vstd::prelude::*;

use crate::crypto::{b64_of, base64_decode, base64_encode, blake3_of, hash_bytes};

verus! {

/// Why a textual hash failed to parse.
#[derive(Debug, Clone, Copy, PartialEq, Eq, Structural)]
pub enum HashError {
    /// The text is not canonical base64.
    Base64Decode,
    /// The text decodes to `found` bytes instead of 32.
    InvalidHashLength { found: usize },
}

/// A 256-bit content digest, stored as its 32 raw bytes.
#[derive(Debug, Clone, Copy)]
pub struct Hash {
    bytes: [u8; 32],
}

impl View for Hash {
    type V = Seq<u8>;

    closed spec fn view(&self) -> Seq<u8> {
        self.bytes@
    }
}

/// A digest is always exactly 32 bytes.
pub broadcast proof fn lemma_hash_len(h: Hash)
    ensures
        #[trigger] h@.len() == 32,
{
}

/// Constant-time comparison of two byte strings: the work done does not
/// depend on where they first differ.
pub fn cmp_slices(a: &[u8], b: &[u8]) -> (r: bool)
    ensures
        r == (a@ == b@),
{
    if a.len() != b.len() {
        proof {
            assert(a@.len() != b@.len());
        }
        return false;
    }
    let n = a.len();
    let mut x: u8 = 0;
    let mut i: usize = 0;
    proof {
        assert(a@.subrange(0, 0) =~= b@.subrange(0, 0));
    }
    while i < n
        invariant
            n == a@.len(),
            n == b@.len(),
            i <= n,
            (x == 0) <==> (a@.subrange(0, i as int) == b@.subrange(0, i as int)),
        decreases n - i,
    {
        let d: u8 = a[i] ^ b[i];
        let x2: u8 = x | d;
        proof {
            let ai = a@[i as int];
            let bi = b@[i as int];
            assert((x2 == 0) <==> (x == 0 && ai == bi)) by (bit_vector)
                requires
                    d == ai ^ bi && x2 == x | d,
            ;
            assert(a@.subrange(0, i + 1) =~= a@.subrange(0, i as int).push(ai));
            assert(b@.subrange(0, i + 1) =~= b@.subrange(0, i as int).push(bi));
            if x == 0 && ai == bi {
                assert(a@.subrange(0, i + 1) =~= b@.subrange(0, i + 1));
            }
            if a@.subrange(0, i + 1) == b@.subrange(0, i + 1) {
                assert(a@.subrange(0, i as int) =~= a@.subrange(0, i + 1).subrange(0, i as int));
                assert(b@.subrange(0, i as int) =~= b@.subrange(0, i + 1).subrange(0, i as int));
                assert(ai == a@.subrange(0, i + 1)[i as int]);
            }
        }
        x = x2;
        i = i + 1;
    }
    proof {
        assert(a@.subrange(0, n as int) =~= a@);
        assert(b@.subrange(0, n as int) =~= b@);
    }
    x == 0
}

impl Hash {
    /// The bytes of the digest.
    pub fn as_bytes(&self) -> (r: [u8; 32])
        ensures
            r@ == self@,
    {
        self.bytes
    }

    /// The digest with exactly these bytes.
    pub fn from_bytes(bytes: [u8; 32]) -> (r: Hash)
        ensures
            r@ == bytes@,
    {
        Hash { bytes }
    }

    /// The all-zero digest: the least value in byte order.
    pub fn min_value() -> (r: Hash)
        ensures
            r@ == Seq::new(32, |i: int| 0u8),
    {
        let r = Hash { bytes: [0; 32] };
        proof {
            assert(r@ =~= Seq::new(32, |i: int| 0u8));
        }
        r
    }

    /// The all-ones digest: the greatest value in byte order.
    pub fn max_value() -> (r: Hash)
        ensures
            r@ == Seq::new(32, |i: int| 255u8),
    {
        let r = Hash { bytes: [255; 32] };
        proof {
            assert(r@ =~= Seq::new(32, |i: int| 255u8));
        }
        r
    }

    /// The digest of a byte string.
    pub fn hash_slice(slice: &[u8]) -> (r: Hash)
        ensures
            r@ == blake3_of(slice@),
    {
        let digest = hash_bytes(slice);
        let mut bytes: [u8; 32] = [0; 32];
        let mut i: usize = 0;
        while i < 32
            invariant
                i <= 32,
                digest@ == blake3_of(slice@),
                digest@.len() == 32,
                bytes@.len() == 32,
                forall|j: int| 0 <= j < i ==> bytes@[j] == digest@[j],
            decreases 32 - i,
        {
            bytes[i] = digest[i];
            i = i + 1;
        }
        let r = Hash { bytes };
        proof {
            assert(r@ =~= digest@);
        }
        r
    }

    /// The canonical base64 text of the digest.
    pub fn to_base64(&self) -> (r: String)
        ensures
            r@ == b64_of(self@),
    {
        base64_encode(self.bytes.as_slice())
    }

    /// The digest whose base64 text this is: accepts exactly the
    /// canonical base64 form of 32 bytes, and says which check failed.
    pub fn from_base64(text: &str) -> (r: Result<Hash, HashError>)
        ensures
            r matches Ok(h) ==> text@ == b64_of(h@),
            forall|bytes: Seq<u8>|
                (text@ == b64_of(bytes) && bytes.len() == 32) ==> (r matches Ok(h) && h@ == bytes),
            r == Err::<Hash, HashError>(HashError::Base64Decode) <==> (forall|bytes: Seq<u8>|
                text@ != b64_of(bytes)),
            forall|bytes: Seq<u8>|
                (text@ == b64_of(bytes) && bytes.len() != 32) ==> (r matches Err(e) && e matches
                    HashError::InvalidHashLength { found } && found == bytes.len()),
    {
        match base64_decode(text) {
            Some(decoded) => {
                if decoded.len() == 32 {
                    let mut bytes: [u8; 32] = [0; 32];
                    let mut i: usize = 0;
                    while i < 32
                        invariant
                            i <= 32,
                            decoded@.len() == 32,
                            bytes@.len() == 32,
                            forall|j: int| 0 <= j < i ==> bytes@[j] == decoded@[j],
                        decreases 32 - i,
                    {
                        bytes[i] = decoded[i];
                        i = i + 1;
                    }
                    let h = Hash { bytes };
                    proof {
                        assert(h@ =~= decoded@);
                    }
                    Ok(h)
                } else {
                    Err(HashError::InvalidHashLength { found: decoded.len() })
                }
            },
            None => Err(HashError::Base64Decode),
        }
    }
}

impl PartialEq for Hash {
    fn eq(&self, other: &Hash) -> (r: bool) {
        cmp_slices(self.bytes.as_slice(), other.bytes.as_slice())
    }
}

impl Eq for Hash {

}

impl vstd::std_specs::cmp::PartialEqSpecImpl for Hash {
    open spec fn obeys_eq_spec() -> bool {
        true
    }

    open spec fn eq_spec(&self, other: &Hash) -> bool {
        self@ == other@
    }
}

} // verus!
