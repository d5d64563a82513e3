//! Content encodings named on the wire.
//!
//! A message or announcement body says how its content bytes were
//! prepared before being placed in the text field.  The library only
//! carries and compares the name; applying an encoding beyond plain
//! base64 is the transport's business, outside the verified core.

use vstd::prelude::*;
use vstd::string::StringExecFns;

verus! {

/// How a body's content text encodes its bytes.
#[derive(Debug, Clone, Copy, PartialEq, Eq, Structural)]
pub enum MessageEncoding {
    /// Plain base64 text.
    Base64,
    /// Deflate-compressed bytes in base64 text.
    Base64Deflate,
    /// Brotli-compressed bytes in base64 text.
    Base64Brotli,
}

/// How strongly a compressing encoding compresses.
#[derive(Debug, Clone, Copy, PartialEq, Eq, Structural)]
pub enum CompressionLevel {
    Fast,
    Balanced,
    Quality,
}

/// The canonical name of an encoding.
pub open spec fn encoding_str(e: MessageEncoding) -> Seq<char> {
    match e {
        MessageEncoding::Base64 => "base64"@,
        MessageEncoding::Base64Deflate => "base64/deflate"@,
        MessageEncoding::Base64Brotli => "base64/brotli"@,
    }
}

impl MessageEncoding {
    /// The canonical name of this encoding.
    pub fn as_str(&self) -> (r: &'static str)
        ensures
            r@ == encoding_str(*self),
    {
        match self {
            MessageEncoding::Base64 => "base64",
            MessageEncoding::Base64Deflate => "base64/deflate",
            MessageEncoding::Base64Brotli => "base64/brotli",
        }
    }

    /// The canonical name as owned text.
    pub fn to_string_value(&self) -> (r: String)
        ensures
            r@ == encoding_str(*self),
    {
        String::from_str(self.as_str())
    }

    /// The encoding of this name: exactly the canonical names parse.
    pub fn from_str(text: &str) -> (r: Option<MessageEncoding>)
        ensures
            match r {
                Some(e) => text@ == encoding_str(e),
                None => forall|e: MessageEncoding| text@ != encoding_str(e),
            },
    {
        if crate::json::str_eq(text, "base64") {
            Some(MessageEncoding::Base64)
        } else if crate::json::str_eq(text, "base64/deflate") {
            Some(MessageEncoding::Base64Deflate)
        } else if crate::json::str_eq(text, "base64/brotli") {
            Some(MessageEncoding::Base64Brotli)
        } else {
            proof {
                assert(forall|e: MessageEncoding| text@ != encoding_str(e)) by {
                    assert(encoding_str(MessageEncoding::Base64) == "base64"@);
                }
            }
            None
        }
    }
}

/// Parsing a canonical name gives the encoding back.
pub proof fn lemma_encoding_name_roundtrip(a: MessageEncoding, b: MessageEncoding)
    requires
        encoding_str(a) == encoding_str(b),
    ensures
        a == b,
{
    reveal_strlit("base64");
    reveal_strlit("base64/deflate");
    reveal_strlit("base64/brotli");
    assert("base64"@.len() == 6);
    assert("base64/deflate"@.len() == 14);
    assert("base64/brotli"@.len() == 13);
}

} // verus!
