//! Error values surfaced by the stream adapters.

use vstd::prelude::*;

verus! {

/// What can go wrong while streaming.
///
/// `Closed` is a logical usage error: a write was issued after the encryptor
/// was finalized.  `UnexpectedEof` means the stream ended before a requested
/// amount of data could be produced (for example, a seek past the end of the
/// ciphertext).  `Codec` is a decryption failure - a truncated stream or
/// corrupted padding - carrying a descriptive cause; such a failure is never
/// retried.
#[derive(Debug)]
pub enum Error {
    Closed,
    UnexpectedEof,
    Codec(String),
}

impl Error {
    /// A short description of the error, for callers that want to report it.
    pub fn message(&self) -> (r: String)
        ensures
            self is Closed ==> r@ == "stream adapter is closed"@,
            self is UnexpectedEof ==> r@ == "unexpected end of stream"@,
    {
        match self {
            Error::Closed => "stream adapter is closed".to_string(),
            Error::UnexpectedEof => "unexpected end of stream".to_string(),
            Error::Codec(cause) => cause.clone(),
        }
    }
}

} // verus!
