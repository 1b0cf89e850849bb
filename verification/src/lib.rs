//! Streaming CBC encryption and decryption adapters.
//!
//! `AesWriter` turns a byte sink into an encrypting sink: plaintext written to
//! it is fed through an AES-128 CBC engine with PKCS block padding, and whole
//! ciphertext blocks are appended to the sink as they become available.
//! `AesReader` turns a ciphertext source into a decrypting source: it reads
//! ciphertext speculatively, only strips the final padding once the true end
//! of the stream has been observed, and supports random-access seeking by
//! resetting the chaining value to the preceding ciphertext block.
//!
//! The block cipher itself is an external primitive; its behaviour is named
//! but not interpreted.  Everything layered on top of it - the CBC chaining
//! equations, the padding rules, the streaming state machines and the seek
//! logic - is specified and verified here.

pub mod errors;
pub mod model;
pub mod engine;
pub mod writer;
pub mod reader;

pub use errors::Error;
pub use writer::AesWriter;
pub use reader::AesReader;
pub use reader::SeekFrom;
