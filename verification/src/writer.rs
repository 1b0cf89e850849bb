//! The encrypting stream adapter.

use vstd::prelude::*;
use vstd::arithmetic::div_mod::lemma_add_mod_noop;
use crypto::aessafe::AesSafe128Encryptor;
use crate::engine::{EncEngine, enc_key, enc_iv, enc_fed, enc_emitted, enc_done, aes_enc_key,
    cbc_encryptor_new, cbc_encrypt_step};
use crate::model::{cbc_encrypt, pkcs_pad, aes_cipher_ok};
use crate::errors::Error;

verus! {

/// Wraps a byte sink and encrypts everything written to it under AES-128 in
/// CBC mode with PKCS block padding.  Ciphertext is appended to the sink in
/// whole blocks as it becomes available; `finalize` appends the padding,
/// encrypts the final block(s), and closes the adapter, after which writes
/// are rejected.
///
/// The adapter must be finalized (directly, or through `into_inner`) before
/// the sink is reclaimed, or the stream will be truncated.
pub struct AesWriter {
    sink: Vec<u8>,
    enc: EncEngine,
    closed: bool,
    rem: usize,
    base: Ghost<Seq<u8>>,
    pt: Ghost<Seq<u8>>,
}

impl AesWriter {
    /// The key the cipher was expanded from.
    pub closed spec fn key(self) -> Seq<u8> {
        enc_key(self.enc)
    }

    /// The initialization vector the stream is chained from.
    pub closed spec fn iv(self) -> Seq<u8> {
        enc_iv(self.enc)
    }

    /// All plaintext written so far.
    pub closed spec fn plaintext(self) -> Seq<u8> {
        self.pt@
    }

    /// What the sink held when the adapter was created.
    pub closed spec fn prefix(self) -> Seq<u8> {
        self.base@
    }

    /// Whether the adapter has been finalized.
    pub closed spec fn is_closed(self) -> bool {
        self.closed
    }

    /// The sink as it stands: its original content followed by every
    /// ciphertext byte the engine has emitted.
    pub closed spec fn sink_view(self) -> Seq<u8> {
        self.sink@
    }

    /// The adapter's invariant.
    pub closed spec fn wf(self) -> bool {
        &&& enc_iv(self.enc).len() == 16
        &&& aes_cipher_ok(enc_key(self.enc))
        &&& self.sink@ == self.base@ + enc_emitted(self.enc)
        &&& (!self.closed ==> !enc_done(self.enc) && enc_fed(self.enc) == self.pt@ && self.rem
            == self.pt@.len() % 16)
        &&& (self.closed ==> enc_done(self.enc) && enc_fed(self.enc) == pkcs_pad(self.pt@)
            && enc_emitted(self.enc) == cbc_encrypt(
            enc_key(self.enc),
            enc_iv(self.enc),
            self.pt@,
        ))
    }

    /// Creates an encrypting adapter around `writer` from an already-keyed
    /// block cipher and an initialization vector of one block.
    pub fn new(writer: Vec<u8>, enc: AesSafe128Encryptor, iv: Vec<u8>) -> (w: AesWriter)
        requires
            iv@.len() == 16,
        ensures
            w.wf(),
            aes_cipher_ok(w.key()),
            !w.is_closed(),
            w.key() == aes_enc_key(enc),
            w.iv() == iv@,
            w.plaintext() == Seq::<u8>::empty(),
            w.prefix() == writer@,
            w.sink_view() == writer@,
    {
        let ghost base = writer@;
        let engine = cbc_encryptor_new(enc, &iv);
        let w = AesWriter {
            sink: writer,
            enc: engine,
            closed: false,
            rem: 0,
            base: Ghost(base),
            pt: Ghost(Seq::empty()),
        };
        proof {
            assert(w.sink@ =~= w.base@ + enc_emitted(w.enc));
        }
        w
    }

    /// Encrypts `buf` and appends the resulting ciphertext blocks to the
    /// sink, consuming the whole input; any remainder short of a block stays
    /// buffered in the engine.  Rejected once the adapter is finalized.
    pub fn write(&mut self, buf: &[u8]) -> (r: Result<usize, Error>)
        requires
            old(self).wf(),
            buf@.len() + 64 <= usize::MAX,
        ensures
            final(self).wf(),
            final(self).key() == old(self).key(),
            final(self).iv() == old(self).iv(),
            final(self).prefix() == old(self).prefix(),
            old(self).sink_view().is_prefix_of(final(self).sink_view()),
            old(self).is_closed() ==> (r matches Err(e) && e is Closed) && *final(self) == *old(
                self,
            ),
            !old(self).is_closed() ==> (r matches Ok(n) && n == buf@.len())
                && !final(self).is_closed() && final(self).plaintext() == old(self).plaintext()
                + buf@,
    {
        if self.closed {
            return Err(Error::Closed);
        }
        let cap = buf.len() + 64;
        let (rem, mut produced, _over) = cbc_encrypt_step(&mut self.enc, buf, cap, false);
        proof {
            assert(rem == 0);
            assert(buf@.take(buf@.len() - rem) =~= buf@);
        }
        self.rem = (self.rem + buf.len() % 16) % 16;
        self.pt = Ghost(self.pt@ + buf@);
        self.sink.append(&mut produced);
        proof {
            lemma_add_mod_noop(old(self).pt@.len() as int, buf@.len() as int, 16);
            assert(self.sink@ =~= self.base@ + enc_emitted(self.enc));
            assert(old(self).sink@ =~= self.sink@.subrange(0, old(self).sink@.len() as int));
        }
        Ok(buf.len())
    }

    /// Appends the PKCS padding - between 1 and 16 bytes, each holding the
    /// pad width - encrypts the remainder, flushes it to the sink, and
    /// closes the adapter.  Idempotent: finalizing an already-closed
    /// adapter is a no-op.  After this call the sink holds exactly the CBC
    /// encryption of everything written.
    pub fn finalize(&mut self)
        requires
            old(self).wf(),
        ensures
            final(self).wf(),
            final(self).is_closed(),
            final(self).key() == old(self).key(),
            final(self).iv() == old(self).iv(),
            final(self).prefix() == old(self).prefix(),
            old(self).sink_view().is_prefix_of(final(self).sink_view()),
            final(self).plaintext() == old(self).plaintext(),
            final(self).sink_view() == old(self).prefix() + cbc_encrypt(
                old(self).key(),
                old(self).iv(),
                old(self).plaintext(),
            ),
            old(self).is_closed() ==> *final(self) == *old(self),
    {
        if self.closed {
            return ;
        }
        let pad = 16 - self.rem;
        let mut padding: Vec<u8> = Vec::new();
        let mut i: usize = 0;
        while i < pad
            invariant
                i <= pad <= 16,
                padding@ == Seq::new(i as nat, |j: int| pad as u8),
            decreases pad - i,
        {
            padding.push(pad as u8);
            proof {
                assert(padding@ =~= Seq::new((i + 1) as nat, |j: int| pad as u8));
            }
            i = i + 1;
        }
        proof {
            assert(self.pt@ + padding@ =~= pkcs_pad(self.pt@));
        }
        let (_rem, mut produced, _over) = cbc_encrypt_step(&mut self.enc, padding.as_slice(), 80,
            true);
        self.sink.append(&mut produced);
        self.closed = true;
        proof {
            assert(enc_fed(self.enc) =~= pkcs_pad(self.pt@));
            assert(self.sink@ =~= self.base@ + enc_emitted(self.enc));
            assert(old(self).sink@ =~= self.sink@.subrange(0, old(self).sink@.len() as int));
        }
    }

    /// Finalizes the stream if needed and hands the sink back: the original
    /// content followed by the complete ciphertext.
    pub fn into_inner(self) -> (r: Vec<u8>)
        requires
            self.wf(),
        ensures
            r@ == self.prefix() + cbc_encrypt(self.key(), self.iv(), self.plaintext()),
    {
        let mut w = self;
        w.finalize();
        w.sink
    }
}

} // verus!
