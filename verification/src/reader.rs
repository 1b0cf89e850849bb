//! The decrypting stream adapter.

use vstd::prelude::*;
use crypto::aessafe::AesSafe128Decryptor;
use crate::engine::{DecEngine, dec_key, dec_iv, dec_fed, dec_emitted, dec_done, dec_failed,
    dec_finishing, aes_dec_key, cbc_decryptor_new, cbc_decrypt_step, cbc_decryptor_reset};
use crate::model::{cbc_decrypt, cbc_dec_blocks, raw_plain, pkcs_unpad, chain_at, aes_cipher_ok,
    lemma_cbc_dec_blocks_len, lemma_dec_blocks_prefix};
use crate::errors::Error;

verus! {

/// How much ciphertext is pulled from the source at a time.
const CHUNK: usize = 8192;

/// Moves the first `n` bytes out of `v`, leaving the rest.
fn split_front(v: &mut Vec<u8>, n: usize) -> (front: Vec<u8>)
    requires
        n <= old(v)@.len(),
    ensures
        front@ == old(v)@.take(n as int),
        final(v)@ == old(v)@.skip(n as int),
{
    let mut front: Vec<u8> = Vec::new();
    let mut i: usize = 0;
    while i < n
        invariant
            i <= n <= v@.len(),
            v@ == old(v)@,
            front@ == old(v)@.take(i as int),
        decreases n - i,
    {
        front.push(v[i]);
        proof {
            assert(front@ =~= old(v)@.take(i + 1));
        }
        i = i + 1;
    }
    let mut rest: Vec<u8> = Vec::new();
    let mut j: usize = n;
    while j < v.len()
        invariant
            n <= j <= v@.len(),
            v@ == old(v)@,
            rest@ == old(v)@.subrange(n as int, j as int),
        decreases v@.len() - j,
    {
        rest.push(v[j]);
        proof {
            assert(rest@ =~= old(v)@.subrange(n as int, j + 1));
        }
        j = j + 1;
    }
    *v = rest;
    proof {
        assert(v@ =~= old(v)@.skip(n as int));
        assert(front@ =~= old(v)@.take(n as int));
    }
    front
}

/// Copies `v[from..to]` into a fresh vector.
fn copy_range(v: &Vec<u8>, from: usize, to: usize) -> (r: Vec<u8>)
    requires
        from <= to <= v@.len(),
    ensures
        r@ == v@.subrange(from as int, to as int),
{
    let mut r: Vec<u8> = Vec::new();
    let mut i: usize = from;
    while i < to
        invariant
            from <= i <= to <= v@.len(),
            r@ == v@.subrange(from as int, i as int),
        decreases to - i,
    {
        r.push(v[i]);
        proof {
            assert(r@ =~= v@.subrange(from as int, i + 1));
        }
        i = i + 1;
    }
    r
}


/// Where a seek resolves from: an absolute offset, an offset relative to
/// the current source cursor, or an offset relative to the end of the
/// source.  The source cursor runs ahead of the plaintext position by
/// however much ciphertext has been read ahead, exactly as the underlying
/// stream's own cursor would when it resolves a relative seek.
#[derive(Clone, Copy, Debug)]
pub enum SeekFrom {
    Start(usize),
    Current(i64),
    End(i64),
}

/// Wraps a ciphertext source and decrypts everything read from it under
/// AES-128 in CBC mode with PKCS block padding.  The adapter reads and
/// decrypts speculatively, holding back one block's worth of plaintext
/// until the true end of the stream is observed, because only then may the
/// padding be validated and stripped.  When the source supports random
/// access, `seek` re-chains the engine from the ciphertext block preceding
/// the target, which is the only state CBC decryption needs.
pub struct AesReader {
    /// The ciphertext source.
    source: Vec<u8>,
    /// The read cursor into the source.
    pos: usize,
    /// The CBC engine (raw block decryption; padding is handled here).
    dec: DecEngine,
    /// The original initialization vector, re-installed on a seek to block 0.
    iv: Vec<u8>,
    /// The cipher block size.
    block_size: usize,
    /// Ciphertext read from the source but not yet consumed by the engine.
    buffer: Vec<u8>,
    /// Raw plaintext held back until the padding question is settled.
    held: Vec<u8>,
    /// Whether the source has reported end of stream.
    eof: bool,
    /// Whether the final block has been validated and unpadded.
    done: bool,
    /// Whether decryption has failed; only a seek clears this.
    failed: bool,
    /// The block-aligned source offset the engine last chained from.
    rbase: Ghost<int>,
}

impl AesReader {
    /// The key the cipher was expanded from.
    pub closed spec fn key(self) -> Seq<u8> {
        dec_key(self.dec)
    }

    /// The initialization vector for the stream's first block.
    pub closed spec fn iv_view(self) -> Seq<u8> {
        self.iv@
    }

    /// The whole ciphertext source.
    pub closed spec fn source_view(self) -> Seq<u8> {
        self.source@
    }

    /// The block-aligned source offset decryption currently chains from.
    pub closed spec fn base(self) -> int {
        self.rbase@
    }

    /// Whether decryption has failed.
    pub closed spec fn is_failed(self) -> bool {
        self.failed
    }

    /// The source cursor: how much ciphertext has been taken from the
    /// source so far.
    pub closed spec fn cursor(self) -> int {
        self.pos as int
    }

    /// The absolute offset a seek target resolves to.
    pub open spec fn resolve_seek(self, from: SeekFrom) -> int {
        match from {
            SeekFrom::Start(t) => t as int,
            SeekFrom::Current(d) => self.cursor() + d as int,
            SeekFrom::End(d) => self.source_view().len() + d as int,
        }
    }

    /// The chaining value for the current base: the initialization vector
    /// at the start of the stream, else the preceding ciphertext block.
    pub closed spec fn chain(self) -> Seq<u8> {
        chain_at(self.iv@, self.source@, self.rbase@ / 16)
    }

    /// The ciphertext from the current base onward.
    pub closed spec fn tail(self) -> Seq<u8> {
        self.source@.skip(self.rbase@)
    }

    /// The plaintext of the ciphertext from the current base onward, if it
    /// is well formed.
    pub closed spec fn stream(self) -> Option<Seq<u8>> {
        cbc_decrypt(self.key(), self.chain(), self.tail())
    }

    /// How many plaintext bytes of the current stream have been delivered.
    pub closed spec fn offset(self) -> int {
        if self.done {
            self.stream().unwrap().len() - self.held@.len()
        } else {
            dec_emitted(self.dec).len() - self.held@.len()
        }
    }

    /// What holds of the adapter even after a decryption failure.
    spec fn basic(self) -> bool {
        &&& self.block_size == 16
        &&& self.iv@.len() == 16
        &&& aes_cipher_ok(dec_key(self.dec))
        &&& self.pos <= self.source@.len()
    }

    /// The full invariant of an adapter that has not failed.
    spec fn inv(self) -> bool {
        let fed = dec_fed(self.dec);
        let emitted = dec_emitted(self.dec);
        &&& self.basic()
        &&& !dec_failed(self.dec)
        &&& 0 <= self.rbase@
        &&& self.rbase@ % 16 == 0
        &&& self.buffer@.len() <= self.pos
        &&& self.rbase@ <= self.pos - self.buffer@.len()
        &&& dec_iv(self.dec) == self.chain()
        &&& fed == self.source@.subrange(self.rbase@, self.pos - self.buffer@.len())
        &&& self.buffer@ == self.source@.subrange(self.pos - self.buffer@.len(), self.pos as int)
        &&& (self.eof ==> self.pos == self.source@.len())
        &&& (!self.eof ==> !dec_done(self.dec) && !self.done)
        &&& (dec_done(self.dec) ==> self.eof && self.buffer@.len() == 0)
        &&& (dec_finishing(self.dec) ==> self.eof && self.buffer@.len() == 0)
        &&& emitted == raw_plain(dec_key(self.dec), dec_iv(self.dec), fed).take(
            emitted.len() as int,
        )
        &&& emitted.len() <= fed.len() - fed.len() % 16
        &&& (!self.done ==> self.held@ == emitted.skip(emitted.len() - self.held@.len())
            && self.held@.len() <= emitted.len() && (self.held@.len() >= 16 || self.held@.len()
            == emitted.len()))
        &&& (self.done ==> dec_done(self.dec) && self.eof && self.buffer@.len() == 0 && (
        self.stream() matches Some(p)
            ==> self.held@ == p.skip(p.len() - self.held@.len()) && self.held@.len() <= p.len()
                && p.len() <= self.tail().len()) && self.stream() is Some)
    }

    /// The adapter's invariant.
    pub closed spec fn wf(self) -> bool {
        &&& self.basic()
        &&& (!self.failed ==> self.inv())
    }

    /// Releasing `k` bytes from the front of the holdback hands the caller
    /// exactly the next `k` bytes of the stream's plaintext, whenever the
    /// stream is well formed: the holdback of one full block keeps padding
    /// bytes from ever being released early.
    proof fn lemma_release_ok(self, k: int)
        requires
            self.inv(),
            !self.done,
            0 <= k,
            k == 0 || k + 16 <= self.held@.len(),
        ensures
            self.stream() matches Some(p) ==> self.offset() + k <= p.len() && self.held@.take(k)
                == p.subrange(self.offset(), self.offset() + k),
    {
        if self.stream() is Some {
            let p = self.stream().unwrap();
            let key = dec_key(self.dec);
            let cv = dec_iv(self.dec);
            let tail = self.tail();
            let fed = dec_fed(self.dec);
            let emitted = dec_emitted(self.dec);
            let af = fed.len() - fed.len() % 16;
            assert(fed =~= tail.take(fed.len() as int));
            if self.held@.len() < 16 {
                assert(self.held@.len() == emitted.len());
                assert(self.offset() == 0);
                assert(k == 0);
                assert(self.held@.take(k) =~= p.subrange(0, 0));
            } else {
                assert(tail.len() > 0);
                assert(tail.len() % 16 == 0);
                assert(fed.take(af) =~= tail.take(af));
                lemma_dec_blocks_prefix(key, cv, tail, af);
                let raw_t = cbc_dec_blocks(key, cv, tail);
                lemma_cbc_dec_blocks_len(key, cv, tail);
                assert(raw_plain(key, cv, fed) == raw_t.take(af));
                assert(emitted =~= raw_t.take(emitted.len() as int));
                let pd = raw_t.last() as int;
                assert(pkcs_unpad(raw_t) == Some(p));
                assert(p == raw_t.take(raw_t.len() - pd));
                assert(1 <= pd <= 16);
                assert(p.len() == tail.len() - pd);
                assert(self.offset() + k <= emitted.len() - 16);
                assert(emitted.len() <= af <= tail.len());
                assert(self.offset() + k <= p.len());
                assert(self.held@.take(k) =~= p.subrange(self.offset(), self.offset() + k));
            }
        }
    }

    /// Creates a decrypting adapter around `reader` from an already-keyed
    /// block cipher and an initialization vector of one block.
    pub fn new(reader: Vec<u8>, dec: AesSafe128Decryptor, iv: Vec<u8>) -> (r: AesReader)
        requires
            iv@.len() == 16,
        ensures
            r.wf(),
            aes_cipher_ok(r.key()),
            !r.is_failed(),
            r.key() == aes_dec_key(dec),
            r.iv_view() == iv@,
            r.source_view() == reader@,
            r.base() == 0,
            r.offset() == 0,
            r.stream() == cbc_decrypt(aes_dec_key(dec), iv@, reader@),
    {
        let engine = cbc_decryptor_new(dec, &iv);
        let r = AesReader {
            source: reader,
            pos: 0,
            dec: engine,
            iv,
            block_size: 16,
            buffer: Vec::new(),
            held: Vec::new(),
            eof: false,
            done: false,
            failed: false,
            rbase: Ghost(0),
        };
        proof {
            assert(dec_fed(r.dec) =~= r.source@.subrange(0, 0));
            assert(r.buffer@ =~= r.source@.subrange(0, 0));
            assert(dec_emitted(r.dec) =~= raw_plain(dec_key(r.dec), dec_iv(r.dec), dec_fed(r.dec)).take(0));
            assert(r.held@ =~= dec_emitted(r.dec).skip(0));
            assert(r.tail() =~= reader@);
        }
        r
    }

    /// Hands back the ciphertext source, consuming the adapter; no
    /// finalization step is needed for reading.
    pub fn into_inner(self) -> (r: Vec<u8>)
        ensures
            r@ == self.source_view(),
    {
        self.source
    }

    /// Hands out up to `room` plaintext bytes from the front of the
    /// holdback while the stream is still being decrypted, always keeping
    /// one block's worth back in case it turns out to hold the padding.
    fn take_streaming(&mut self, room: usize) -> (piece: Vec<u8>)
        requires
            !old(self).failed,
            !old(self).done,
            old(self).inv(),
        ensures
            final(self).inv(),
            !final(self).done,
            !final(self).failed,
            final(self).source@ == old(self).source@,
            final(self).iv@ == old(self).iv@,
            final(self).rbase@ == old(self).rbase@,
            final(self).dec == old(self).dec,
            final(self).pos == old(self).pos,
            final(self).eof == old(self).eof,
            final(self).buffer@ == old(self).buffer@,
            piece@.len() <= room,
            final(self).offset() == old(self).offset() + piece@.len(),
            old(self).stream() matches Some(p) ==> old(self).offset() + piece@.len() <= p.len()
                && piece@ == p.subrange(old(self).offset(), old(self).offset() + piece@.len()),
    {
        let k0 = if self.held.len() > 16 {
            self.held.len() - 16
        } else {
            0
        };
        let k = if room < k0 {
            room
        } else {
            k0
        };
        proof {
            self.lemma_release_ok(k as int);
        }
        let piece = split_front(&mut self.held, k);
        proof {
            assert(self.held@ =~= dec_emitted(self.dec).skip(
                dec_emitted(self.dec).len() - self.held@.len(),
            ));
        }
        piece
    }

    /// Hands out up to `room` plaintext bytes from the holdback of a
    /// finished stream.  Handing out fewer than `room` means the stream is
    /// exhausted.
    fn take_done(&mut self, room: usize) -> (piece: Vec<u8>)
        requires
            !old(self).failed,
            old(self).done,
            old(self).inv(),
        ensures
            final(self).inv(),
            final(self).done,
            !final(self).failed,
            final(self).source@ == old(self).source@,
            final(self).iv@ == old(self).iv@,
            final(self).rbase@ == old(self).rbase@,
            final(self).dec == old(self).dec,
            final(self).pos == old(self).pos,
            final(self).eof == old(self).eof,
            final(self).buffer@ == old(self).buffer@,
            piece@.len() <= room,
            final(self).offset() == old(self).offset() + piece@.len(),
            old(self).stream() matches Some(p) ==> old(self).offset() + piece@.len() <= p.len()
                && piece@ == p.subrange(old(self).offset(), old(self).offset() + piece@.len())
                && (piece@.len() < room ==> final(self).held@.len() == 0 && old(self).offset()
                + piece@.len() == p.len()),
    {
        let k = if room < self.held.len() {
            room
        } else {
            self.held.len()
        };
        let ghost p = self.stream().unwrap();
        let piece = split_front(&mut self.held, k);
        proof {
            assert(piece@ =~= p.subrange(old(self).offset(), old(self).offset() + k));
            assert(self.held@ =~= p.skip(p.len() - self.held@.len()));
        }
        piece
    }

    /// Validates and strips the PKCS padding once the engine has flushed
    /// the whole raw plaintext: the last byte names the pad width, which
    /// must be between 1 and 16 with that many copies of itself at the end.
    /// On success the holdback keeps only real plaintext; anything else is
    /// corrupted padding and poisons the adapter.
    fn finish(&mut self) -> (r: Result<(), Error>)
        requires
            !old(self).failed,
            !old(self).done,
            old(self).basic(),
            0 <= old(self).rbase@,
            old(self).rbase@ % 16 == 0,
            old(self).eof,
            old(self).pos == old(self).source@.len(),
            old(self).rbase@ <= old(self).pos,
            old(self).buffer@.len() == 0,
            !dec_failed(old(self).dec),
            dec_done(old(self).dec),
            dec_iv(old(self).dec) == old(self).chain(),
            dec_fed(old(self).dec) == old(self).tail(),
            dec_fed(old(self).dec).len() % 16 == 0,
            dec_emitted(old(self).dec) == cbc_dec_blocks(
                dec_key(old(self).dec),
                dec_iv(old(self).dec),
                dec_fed(old(self).dec),
            ),
            old(self).held@ == dec_emitted(old(self).dec).skip(
                dec_emitted(old(self).dec).len() - old(self).held@.len(),
            ),
            old(self).held@.len() <= dec_emitted(old(self).dec).len(),
            old(self).held@.len() >= 16 || old(self).held@.len() == dec_emitted(
                old(self).dec,
            ).len(),
        ensures
            final(self).source@ == old(self).source@,
            final(self).iv@ == old(self).iv@,
            final(self).rbase@ == old(self).rbase@,
            final(self).dec == old(self).dec,
            final(self).pos == old(self).pos,
            final(self).eof == old(self).eof,
            final(self).buffer@ == old(self).buffer@,
            match r {
                Ok(()) => !final(self).failed && final(self).done && final(self).inv()
                    && final(self).offset() == dec_emitted(old(self).dec).len()
                    - old(self).held@.len() && final(self).stream() is Some,
                Err(e) => final(self).failed && e is Codec && final(self).stream() is None
                    && final(self).basic(),
            },
    {
        proof {
            lemma_cbc_dec_blocks_len(dec_key(self.dec), dec_iv(self.dec), dec_fed(self.dec));
            assert(dec_fed(self.dec).take(
                dec_fed(self.dec).len() - dec_fed(self.dec).len() % 16,
            ) =~= dec_fed(self.dec));
            assert(dec_emitted(self.dec).take(dec_emitted(self.dec).len() as int) =~= dec_emitted(
                self.dec,
            ));
            assert(dec_emitted(self.dec) == raw_plain(
                dec_key(self.dec),
                dec_iv(self.dec),
                dec_fed(self.dec),
            ).take(dec_emitted(self.dec).len() as int));
            assert(self.buffer@ =~= self.source@.subrange(self.pos as int, self.pos as int));
        }
        let hl = self.held.len();
        if hl == 0 {
            self.done = true;
            proof {
                assert(self.tail().len() == 0);
                assert(self.stream() == Some(Seq::<u8>::empty()));
                assert(self.held@ =~= Seq::<u8>::empty().skip(0));
            }
            return Ok(());
        }
        let pb = self.held[hl - 1];
        let ghost raw = dec_emitted(self.dec);
        proof {
            assert(hl >= 16);
            assert(self.held@[hl - 1] == raw[raw.len() - 1]);
            assert(raw.last() == pb);
        }
        if pb == 0 || pb > 16 {
            proof {
                assert(pkcs_unpad(raw) is None);
            }
            self.failed = true;
            return Err(Error::Codec("invalid padding".to_string()));
        }
        let pu = pb as usize;
        let ghost snap = *self;
        let mut valid = true;
        let mut i: usize = hl - pu;
        while i < hl
            invariant
                *self == snap,
                hl == self.held@.len(),
                0 < pu <= 16 <= hl,
                hl - pu <= i <= hl,
                pb == self.held@[hl - 1],
                pu == pb as int,
                valid <==> (forall|j: int| hl - pu <= j < i ==> self.held@[j] == pb),
            decreases hl - i,
        {
            if self.held[i] != pb {
                valid = false;
            }
            i = i + 1;
        }
        if !valid {
            proof {
                let j = choose|j: int| hl - pu <= j < hl && self.held@[j] != pb;
                assert(self.held@[j] == raw[raw.len() - hl + j]);
                assert(raw[raw.len() - hl + j] != raw.last());
                assert(pkcs_unpad(raw) is None);
            }
            self.failed = true;
            return Err(Error::Codec("invalid padding".to_string()));
        }
        proof {
            assert forall|j: int| raw.len() - pu <= j < raw.len() implies raw[j] == raw.last() by {
                assert(self.held@[j - (raw.len() - hl)] == pb);
            }
            assert(pkcs_unpad(raw) == Some(raw.take(raw.len() - pu)));
        }
        let ghost p = raw.take(raw.len() - pu as int);
        self.held.truncate(hl - pu);
        self.done = true;
        proof {
            assert(self.held@.len() == hl - pu);
            assert(p.len() == raw.len() - pu);
            assert(hl <= raw.len());
            assert(self.held@.len() <= p.len());
            assert(self.stream() == Some(p));
            assert(self.held@ =~= p.skip(p.len() - self.held@.len()));
        }
        Ok(())
    }

    /// Reads and decrypts up to `want` plaintext bytes.  An empty result
    /// for a non-zero request signals the true end of the stream; fewer
    /// bytes than requested may be returned at any time.  A corrupted or
    /// truncated stream is reported as a `Codec` error, never as silently
    /// wrong data.
    #[verifier::rlimit(100)]
    pub fn read(&mut self, want: usize) -> (r: Result<Vec<u8>, Error>)
        requires
            old(self).wf(),
            want + 32 <= usize::MAX,
        ensures
            final(self).wf(),
            final(self).source_view() == old(self).source_view(),
            final(self).iv_view() == old(self).iv_view(),
            final(self).key() == old(self).key(),
            final(self).base() == old(self).base(),
            final(self).stream() == old(self).stream(),
            old(self).is_failed() ==> (r matches Err(e) && e is Codec) && *final(self) == *old(
                self,
            ),
            !old(self).is_failed() ==> match r {
                Ok(v) => !final(self).is_failed() && v@.len() <= want && final(self).offset()
                    == old(self).offset() + v@.len() && (v@.len() == 0 && want > 0
                    ==> old(self).stream() is Some) && (old(self).stream() matches Some(p)
                    ==> old(self).offset() + v@.len() <= p.len() && v@ == p.subrange(
                    old(self).offset(),
                    old(self).offset() + v@.len(),
                ) && (v@.len() == 0 && want > 0 ==> old(self).offset() == p.len())),
                Err(e) => final(self).is_failed() && e is Codec && old(self).stream() is None,
            },
    {
        if self.failed {
            return Err(Error::Codec("decryption already failed".to_string()));
        }
        let mut out: Vec<u8> = Vec::new();
        if self.done {
            let piece = self.take_done(want);
            return Ok(piece);
        }
        if want == 0 {
            proof {
                self.lemma_release_ok(0);
                if self.stream() is Some {
                    let p = self.stream().unwrap();
                    assert(out@ =~= p.subrange(old(self).offset(), old(self).offset()));
                }
            }
            return Ok(out);
        }
        proof {
            self.lemma_release_ok(0);
            if old(self).stream() is Some {
                let p = old(self).stream().unwrap();
                assert(out@ =~= p.subrange(old(self).offset(), old(self).offset()));
            }
        }
        loop
            invariant
                !old(self).failed,
                !old(self).done,
                old(self).inv(),
                0 <= old(self).offset(),
                !self.failed,
                !self.done,
                self.inv(),
                want + 32 <= usize::MAX,
                out@.len() <= want,
                want > 0,
                self.source@ == old(self).source@,
                self.iv@ == old(self).iv@,
                self.rbase@ == old(self).rbase@,
                dec_key(self.dec) == dec_key(old(self).dec),
                self.offset() == old(self).offset() + out@.len(),
                old(self).stream() matches Some(p) ==> old(self).offset() + out@.len() <= p.len()
                    && out@ == p.subrange(old(self).offset(), old(self).offset() + out@.len()),
            decreases
                    self.source@.len() - self.pos + (if self.eof {
                        0int
                    } else {
                        1int
                    }),
                    self.source@.len() + 16 - dec_emitted(self.dec).len(),
        {
            let fin = self.eof;
            let room = want - out.len();
            let res = cbc_decrypt_step(&mut self.dec, &self.buffer, room + 32, fin);
            match res {
                Err(e) => {
                    proof {
                        assert(dec_fed(self.dec) =~= self.tail());
                        assert(self.stream() is None);
                    }
                    self.failed = true;
                    return Err(e);
                },
                Ok((rem, produced, over)) => {
                    let consumed = self.buffer.len() - rem;
                    let _ = split_front(&mut self.buffer, consumed);
                    let mut produced = produced;
                    proof {
                        assert(dec_fed(self.dec) =~= self.source@.subrange(
                            self.rbase@,
                            self.pos - self.buffer@.len(),
                        ));
                        assert(self.buffer@ =~= self.source@.subrange(
                            self.pos - self.buffer@.len(),
                            self.pos as int,
                        ));
                    }
                    self.held.append(&mut produced);
                    proof {
                        assert(self.held@ =~= dec_emitted(self.dec).skip(
                            dec_emitted(self.dec).len() - self.held@.len(),
                        ));
                    }
                    if fin && !over {
                        proof {
                            assert(self.buffer@.len() == 0);
                            assert(dec_fed(self.dec) =~= self.tail());
                        }
                        match self.finish() {
                            Err(e) => {
                                return Err(e);
                            },
                            Ok(()) => {
                                let room2 = want - out.len();
                                let mut piece = self.take_done(room2);
                                proof {
                                    if old(self).stream() is Some {
                                        let p = old(self).stream().unwrap();
                                        assert(old(self).offset() + out@.len() + piece@.len()
                                            <= p.len());
                                    }
                                }
                                let ghost m = out@.len() as int;
                                let ghost kk = piece@.len() as int;
                                out.append(&mut piece);
                                proof {
                                    if old(self).stream() is Some {
                                        let p = old(self).stream().unwrap();
                                        let a = old(self).offset();
                                        assert(0 <= a);
                                        assert(a + m + kk <= p.len());
                                        assert(p.subrange(a, a + m) + p.subrange(a + m, a + m + kk)
                                            =~= p.subrange(a, a + m + kk));
                                        assert(out@ =~= p.subrange(a, a + out@.len()));
                                    }
                                }
                                return Ok(out);
                            },
                        }
                    }
                    let mut piece = self.take_streaming(room);
                    let ghost m = out@.len() as int;
                    let ghost kk = piece@.len() as int;
                    out.append(&mut piece);
                    proof {
                        if old(self).stream() is Some {
                            let p = old(self).stream().unwrap();
                            let a = old(self).offset();
                            assert(p.subrange(a, a + m) + p.subrange(a + m, a + m + kk)
                                =~= p.subrange(a, a + m + kk));
                            assert(out@ =~= p.subrange(a, a + out@.len()));
                        }
                    }
                    if out.len() == want {
                        return Ok(out);
                    }
                    if !over {
                        if out.len() > 0 {
                            return Ok(out);
                        }
                        if !self.eof {
                            let avail = self.source.len() - self.pos;
                            let k = if avail < CHUNK {
                                avail
                            } else {
                                CHUNK
                            };
                            if k == 0 {
                                self.eof = true;
                            } else {
                                let mut chunk = copy_range(&self.source, self.pos, self.pos + k);
                                self.pos = self.pos + k;
                                self.buffer.append(&mut chunk);
                                proof {
                                    assert(dec_fed(self.dec) =~= self.source@.subrange(
                                        self.rbase@,
                                        self.pos - self.buffer@.len(),
                                    ));
                                    assert(self.buffer@ =~= self.source@.subrange(
                                        self.pos - self.buffer@.len(),
                                        self.pos as int,
                                    ));
                                }
                            }
                        }
                    }
                },
            }
        }
    }

    /// Reads exactly `count` plaintext bytes, or reports why it cannot:
    /// `UnexpectedEof` if the stream ends first, `Codec` if it is corrupt.
    pub fn read_exact(&mut self, count: usize) -> (r: Result<Vec<u8>, Error>)
        requires
            old(self).wf(),
            count + 32 <= usize::MAX,
        ensures
            final(self).wf(),
            final(self).source_view() == old(self).source_view(),
            final(self).iv_view() == old(self).iv_view(),
            final(self).key() == old(self).key(),
            final(self).base() == old(self).base(),
            final(self).stream() == old(self).stream(),
            old(self).is_failed() ==> r is Err,
            !old(self).is_failed() ==> match r {
                Ok(v) => !final(self).is_failed() && v@.len() == count && final(self).offset()
                    == old(self).offset() + count && (old(self).stream() matches Some(p)
                    ==> old(self).offset() + count <= p.len() && v@ == p.subrange(
                    old(self).offset(),
                    old(self).offset() + count,
                )),
                Err(e) => !(e is Closed) && (e is Codec ==> old(self).stream() is None) && (
                e is UnexpectedEof ==> (old(self).stream() matches Some(p) ==> old(self).offset()
                    + count > p.len())),
            },
            !old(self).is_failed() && (old(self).stream() matches Some(p) && old(self).offset()
                + count <= p.len()) ==> r is Ok,
    {
        if self.failed {
            return Err(Error::Codec("decryption already failed".to_string()));
        }
        let mut acc: Vec<u8> = Vec::new();
        proof {
            if !self.done {
                self.lemma_release_ok(0);
            }
        }
        while acc.len() < count
            invariant
                !old(self).failed,
                !self.failed,
                self.wf(),
                count + 32 <= usize::MAX,
                acc@.len() <= count,
                self.source@ == old(self).source@,
                self.iv@ == old(self).iv@,
                self.rbase@ == old(self).rbase@,
                dec_key(self.dec) == dec_key(old(self).dec),
                0 <= old(self).offset(),
                self.offset() == old(self).offset() + acc@.len(),
                old(self).stream() matches Some(p) ==> old(self).offset() + acc@.len() <= p.len()
                    && acc@ == p.subrange(old(self).offset(), old(self).offset() + acc@.len()),
            decreases count - acc@.len(),
        {
            let n = count - acc.len();
            let res = self.read(n);
            match res {
                Err(e) => {
                    return Err(e);
                },
                Ok(mut v) => {
                    if v.len() == 0 {
                        return Err(Error::UnexpectedEof);
                    }
                    let ghost m = acc@.len() as int;
                    let ghost kk = v@.len() as int;
                    acc.append(&mut v);
                    proof {
                        if old(self).stream() is Some {
                            let p = old(self).stream().unwrap();
                            let a = old(self).offset();
                            assert(p.subrange(a, a + m) + p.subrange(a + m, a + m + kk)
                                =~= p.subrange(a, a + m + kk));
                            assert(acc@ =~= p.subrange(a, a + acc@.len()));
                        }
                    }
                },
            }
        }
        Ok(acc)
    }

    /// Reads and decrypts everything that remains of the stream.  Succeeds
    /// exactly when the stream is well formed, and then hands back all
    /// plaintext from the current position to the end.
    pub fn read_to_end(&mut self) -> (r: Result<Vec<u8>, Error>)
        requires
            old(self).wf(),
        ensures
            final(self).wf(),
            final(self).source_view() == old(self).source_view(),
            final(self).iv_view() == old(self).iv_view(),
            final(self).key() == old(self).key(),
            final(self).base() == old(self).base(),
            final(self).stream() == old(self).stream(),
            old(self).is_failed() ==> r is Err,
            !old(self).is_failed() ==> match r {
                Ok(v) => !final(self).is_failed() && (old(self).stream() matches Some(p)
                    && old(self).offset() + v@.len() == p.len() && v@ == p.skip(
                    old(self).offset(),
                ) && final(self).offset() == p.len()),
                Err(e) => e is Codec && old(self).stream() is None,
            },
    {
        if self.failed {
            return Err(Error::Codec("decryption already failed".to_string()));
        }
        let mut acc: Vec<u8> = Vec::new();
        proof {
            if !self.done {
                self.lemma_release_ok(0);
            }
        }
        loop
            invariant
                !old(self).failed,
                !self.failed,
                self.wf(),
                self.source@ == old(self).source@,
                self.iv@ == old(self).iv@,
                self.rbase@ == old(self).rbase@,
                dec_key(self.dec) == dec_key(old(self).dec),
                0 <= old(self).offset(),
                self.offset() == old(self).offset() + acc@.len(),
                0 <= self.offset() <= self.source@.len(),
                old(self).stream() matches Some(p) ==> old(self).offset() + acc@.len() <= p.len()
                    && acc@ == p.subrange(old(self).offset(), old(self).offset() + acc@.len()),
            decreases self.source@.len() - self.offset(),
        {
            let res = self.read(CHUNK);
            match res {
                Err(e) => {
                    return Err(e);
                },
                Ok(mut v) => {
                    if v.len() == 0 {
                        proof {
                            let p = old(self).stream().unwrap();
                            assert(acc@ =~= p.skip(old(self).offset()));
                        }
                        return Ok(acc);
                    }
                    let ghost m = acc@.len() as int;
                    let ghost kk = v@.len() as int;
                    acc.append(&mut v);
                    proof {
                        if old(self).stream() is Some {
                            let p = old(self).stream().unwrap();
                            let a = old(self).offset();
                            assert(p.subrange(a, a + m) + p.subrange(a + m, a + m + kk)
                                =~= p.subrange(a, a + m + kk));
                            assert(acc@ =~= p.subrange(a, a + acc@.len()));
                        }
                    }
                },
            }
        }
    }

    /// Seeks to absolute plaintext position `target`.  Only the ciphertext
    /// block immediately before the target block is needed to re-chain the
    /// engine: for the first block the original initialization vector is
    /// re-installed, otherwise that one block is re-read from the source.
    /// Any pending state, end-of-stream mark or earlier failure is
    /// discarded, and the sub-block remainder of the target is skipped by a
    /// forward read.
    pub fn seek(&mut self, target: usize) -> (r: Result<u64, Error>)
        requires
            old(self).wf(),
        ensures
            final(self).wf(),
            final(self).source_view() == old(self).source_view(),
            final(self).iv_view() == old(self).iv_view(),
            final(self).key() == old(self).key(),
            match r {
                Ok(n) => n == target && !final(self).is_failed() && final(self).base() == target
                    as int - (target as int % 16) && final(self).offset() == target as int % 16
                    && final(self).stream() == cbc_decrypt(
                    old(self).key(),
                    chain_at(
                        old(self).iv_view(),
                        old(self).source_view(),
                        (target as int - (target as int % 16)) / 16,
                    ),
                    old(self).source_view().skip(target as int - (target as int % 16)),
                ),
                Err(e) => !(e is Closed),
            },
            ({
                let b16 = target as int - (target as int % 16);
                let q = cbc_decrypt(
                    old(self).key(),
                    chain_at(old(self).iv_view(), old(self).source_view(), b16 / 16),
                    old(self).source_view().skip(b16),
                );
                (b16 == 0 || b16 <= old(self).source_view().len()) && (target as int % 16 == 0
                    || (q matches Some(qq) && target as int % 16 <= qq.len())) ==> r is Ok
            }),
    {
        let boff = target % 16;
        let base = target - boff;
        if base == 0 {
            self.pos = 0;
            cbc_decryptor_reset(&mut self.dec, &self.iv);
        } else {
            if base > self.source.len() {
                return Err(Error::UnexpectedEof);
            }
            let civ = copy_range(&self.source, base - 16, base);
            self.pos = base;
            cbc_decryptor_reset(&mut self.dec, &civ);
        }
        self.buffer = Vec::new();
        self.held = Vec::new();
        self.eof = false;
        self.done = false;
        self.failed = false;
        self.rbase = Ghost(base as int);
        proof {
            assert(base as int % 16 == 0);
            assert(base as int / 16 == (target as int - (target as int % 16)) / 16);
            assert(dec_fed(self.dec) =~= self.source@.subrange(base as int, base as int));
            assert(self.buffer@ =~= self.source@.subrange(base as int, base as int));
            assert(dec_emitted(self.dec) =~= raw_plain(
                dec_key(self.dec),
                dec_iv(self.dec),
                dec_fed(self.dec),
            ).take(0));
            assert(self.held@ =~= dec_emitted(self.dec).skip(0));
            if base > 0 {
                assert(16 * (base as int / 16) == base as int);
                assert(self.chain() =~= self.source@.subrange(base - 16, base as int));
            }
        }
        if boff > 0 {
            match self.read_exact(boff) {
                Ok(_) => Ok(target as u64),
                Err(e) => Err(e),
            }
        } else {
            Ok(target as u64)
        }
    }


    /// The source cursor relative seeks resolve against.
    pub fn position(&self) -> (r: usize)
        ensures
            r as int == self.cursor(),
    {
        self.pos
    }

    /// How much ciphertext the source holds in all.
    pub fn source_len(&self) -> (r: usize)
        ensures
            r == self.source_view().len(),
    {
        self.source.len()
    }

    /// Seeks relative to the start of the stream, the current source
    /// cursor, or the end of the source; the resolved absolute offset is
    /// handed to `seek`.  A target before the start or beyond the address
    /// space is rejected as an unexpected end of stream.
    pub fn seek_from(&mut self, from: SeekFrom) -> (r: Result<u64, Error>)
        requires
            old(self).wf(),
        ensures
            final(self).wf(),
            final(self).source_view() == old(self).source_view(),
            final(self).iv_view() == old(self).iv_view(),
            final(self).key() == old(self).key(),
            match r {
                Ok(n) => ({
                    let t = old(self).resolve_seek(from);
                    &&& n == t
                    &&& !final(self).is_failed()
                    &&& final(self).base() == t - t % 16
                    &&& final(self).offset() == t % 16
                    &&& final(self).stream() == cbc_decrypt(
                        old(self).key(),
                        chain_at(old(self).iv_view(), old(self).source_view(), (t - t % 16) / 16),
                        old(self).source_view().skip(t - t % 16),
                    )
                }),
                Err(e) => !(e is Closed),
            },
            ({
                let t = old(self).resolve_seek(from);
                let b16 = t - t % 16;
                let q = cbc_decrypt(
                    old(self).key(),
                    chain_at(old(self).iv_view(), old(self).source_view(), b16 / 16),
                    old(self).source_view().skip(b16),
                );
                (0 <= t && t <= usize::MAX && (b16 == 0 || b16 <= old(self).source_view().len())
                    && (t % 16 == 0 || (q matches Some(qq) && t % 16 <= qq.len()))) ==> r is Ok
            }),
    {
        let resolved: i128 = match from {
            SeekFrom::Start(t) => t as i128,
            SeekFrom::Current(d) => self.pos as i128 + d as i128,
            SeekFrom::End(d) => self.source.len() as i128 + d as i128,
        };
        if resolved < 0 || resolved > usize::MAX as i128 {
            return Err(Error::UnexpectedEof);
        }
        let target = resolved as usize;
        self.seek(target)
    }
}

} // verus!
