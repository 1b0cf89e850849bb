//! Trusted bindings to the external cipher engine.
//!
//! The block cipher and the block-buffering CBC engine come from the
//! `crypto` crate.  This module declares those types to the verifier, names
//! their abstract state, and wraps the calls the adapters make.  Every
//! contract here is believed, not proved; each doc comment says which
//! external function it relies on and what its source guarantees.

use vstd::prelude::*;
use crypto::aessafe::{AesSafe128Encryptor, AesSafe128Decryptor};
use crypto::blockmodes::{CbcEncryptor, CbcDecryptor, EncPadding, DecPadding, NoPadding};
use crypto::buffer::{RefReadBuffer, RefWriteBuffer, ReadBuffer, WriteBuffer, BufferResult};
use crypto::symmetriccipher::{Encryptor, Decryptor};
use crate::errors::Error;
use crate::model::{cbc_enc_blocks, cbc_dec_blocks, raw_plain};

verus! {

#[verifier::external_type_specification]
#[verifier::external_body]
pub struct ExAesSafe128Encryptor(AesSafe128Encryptor);

#[verifier::external_type_specification]
#[verifier::external_body]
pub struct ExAesSafe128Decryptor(AesSafe128Decryptor);

#[verifier::external_type_specification]
#[verifier::external_body]
#[verifier::reject_recursive_types(T)]
#[verifier::reject_recursive_types(X)]
pub struct ExCbcEncryptor<T, X>(CbcEncryptor<T, X>);

#[verifier::external_type_specification]
#[verifier::external_body]
#[verifier::reject_recursive_types(T)]
#[verifier::reject_recursive_types(X)]
pub struct ExCbcDecryptor<T, X>(CbcDecryptor<T, X>);

#[verifier::external_type_specification]
#[verifier::external_body]
#[verifier::reject_recursive_types(X)]
pub struct ExEncPadding<X>(EncPadding<X>);

#[verifier::external_type_specification]
#[verifier::external_body]
#[verifier::reject_recursive_types(X)]
pub struct ExDecPadding<X>(DecPadding<X>);

#[verifier::external_type_specification]
#[verifier::external_body]
pub struct ExNoPadding(NoPadding);

/// The engine the encryptor drives: CBC over AES-128 with no padding
/// processor; the library appends the PKCS padding itself and feeds it with
/// the final call, so the stream the engine sees is always block-aligned.
pub type EncEngine = CbcEncryptor<AesSafe128Encryptor, EncPadding<NoPadding>>;

/// The engine the decryptor drives: CBC over AES-128 with no padding
/// processor, so it yields the raw block decryption and the library strips
/// and validates the padding itself.
pub type DecEngine = CbcDecryptor<AesSafe128Decryptor, DecPadding<NoPadding>>;

/// The AES-128 block encryption of `block` under `key`.
pub uninterp spec fn aes_enc_block(key: Seq<u8>, block: Seq<u8>) -> Seq<u8>;

/// The AES-128 block decryption of `block` under `key`.
pub uninterp spec fn aes_dec_block(key: Seq<u8>, block: Seq<u8>) -> Seq<u8>;

/// The key bytes a keyed block encryptor was expanded from.
pub uninterp spec fn aes_enc_key(algo: AesSafe128Encryptor) -> Seq<u8>;

/// The key bytes a keyed block decryptor was expanded from.
pub uninterp spec fn aes_dec_key(algo: AesSafe128Decryptor) -> Seq<u8>;

/// The key of an encryption engine.
pub uninterp spec fn enc_key(e: EncEngine) -> Seq<u8>;

/// The initialization vector an encryption engine was created with.
pub uninterp spec fn enc_iv(e: EncEngine) -> Seq<u8>;

/// All plaintext bytes an encryption engine has consumed.
pub uninterp spec fn enc_fed(e: EncEngine) -> Seq<u8>;

/// All ciphertext bytes an encryption engine has emitted.
pub uninterp spec fn enc_emitted(e: EncEngine) -> Seq<u8>;

/// Whether an encryption engine has completed its final, padding-adding call.
pub uninterp spec fn enc_done(e: EncEngine) -> bool;

/// The key of a decryption engine.
pub uninterp spec fn dec_key(d: DecEngine) -> Seq<u8>;

/// The chaining value a decryption engine started from at its last reset.
pub uninterp spec fn dec_iv(d: DecEngine) -> Seq<u8>;

/// All ciphertext bytes a decryption engine has consumed since its last reset.
pub uninterp spec fn dec_fed(d: DecEngine) -> Seq<u8>;

/// All plaintext bytes a decryption engine has emitted since its last reset.
pub uninterp spec fn dec_emitted(d: DecEngine) -> Seq<u8>;

/// Whether a decryption engine has completed its final call.
pub uninterp spec fn dec_done(d: DecEngine) -> bool;

/// Whether a decryption engine has entered its error state; only a reset
/// leaves it.
pub uninterp spec fn dec_failed(d: DecEngine) -> bool;

/// Whether a decryption engine has begun its final processing.  Once a
/// final call has consumed all of its input the engine is committed: it
/// accepts only further final calls with no input, which at most flush
/// output it still holds.
pub uninterp spec fn dec_finishing(d: DecEngine) -> bool;

/// Relies on `crypto::blockmodes::CbcEncryptor::new`: builds a CBC engine
/// over the given keyed AES-128 block encryptor, chaining from `iv`, with a
/// no-op padding processor (the library pads the stream itself).  Nothing
/// is fed or emitted yet.
/// The paired `AesSafe128Encryptor`/`AesSafe128Decryptor` block transforms
/// are AES-128 proper, so for the key the cipher was expanded from they are
/// 16-byte-block inverses of one another.
#[verifier::external_body]
pub(crate) fn cbc_encryptor_new(algo: AesSafe128Encryptor, iv: &Vec<u8>) -> (e: EncEngine)
    requires
        iv@.len() == 16,
    ensures
        enc_key(e) == aes_enc_key(algo),
        enc_iv(e) == iv@,
        enc_fed(e) == Seq::<u8>::empty(),
        enc_emitted(e) == Seq::<u8>::empty(),
        !enc_done(e),
        forall|b: Seq<u8>|
            b.len() == 16 ==> (#[trigger] aes_enc_block(enc_key(e), b)).len() == 16
                && aes_dec_block(enc_key(e), aes_enc_block(enc_key(e), b)) == b,
{
    CbcEncryptor::new(algo, NoPadding, iv.to_vec())
}

/// Relies on `crypto::blockmodes::CbcDecryptor::new`: builds a CBC engine
/// over the given keyed AES-128 block decryptor, chaining from `iv`, with a
/// no-op padding processor (the library validates padding itself).
/// The paired AES-128 block transforms are inverses, as for the encryptor.
#[verifier::external_body]
pub(crate) fn cbc_decryptor_new(algo: AesSafe128Decryptor, iv: &Vec<u8>) -> (d: DecEngine)
    requires
        iv@.len() == 16,
    ensures
        dec_key(d) == aes_dec_key(algo),
        dec_iv(d) == iv@,
        dec_fed(d) == Seq::<u8>::empty(),
        dec_emitted(d) == Seq::<u8>::empty(),
        !dec_done(d),
        !dec_failed(d),
        !dec_finishing(d),
        forall|b: Seq<u8>|
            b.len() == 16 ==> (#[trigger] aes_enc_block(dec_key(d), b)).len() == 16
                && aes_dec_block(dec_key(d), aes_enc_block(dec_key(d), b)) == b,
{
    CbcDecryptor::new(algo, NoPadding, iv.to_vec())
}

/// Relies on `crypto::blockmodes::CbcEncryptor::encrypt` (the `BlockEngine`
/// state machine): consumes a prefix of `input`, appends the corresponding
/// ciphertext blocks to what it has emitted, and hands back
/// `(unconsumed, produced, overflow)`.  Underflow (no overflow) means all
/// input was taken; output only stops early when the `cap`-byte output
/// window fills, and the engine buffers at most one input block and one
/// output block, so a window of `input + 64` bytes is never overflowed.
/// A final call that underflows has flushed everything: the engine is done
/// and its lifetime output is exactly the chained encryption of its
/// lifetime input.  The caller must make the
/// lifetime input block-aligned by the end of the final call - the library
/// feeds the padding itself - and then the encryption path has no error
/// case.
#[verifier::external_body]
pub(crate) fn cbc_encrypt_step(e: &mut EncEngine, input: &[u8], cap: usize, fin: bool) -> (r: (
    usize,
    Vec<u8>,
    bool,
))
    requires
        !enc_done(*old(e)),
        fin ==> (enc_fed(*old(e)).len() + input@.len()) % 16 == 0,
    ensures
        enc_key(*final(e)) == enc_key(*old(e)),
        enc_iv(*final(e)) == enc_iv(*old(e)),
        r.0 <= input@.len(),
        enc_fed(*final(e)) == enc_fed(*old(e)) + input@.take(input@.len() - r.0),
        enc_emitted(*final(e)) == enc_emitted(*old(e)) + r.1@,
        r.1@.len() <= cap,
        r.2 ==> r.1@.len() == cap,
        !r.2 ==> r.0 == 0,
        cap >= input@.len() + 64 ==> !r.2,
        !fin ==> enc_done(*final(e)) == enc_done(*old(e)),
        fin && !r.2 ==> enc_done(*final(e)) && enc_emitted(*final(e)) == cbc_enc_blocks(
            enc_key(*old(e)),
            enc_iv(*old(e)),
            enc_fed(*final(e)),
        ),
{
    let mut tmp = vec![0u8; cap];
    let mut rb = RefReadBuffer::new(input);
    let mut wb = RefWriteBuffer::new(&mut tmp);
    let res = e.encrypt(&mut rb, &mut wb, fin).unwrap();
    let over = match res { BufferResult::BufferOverflow => true, _ => false };
    let rem = rb.remaining();
    let mut taken = wb.take_read_buffer();
    (rem, taken.take_remaining().to_vec(), over)
}

/// Relies on `crypto::blockmodes::CbcDecryptor::decrypt` (the `BlockEngine`
/// state machine, with a no-op padding processor): consumes a prefix of
/// `input`, appends raw decrypted bytes to what it has emitted, and hands
/// back `(unconsumed, produced, overflow)`.  What it has emitted is always
/// a prefix of the raw block decryption of what it has consumed, and never
/// reaches into a block it has not seen past.  Underflow means all input
/// was taken; overflow means the `cap`-byte output window filled.  A final
/// call that overflows still has output pending, so it is not yet done; a
/// final call that underflows has flushed everything: the engine is done
/// and has emitted the full raw decryption of its consumed bytes, whose
/// count is a whole number of blocks - a final remainder short of a block
/// is the one error case, reported after consuming all input.  A final
/// call that consumes all of its input commits the engine to finishing:
/// from then on it would ignore fresh input, so the contract admits only
/// further final calls with no input.
#[verifier::external_body]
pub(crate) fn cbc_decrypt_step(d: &mut DecEngine, input: &Vec<u8>, cap: usize, fin: bool) -> (r:
    Result<(usize, Vec<u8>, bool), Error>)
    requires
        !dec_failed(*old(d)),
        dec_finishing(*old(d)) ==> fin && input@.len() == 0,
        !dec_done(*old(d)) || (fin && input@.len() == 0),
    ensures
        dec_key(*final(d)) == dec_key(*old(d)),
        dec_iv(*final(d)) == dec_iv(*old(d)),
        r matches Ok(t) ==> ({
            &&& !dec_failed(*final(d))
            &&& t.0 <= input@.len()
            &&& dec_fed(*final(d)) == dec_fed(*old(d)) + input@.take(input@.len() - t.0)
            &&& dec_emitted(*final(d)) == dec_emitted(*old(d)) + t.1@
            &&& t.1@.len() <= cap
            &&& (t.2 ==> t.1@.len() == cap)
            &&& (t.2 ==> !dec_done(*final(d)))
            &&& (!t.2 ==> t.0 == 0)
            &&& dec_emitted(*final(d)) == raw_plain(
                dec_key(*old(d)),
                dec_iv(*old(d)),
                dec_fed(*final(d)),
            ).take(dec_emitted(*final(d)).len() as int)
            &&& dec_emitted(*final(d)).len() <= dec_fed(*final(d)).len() - dec_fed(
                *final(d),
            ).len() % 16
            &&& (dec_finishing(*final(d)) <==> dec_finishing(*old(d)) || (fin && t.0 == 0))
            &&& (!fin ==> dec_done(*final(d)) == dec_done(*old(d)))
            &&& (fin && !t.2 ==> dec_done(*final(d)) && dec_fed(*final(d)).len() % 16 == 0
                && dec_emitted(*final(d)) == cbc_dec_blocks(
                    dec_key(*old(d)),
                    dec_iv(*old(d)),
                    dec_fed(*final(d)),
                ))
        }),
        r matches Err(er) ==> ({
            &&& dec_failed(*final(d))
            &&& er is Codec
            &&& fin
            &&& dec_fed(*final(d)) == dec_fed(*old(d)) + input@
            &&& dec_fed(*final(d)).len() % 16 != 0
        }),
{
    let mut tmp = vec![0u8; cap];
    let mut rb = RefReadBuffer::new(input.as_slice());
    let mut wb = RefWriteBuffer::new(&mut tmp);
    match d.decrypt(&mut rb, &mut wb, fin) {
        Ok(res) => {
            let over = match res { BufferResult::BufferOverflow => true, _ => false };
            let rem = rb.remaining();
            let mut taken = wb.take_read_buffer();
            Ok((rem, taken.take_remaining().to_vec(), over))
        },
        Err(e) => Err(Error::Codec(format!("decryption error: {:?}", e))),
    }
}

/// Relies on `crypto::blockmodes::CbcDecryptor::reset`: restarts the engine
/// from a fresh chaining value without re-deriving the key schedule.  All
/// buffered state and any error state are discarded.
#[verifier::external_body]
pub(crate) fn cbc_decryptor_reset(d: &mut DecEngine, iv: &Vec<u8>)
    requires
        iv@.len() == 16,
    ensures
        dec_key(*final(d)) == dec_key(*old(d)),
        dec_iv(*final(d)) == iv@,
        dec_fed(*final(d)) == Seq::<u8>::empty(),
        dec_emitted(*final(d)) == Seq::<u8>::empty(),
        !dec_done(*final(d)),
        !dec_failed(*final(d)),
        !dec_finishing(*final(d)),
{
    d.reset(iv.as_slice())
}

} // verus!
