//! The mathematical model of CBC encryption with PKCS block padding.
//!
//! The AES block transforms are the uninterpreted functions `aes_enc_block`
//! and `aes_dec_block` (declared with the trusted engine bindings); everything
//! else - chaining, padding, and their algebra - is defined and proved here.

use vstd::prelude::*;
use crate::engine::{aes_enc_block, aes_dec_block};

verus! {

/// The cipher block size in bytes (AES).
pub const BLOCK: usize = 16;

/// What a usable block cipher key promises: encrypting a block yields a
/// block, and decryption inverts encryption.  The trusted engine
/// constructors establish this for the key their cipher was built with.
pub open spec fn aes_cipher_ok(key: Seq<u8>) -> bool {
    forall|b: Seq<u8>|
        b.len() == 16 ==> (#[trigger] aes_enc_block(key, b)).len() == 16
            && aes_dec_block(key, aes_enc_block(key, b)) == b
}

/// Bytewise exclusive-or of the first 16 bytes of two sequences.
pub open spec fn xor16(a: Seq<u8>, b: Seq<u8>) -> Seq<u8> {
    Seq::new(16, |i: int| a[i] ^ b[i])
}

/// PKCS block padding: extend to the next multiple of 16 by appending
/// `p` copies of the byte `p`, where `p` is the number of bytes appended
/// (always between 1 and 16, so an exact multiple grows by a full block).
pub open spec fn pkcs_pad(pt: Seq<u8>) -> Seq<u8> {
    let p = 16 - pt.len() % 16;
    pt + Seq::new(p as nat, |i: int| p as u8)
}

/// PKCS padding removal: the last byte names the pad width `p`; the last
/// `p` bytes must all equal `p`, and `p` must be between 1 and 16.
/// Anything else is corrupted padding.
pub open spec fn pkcs_unpad(raw: Seq<u8>) -> Option<Seq<u8>> {
    let p = raw.last() as int;
    if 1 <= p && p <= 16 && p <= raw.len()
        && (forall|i: int| raw.len() - p <= i < raw.len() ==> raw[i] == raw.last()) {
        Some(raw.take(raw.len() - p))
    } else {
        None
    }
}

/// CBC encryption of a whole number of blocks: each plaintext block is
/// xor-ed with the previous ciphertext block (the chaining value `cv` for
/// the first) and then encrypted.  Trailing bytes short of a block are
/// ignored.
pub open spec fn cbc_enc_blocks(key: Seq<u8>, cv: Seq<u8>, pt: Seq<u8>) -> Seq<u8>
    decreases pt.len(),
{
    if pt.len() < 16 {
        Seq::empty()
    } else {
        let c = aes_enc_block(key, xor16(pt.take(16), cv));
        c + cbc_enc_blocks(key, c, pt.skip(16))
    }
}

/// CBC decryption of a whole number of blocks: each ciphertext block is
/// decrypted and xor-ed with the previous ciphertext block (the chaining
/// value `cv` for the first).  Trailing bytes short of a block are ignored.
pub open spec fn cbc_dec_blocks(key: Seq<u8>, cv: Seq<u8>, ct: Seq<u8>) -> Seq<u8>
    decreases ct.len(),
{
    if ct.len() < 16 {
        Seq::empty()
    } else {
        xor16(aes_dec_block(key, ct.take(16)), cv) + cbc_dec_blocks(key, ct.take(16), ct.skip(16))
    }
}

/// The raw (still padded) plaintext of the full blocks of `ct`.
pub open spec fn raw_plain(key: Seq<u8>, cv: Seq<u8>, ct: Seq<u8>) -> Seq<u8> {
    cbc_dec_blocks(key, cv, ct.take(ct.len() - ct.len() % 16))
}

/// The ciphertext of a whole plaintext stream: pad, then chain-encrypt.
pub open spec fn cbc_encrypt(key: Seq<u8>, iv: Seq<u8>, pt: Seq<u8>) -> Seq<u8> {
    cbc_enc_blocks(key, iv, pkcs_pad(pt))
}

/// The plaintext of a whole ciphertext stream, if it is well formed: the
/// length must be a multiple of the block size and the padding must check
/// out.  The empty stream decodes to the empty plaintext.
pub open spec fn cbc_decrypt(key: Seq<u8>, iv: Seq<u8>, ct: Seq<u8>) -> Option<Seq<u8>> {
    if ct.len() % 16 != 0 {
        None
    } else if ct.len() == 0 {
        Some(Seq::empty())
    } else {
        pkcs_unpad(cbc_dec_blocks(key, iv, ct))
    }
}

/// PKCS padding is reversible and grows the stream to the next block
/// boundary: a padded stream is one block longer than the plaintext's last
/// (possibly empty) partial block, and unpadding recovers the plaintext
/// exactly.
pub proof fn lemma_pkcs_pad(pt: Seq<u8>)
    ensures
        pkcs_pad(pt).len() == 16 * (pt.len() / 16 + 1),
        pkcs_pad(pt).len() % 16 == 0,
        pkcs_pad(pt).len() > 0,
        pkcs_unpad(pkcs_pad(pt)) == Some(pt),
{
    let n = pt.len() as int;
    let p = 16 - n % 16;
    let padded = pkcs_pad(pt);
    assert(n % 16 == n - 16 * (n / 16)) by (nonlinear_arith);
    assert(padded.len() == n + p);
    assert(padded.last() == p as u8);
    assert(forall|i: int| padded.len() - p <= i < padded.len() ==> padded[i] == p as u8);
    assert(padded.take(padded.len() - p) =~= pt);
    assert((p as u8) as int == p);
}

/// Chained encryption of a whole number of blocks yields exactly as many
/// ciphertext bytes, provided the cipher maps blocks to blocks.
pub proof fn lemma_cbc_enc_blocks_len(key: Seq<u8>, cv: Seq<u8>, pt: Seq<u8>)
    requires
        aes_cipher_ok(key),
        pt.len() % 16 == 0,
    ensures
        cbc_enc_blocks(key, cv, pt).len() == pt.len(),
    decreases pt.len(),
{
    if pt.len() >= 16 {
        let b = xor16(pt.take(16), cv);
        assert(b.len() == 16);
        lemma_cbc_enc_blocks_len(key, aes_enc_block(key, b), pt.skip(16));
    }
}

/// The size law: a ciphertext is always one block longer than the
/// plaintext's whole blocks - in particular the empty plaintext encrypts to
/// exactly one block of pure padding.
pub proof fn lemma_ciphertext_len(key: Seq<u8>, iv: Seq<u8>, pt: Seq<u8>)
    requires
        aes_cipher_ok(key),
    ensures
        cbc_encrypt(key, iv, pt).len() == 16 * (pt.len() / 16 + 1),
        pt.len() == 0 ==> cbc_encrypt(key, iv, pt).len() == 16,
{
    lemma_pkcs_pad(pt);
    lemma_cbc_enc_blocks_len(key, iv, pkcs_pad(pt));
}

/// Chained decryption yields one plaintext byte for every ciphertext byte
/// of a whole block; a trailing remainder short of a block contributes
/// nothing.
pub proof fn lemma_cbc_dec_blocks_len(key: Seq<u8>, cv: Seq<u8>, ct: Seq<u8>)
    ensures
        cbc_dec_blocks(key, cv, ct).len() == ct.len() - ct.len() % 16,
    decreases ct.len(),
{
    if ct.len() >= 16 {
        lemma_cbc_dec_blocks_len(key, ct.take(16), ct.skip(16));
    }
}

/// Chained decryption inverts chained encryption block by block.
pub proof fn lemma_enc_dec_blocks(key: Seq<u8>, cv: Seq<u8>, pt: Seq<u8>)
    requires
        aes_cipher_ok(key),
        pt.len() % 16 == 0,
    ensures
        cbc_dec_blocks(key, cv, cbc_enc_blocks(key, cv, pt)) == pt,
    decreases pt.len(),
{
    if pt.len() < 16 {
        assert(cbc_dec_blocks(key, cv, cbc_enc_blocks(key, cv, pt)) =~= pt);
    } else {
        let p16 = pt.take(16);
        let x = xor16(p16, cv);
        let c = aes_enc_block(key, x);
        let rest = cbc_enc_blocks(key, c, pt.skip(16));
        let ct = cbc_enc_blocks(key, cv, pt);
        assert(x.len() == 16);
        assert(c.len() == 16);
        assert(ct == c + rest);
        assert(ct.take(16) =~= c);
        assert(ct.skip(16) =~= rest);
        assert(aes_dec_block(key, c) == x);
        assert(forall|a: u8, b: u8| ((a ^ b) ^ b) == a) by (bit_vector);
        assert(xor16(x, cv) =~= p16);
        lemma_enc_dec_blocks(key, c, pt.skip(16));
        assert(cbc_dec_blocks(key, cv, ct) == xor16(aes_dec_block(key, ct.take(16)), cv)
            + cbc_dec_blocks(key, ct.take(16), ct.skip(16)));
        assert(cbc_dec_blocks(key, cv, ct) =~= pt.take(16) + pt.skip(16));
        assert(pt.take(16) + pt.skip(16) =~= pt);
    }
}

/// The round trip: decrypting an encrypted stream under the same key and
/// initialization vector recovers the plaintext exactly, for plaintexts of
/// every length.
pub proof fn lemma_cbc_roundtrip(key: Seq<u8>, iv: Seq<u8>, pt: Seq<u8>)
    requires
        aes_cipher_ok(key),
    ensures
        cbc_decrypt(key, iv, cbc_encrypt(key, iv, pt)) == Some(pt),
{
    let padded = pkcs_pad(pt);
    lemma_pkcs_pad(pt);
    lemma_cbc_enc_blocks_len(key, iv, padded);
    lemma_enc_dec_blocks(key, iv, padded);
}

/// Truncation detection: a ciphertext cut to a length that is not a whole
/// number of blocks never decrypts silently - it is rejected outright.
/// (A corrupted final block is likewise rejected whenever its trailing
/// bytes fail the padding check, though a block cipher can in principle map
/// a corrupted block to bytes that happen to look like valid padding.)
pub proof fn lemma_misaligned_ciphertext_rejected(key: Seq<u8>, iv: Seq<u8>, ct: Seq<u8>)
    requires
        ct.len() % 16 != 0,
    ensures
        cbc_decrypt(key, iv, ct) is None,
{
}

/// Decrypting a whole-block prefix yields the corresponding prefix of the
/// decryption.
pub proof fn lemma_dec_blocks_prefix(key: Seq<u8>, cv: Seq<u8>, ct: Seq<u8>, m: int)
    requires
        0 <= m <= ct.len(),
        m % 16 == 0,
    ensures
        cbc_dec_blocks(key, cv, ct.take(m)) == cbc_dec_blocks(key, cv, ct).take(m),
    decreases m,
{
    if m == 0 {
        assert(cbc_dec_blocks(key, cv, ct.take(0)) =~= cbc_dec_blocks(key, cv, ct).take(0));
    } else {
        let first = xor16(aes_dec_block(key, ct.take(16)), cv);
        assert(ct.take(m).take(16) =~= ct.take(16));
        assert(ct.take(m).skip(16) =~= ct.skip(16).take(m - 16));
        lemma_dec_blocks_prefix(key, ct.take(16), ct.skip(16), m - 16);
        lemma_cbc_dec_blocks_len(key, ct.take(16), ct.skip(16));
        assert(cbc_dec_blocks(key, cv, ct.take(m)) == first + cbc_dec_blocks(
            key,
            ct.take(16),
            ct.skip(16),
        ).take(m - 16));
        assert(cbc_dec_blocks(key, cv, ct) == first + cbc_dec_blocks(key, ct.take(16), ct.skip(16)));
        assert(first + cbc_dec_blocks(key, ct.take(16), ct.skip(16)).take(m - 16) =~= (first
            + cbc_dec_blocks(key, ct.take(16), ct.skip(16))).take(m));
    }
}

/// The chaining value that decryption of the stream suffix starting at
/// block `b` must start from: the initialization vector for the first
/// block, and the preceding ciphertext block otherwise.
pub open spec fn chain_at(iv: Seq<u8>, ct: Seq<u8>, b: int) -> Seq<u8> {
    if b == 0 {
        iv
    } else {
        ct.subrange(16 * b - 16, 16 * b)
    }
}

/// Decrypting a whole-block suffix from its proper chaining value yields
/// the corresponding suffix of the decryption.
pub proof fn lemma_dec_blocks_suffix(key: Seq<u8>, cv: Seq<u8>, ct: Seq<u8>, b: int)
    requires
        ct.len() % 16 == 0,
        0 <= 16 * b <= ct.len(),
    ensures
        cbc_dec_blocks(key, chain_at(cv, ct, b), ct.skip(16 * b)) == cbc_dec_blocks(
            key,
            cv,
            ct,
        ).skip(16 * b),
    decreases b,
{
    if b == 0 {
        assert(ct.skip(0) =~= ct);
        assert(cbc_dec_blocks(key, cv, ct).skip(0) =~= cbc_dec_blocks(key, cv, ct));
    } else {
        let first = xor16(aes_dec_block(key, ct.take(16)), cv);
        let rest = cbc_dec_blocks(key, ct.take(16), ct.skip(16));
        assert(cbc_dec_blocks(key, cv, ct) == first + rest);
        lemma_cbc_dec_blocks_len(key, ct.take(16), ct.skip(16));
        lemma_dec_blocks_suffix(key, ct.take(16), ct.skip(16), b - 1);
        assert(ct.skip(16).skip(16 * (b - 1)) =~= ct.skip(16 * b));
        if b == 1 {
            assert(chain_at(ct.take(16), ct.skip(16), 0) == ct.take(16));
            assert(chain_at(cv, ct, 1) =~= ct.take(16));
        } else {
            assert(ct.skip(16).subrange(16 * (b - 1) - 16, 16 * (b - 1)) =~= ct.subrange(
                16 * b - 16,
                16 * b,
            ));
        }
        assert((first + rest).skip(16 * b) =~= rest.skip(16 * (b - 1)));
    }
}

/// The seek law: if a ciphertext decrypts to a plaintext, then decrypting
/// its suffix from block `b` onward - chaining from the ciphertext block
/// just before it - yields exactly the plaintext from byte `16 * b` onward.
/// This is why a random-access seek only ever needs to re-read one block.
pub proof fn lemma_seek_suffix(key: Seq<u8>, iv: Seq<u8>, ct: Seq<u8>, b: int, p: Seq<u8>)
    requires
        cbc_decrypt(key, iv, ct) == Some(p),
        0 <= b,
        16 * b + 16 <= ct.len(),
    ensures
        16 * b <= p.len(),
        cbc_decrypt(key, chain_at(iv, ct, b), ct.skip(16 * b)) == Some(p.skip(16 * b)),
{
    let raw = cbc_dec_blocks(key, iv, ct);
    lemma_cbc_dec_blocks_len(key, iv, ct);
    lemma_dec_blocks_suffix(key, iv, ct, b);
    let rawb = cbc_dec_blocks(key, chain_at(iv, ct, b), ct.skip(16 * b));
    let pd = raw.last() as int;
    assert(rawb =~= raw.skip(16 * b));
    assert(rawb.last() == raw.last());
    assert(forall|i: int|
        rawb.len() - pd <= i < rawb.len() ==> rawb[i] == raw[16 * b + i] && raw.len() - pd <= 16
            * b + i < raw.len());
    assert(pkcs_unpad(rawb) == Some(rawb.take(rawb.len() - pd)));
    assert(rawb.take(rawb.len() - pd) =~= p.skip(16 * b));
}

} // verus!
