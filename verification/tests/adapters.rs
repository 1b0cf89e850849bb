use aesstream::{AesReader, AesWriter, Error, SeekFrom};
use crypto::aessafe::{AesSafe128Decryptor, AesSafe128Encryptor};

const KEY: [u8; 16] = [7, 1, 77, 3, 9, 200, 13, 64, 5, 111, 22, 41, 8, 0, 250, 17];
const IV: [u8; 16] = [90, 4, 61, 180, 2, 33, 7, 99, 120, 5, 18, 201, 76, 44, 3, 255];

fn sample(n: usize) -> Vec<u8> {
    (0..n).map(|i| (i * 31 + 7) as u8).collect()
}

fn encrypt(key: &[u8; 16], iv: &[u8; 16], pt: &[u8]) -> Vec<u8> {
    let enc = AesSafe128Encryptor::new(key);
    let mut w = AesWriter::new(Vec::new(), enc, iv.to_vec());
    w.write(pt).unwrap();
    w.into_inner()
}

fn decrypt(key: &[u8; 16], iv: &[u8; 16], ct: &[u8]) -> Result<Vec<u8>, Error> {
    let dec = AesSafe128Decryptor::new(key);
    let mut r = AesReader::new(ct.to_vec(), dec, iv.to_vec());
    r.read_to_end()
}

#[test]
fn round_trip_all_lengths() {
    for n in 0..=64 {
        let pt = sample(n);
        let ct = encrypt(&KEY, &IV, &pt);
        let back = decrypt(&KEY, &IV, &ct).unwrap();
        assert_eq!(back, pt, "round trip failed for length {}", n);
    }
}

#[test]
fn round_trip_chunked_writes() {
    let pt = sample(100);
    let enc = AesSafe128Encryptor::new(&KEY);
    let mut w = AesWriter::new(Vec::new(), enc, IV.to_vec());
    for chunk in pt.chunks(7) {
        assert_eq!(w.write(chunk).unwrap(), chunk.len());
    }
    let ct = w.into_inner();
    assert_eq!(ct, encrypt(&KEY, &IV, &pt));
    assert_eq!(decrypt(&KEY, &IV, &ct).unwrap(), pt);
}

#[test]
fn round_trip_small_reads() {
    let pt = sample(75);
    let ct = encrypt(&KEY, &IV, &pt);
    let dec = AesSafe128Decryptor::new(&KEY);
    let mut r = AesReader::new(ct, dec, IV.to_vec());
    let mut got = Vec::new();
    loop {
        let piece = r.read(5).unwrap();
        if piece.is_empty() {
            break;
        }
        assert!(piece.len() <= 5);
        got.extend_from_slice(&piece);
    }
    assert_eq!(got, pt);
}

#[test]
fn empty_plaintext_is_one_block_of_padding() {
    let ct = encrypt(&KEY, &IV, &[]);
    assert_eq!(ct.len(), 16);
    assert_eq!(decrypt(&KEY, &IV, &ct).unwrap(), Vec::<u8>::new());
}

#[test]
fn ciphertext_size_law() {
    for n in 0..=48 {
        let ct = encrypt(&KEY, &IV, &sample(n));
        assert_eq!(ct.len(), 16 * (n / 16 + 1), "size law failed for length {}", n);
    }
}

#[test]
fn ciphertext_differs_from_plaintext() {
    let pt = sample(32);
    let ct = encrypt(&KEY, &IV, &pt);
    assert_ne!(&ct[..32], &pt[..]);
}

#[test]
fn flipping_final_block_bytes_is_detected() {
    let pt = sample(37);
    let ct = encrypt(&KEY, &IV, &pt);
    let last = ct.len() - 16;
    for i in last..ct.len() {
        let mut bad = ct.clone();
        bad[i] ^= 0x55;
        assert!(
            decrypt(&KEY, &IV, &bad).is_err(),
            "corruption of byte {} went undetected",
            i
        );
    }
}

#[test]
fn truncation_to_partial_block_is_detected() {
    let pt = sample(40);
    let ct = encrypt(&KEY, &IV, &pt);
    let bad = &ct[..ct.len() - 5];
    match decrypt(&KEY, &IV, bad) {
        Err(Error::Codec(_)) => {},
        other => panic!("expected a codec error, got {:?}", other),
    }
}

#[test]
fn seek_matches_tail_of_full_decrypt() {
    let pt = sample(100);
    let ct = encrypt(&KEY, &IV, &pt);
    let full = decrypt(&KEY, &IV, &ct).unwrap();
    for k in 0..=pt.len() {
        let dec = AesSafe128Decryptor::new(&KEY);
        let mut r = AesReader::new(ct.clone(), dec, IV.to_vec());
        assert_eq!(r.seek(k).unwrap(), k as u64);
        let tail = r.read_to_end().unwrap();
        assert_eq!(tail, &full[k..], "seek to {} diverged", k);
    }
}

#[test]
fn seek_back_and_forth() {
    let pt = sample(64);
    let ct = encrypt(&KEY, &IV, &pt);
    let dec = AesSafe128Decryptor::new(&KEY);
    let mut r = AesReader::new(ct, dec, IV.to_vec());
    assert_eq!(r.seek(48).unwrap(), 48);
    assert_eq!(r.read_exact(16).unwrap(), &pt[48..64]);
    assert_eq!(r.seek(0).unwrap(), 0);
    assert_eq!(r.read_exact(8).unwrap(), &pt[0..8]);
    assert_eq!(r.seek(19).unwrap(), 19);
    assert_eq!(r.read_to_end().unwrap(), &pt[19..]);
}

#[test]
fn relative_and_end_relative_seeks() {
    let pt = sample(64);
    let ct = encrypt(&KEY, &IV, &pt);
    let ct_len = ct.len();
    let dec = AesSafe128Decryptor::new(&KEY);
    let mut r = AesReader::new(ct, dec, IV.to_vec());
    assert_eq!(r.source_len(), ct_len);
    assert_eq!(r.seek_from(SeekFrom::Start(32)).unwrap(), 32);
    assert_eq!(r.read_exact(16).unwrap(), &pt[32..48]);
    // the source cursor now includes the read-ahead; resolve against it
    let cur = r.position();
    assert_eq!(r.seek_from(SeekFrom::Current(-(cur as i64 - 8))).unwrap(), 8);
    assert_eq!(r.read_exact(8).unwrap(), &pt[8..16]);
    // the last 16 source bytes are pure padding here (64 = 4 full blocks)
    assert_eq!(r.seek_from(SeekFrom::End(-32)).unwrap(), (ct_len - 32) as u64);
    assert_eq!(r.read_to_end().unwrap(), &pt[48..]);
    match r.seek_from(SeekFrom::Current(-1_000_000)) {
        Err(Error::UnexpectedEof) => {},
        other => panic!("expected unexpected-eof, got {:?}", other),
    }
}

#[test]
fn seek_past_source_is_rejected() {
    let ct = encrypt(&KEY, &IV, &sample(10));
    let dec = AesSafe128Decryptor::new(&KEY);
    let mut r = AesReader::new(ct.clone(), dec, IV.to_vec());
    match r.seek(ct.len() + 64) {
        Err(Error::UnexpectedEof) => {},
        other => panic!("expected unexpected-eof, got {:?}", other),
    }
}

#[test]
fn write_after_finalize_is_rejected_and_finalize_is_idempotent() {
    let enc = AesSafe128Encryptor::new(&KEY);
    let mut w = AesWriter::new(Vec::new(), enc, IV.to_vec());
    w.write(b"payload").unwrap();
    w.finalize();
    match w.write(b"more") {
        Err(Error::Closed) => {},
        other => panic!("expected the closed error, got {:?}", other),
    }
    w.finalize();
    let ct = w.into_inner();
    assert_eq!(decrypt(&KEY, &IV, &ct).unwrap(), b"payload".to_vec());
}

#[test]
fn hello_world_with_zero_iv() {
    let key = [0u8; 16];
    let iv = [0u8; 16];
    let ct = encrypt(&key, &iv, b"HELLO WORLD");
    assert_eq!(ct.len(), 16);
    assert_eq!(decrypt(&key, &iv, &ct).unwrap(), b"HELLO WORLD".to_vec());
}

#[test]
fn two_full_blocks_grow_by_a_padding_block_and_seek_to_second() {
    let pt = sample(32);
    let ct = encrypt(&KEY, &IV, &pt);
    assert_eq!(ct.len(), 48);
    let dec = AesSafe128Decryptor::new(&KEY);
    let mut r = AesReader::new(ct, dec, IV.to_vec());
    assert_eq!(r.seek(16).unwrap(), 16);
    assert_eq!(r.read_exact(16).unwrap(), &pt[16..32]);
}

#[test]
fn reader_into_inner_returns_source() {
    let ct = encrypt(&KEY, &IV, &sample(20));
    let dec = AesSafe128Decryptor::new(&KEY);
    let mut r = AesReader::new(ct.clone(), dec, IV.to_vec());
    let _ = r.read(4).unwrap();
    assert_eq!(r.into_inner(), ct);
}

#[test]
fn writer_appends_to_existing_sink() {
    let prefix = b"header".to_vec();
    let enc = AesSafe128Encryptor::new(&KEY);
    let mut w = AesWriter::new(prefix.clone(), enc, IV.to_vec());
    w.write(b"secret body").unwrap();
    let out = w.into_inner();
    assert_eq!(&out[..prefix.len()], &prefix[..]);
    let ct = &out[prefix.len()..];
    assert_eq!(decrypt(&KEY, &IV, ct).unwrap(), b"secret body".to_vec());
}

#[test]
fn read_exact_reports_eof() {
    let ct = encrypt(&KEY, &IV, &sample(10));
    let dec = AesSafe128Decryptor::new(&KEY);
    let mut r = AesReader::new(ct, dec, IV.to_vec());
    match r.read_exact(11) {
        Err(Error::UnexpectedEof) => {},
        other => panic!("expected unexpected-eof, got {:?}", other),
    }
}

#[test]
fn wrong_iv_decrypts_to_different_bytes() {
    let pt = sample(48);
    let ct = encrypt(&KEY, &IV, &pt);
    let other_iv = [1u8; 16];
    match decrypt(&KEY, &other_iv, &ct) {
        Ok(back) => assert_ne!(&back[..16], &pt[..16]),
        Err(_) => {},
    }
}
