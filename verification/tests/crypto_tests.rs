use cbc::cipher::block_padding::Pkcs7;
use cbc::cipher::{BlockEncryptMut, KeyIvInit};
use m3u8_core::crypto::{
    decrypt_aes128_cbc, decrypt_segment_data, parse_iv, DecryptError, IvError, SegmentDecryptError,
};

fn hex(s: &str) -> Vec<u8> {
    (0..s.len()).step_by(2).map(|i| u8::from_str_radix(&s[i..i + 2], 16).unwrap()).collect()
}

fn encrypt_pkcs7(key: &[u8], iv: &[u8], msg: &[u8]) -> Vec<u8> {
    let mut buf = vec![0u8; msg.len() + 16];
    buf[..msg.len()].copy_from_slice(msg);
    let enc = cbc::Encryptor::<aes::Aes128>::new_from_slices(key, iv).unwrap();
    let n = enc.encrypt_padded_mut::<Pkcs7>(&mut buf, msg.len()).unwrap().len();
    buf.truncate(n);
    buf
}

#[test]
fn iv_from_media_sequence_is_big_endian() {
    let mut expected = vec![0u8; 16];
    expected[15] = 1;
    assert_eq!(parse_iv(None, 1), Ok(expected));
    assert_eq!(
        parse_iv(None, 0x0102_0304_0506_0708),
        Ok(vec![0, 0, 0, 0, 0, 0, 0, 0, 1, 2, 3, 4, 5, 6, 7, 8])
    );
    assert_eq!(
        parse_iv(None, u64::MAX),
        Ok(vec![0, 0, 0, 0, 0, 0, 0, 0, 255, 255, 255, 255, 255, 255, 255, 255])
    );
}

#[test]
fn iv_attribute_is_read_as_hex() {
    let bytes: Vec<u8> = (0u8..16).collect();
    assert_eq!(parse_iv(Some("0x000102030405060708090a0b0c0d0e0f"), 9), Ok(bytes.clone()));
    assert_eq!(parse_iv(Some("  0X000102030405060708090A0B0C0D0E0F\t"), 9), Ok(bytes.clone()));
    assert_eq!(parse_iv(Some("000102030405060708090a0b0c0d0e0f"), 9), Ok(bytes));
    // `u8::from_str_radix` reads a pair `+f` as 15.
    assert_eq!(parse_iv(Some("+f+f+f+f+f+f+f+f+f+f+f+f+f+f+f+f"), 0), Ok(vec![15u8; 16]));
}

#[test]
fn bad_iv_attributes_are_refused() {
    assert_eq!(parse_iv(Some("0x1234"), 0), Err(IvError::InvalidLength));
    assert_eq!(parse_iv(Some(""), 0), Err(IvError::InvalidLength));
    assert_eq!(parse_iv(Some("zz0102030405060708090a0b0c0d0e0f"), 0), Err(IvError::InvalidHex));
    assert_eq!(parse_iv(Some("0-0102030405060708090a0b0c0d0e0f"), 0), Err(IvError::InvalidHex));
    // 32 bytes of UTF-8 but not 32 characters.
    assert_eq!(parse_iv(Some("é0102030405060708090a0b0c0d0e0f"), 0), Err(IvError::InvalidHex));
    // 32 characters but more than 32 bytes.
    assert_eq!(parse_iv(Some("é00102030405060708090a0b0c0d0e0f"), 0), Err(IvError::InvalidLength));
}

#[test]
fn decrypts_a_known_cbc_block_without_padding() {
    let key = hex("2b7e151628aed2a6abf7158809cf4f3c");
    let iv = hex("000102030405060708090a0b0c0d0e0f");
    let ciphertext = hex("7649abac8119b246cee98e9b12e9197d");
    let plaintext = hex("6bc1bee22e409f96e93d7e117393172a");
    assert_eq!(decrypt_aes128_cbc(&ciphertext, &key, &iv), Ok(plaintext));
}

#[test]
fn decrypts_padded_data() {
    let key = [7u8; 16];
    let iv = [9u8; 16];
    let msg = b"segment bytes that are not block aligned";
    let data = encrypt_pkcs7(&key, &iv, msg);
    assert_eq!(decrypt_aes128_cbc(&data, &key, &iv), Ok(msg.to_vec()));
}

#[test]
fn decryption_errors() {
    assert_eq!(decrypt_aes128_cbc(&[0u8; 16], &[0u8; 15], &[0u8; 16]), Err(DecryptError::InvalidKeyLength));
    assert_eq!(decrypt_aes128_cbc(&[0u8; 16], &[0u8; 16], &[0u8; 8]), Err(DecryptError::InvalidKeyLength));
    assert_eq!(decrypt_aes128_cbc(&[0u8; 17], &[0u8; 16], &[0u8; 16]), Err(DecryptError::Failed));
    assert_eq!(decrypt_aes128_cbc(&[], &[0u8; 16], &[0u8; 16]), Ok(Vec::new()));
}

#[test]
fn segments_decrypt_with_their_key_and_iv() {
    let key = [3u8; 16];
    let mut iv = [0u8; 16];
    iv[15] = 42;
    let msg = b"hello world";
    let data = encrypt_pkcs7(&key, &iv, msg);
    assert_eq!(decrypt_segment_data(&data, &key, None, 42), Ok(msg.to_vec()));
    assert_eq!(
        decrypt_segment_data(&data, &key, Some("0x0000000000000000000000000000002a"), 7),
        Ok(msg.to_vec())
    );
    assert_eq!(decrypt_segment_data(&data, &key[..8], None, 42), Err(SegmentDecryptError::InvalidKeyLength));
    assert_eq!(
        decrypt_segment_data(&data, &key, Some("0x12"), 42),
        Err(SegmentDecryptError::InvalidIv(IvError::InvalidLength))
    );
    assert_eq!(
        decrypt_segment_data(&data[..5], &key, None, 42),
        Err(SegmentDecryptError::Decrypt(DecryptError::Failed))
    );
}

#[test]
fn only_sixteen_byte_keys_are_usable() {
    assert!(m3u8_core::crypto::is_aes128_key(&[0u8; 16]));
    assert!(!m3u8_core::crypto::is_aes128_key(&[0u8; 15]));
    assert!(!m3u8_core::crypto::is_aes128_key(&[0u8; 32]));
    assert!(!m3u8_core::crypto::is_aes128_key(&[]));
}

#[test]
fn any_iv_written_in_hex_reads_back() {
    let mut x: u64 = 0x2545_F491_4F6C_DD1D;
    for round in 0..200 {
        let mut bytes = Vec::new();
        let mut text = String::new();
        for _ in 0..16 {
            x ^= x << 13;
            x ^= x >> 7;
            x ^= x << 17;
            let b = (x & 0xff) as u8;
            bytes.push(b);
            let pair = if x & 0x100 == 0 { format!("{:02x}", b) } else { format!("{:02X}", b) };
            text.push_str(&pair);
        }
        let prefix = ["", "0x", "0X"][round % 3];
        let written = format!("{} {}{}\t\n", " ".repeat(round % 4), prefix, text);
        assert_eq!(parse_iv(Some(&written), x), Ok(bytes.clone()), "{}", written);
        assert_eq!(parse_iv(Some(&written), 0), Ok(bytes));
    }
}
