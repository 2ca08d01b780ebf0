use aes::cipher::block_padding::Pkcs7;
use aes::cipher::{BlockEncryptMut, KeyIvInit};
use std::io::Write;

use ridiculous::crypto::{decrypt_v1_book, decrypt_v11_file_content, extract_key_from_dat};
use ridiculous::engine::decrypt_book;
use ridiculous::types::{DrmVersion, ProcessingError};

fn encrypt(key: &[u8; 16], iv: &[u8; 16], plaintext: &[u8]) -> Vec<u8> {
    cbc::Encryptor::<aes::Aes128>::new(key.into(), iv.into())
        .encrypt_padded_vec_mut::<Pkcs7>(plaintext)
}

/// Builds a key file: the IV, then the key-file text encrypted under the
/// device-derived key.
fn make_dat(device_id: &str, iv: &[u8; 16], text: &str) -> Vec<u8> {
    let mut device_key = [0u8; 16];
    let n = device_id.len().min(16);
    device_key[..n].copy_from_slice(&device_id.as_bytes()[..n]);
    let mut dat = iv.to_vec();
    dat.extend_from_slice(&encrypt(&device_key, iv, text.as_bytes()));
    dat
}

const DEVICE_ID: &str = "12345678-1234-1234-1234-123456789012";

/// 100 single-byte characters; positions 68..84 hold the content key.
const KEY_TEXT: &str =
    "0123456789012345678901234567890123456789012345678901234567890123ABCDEFGHIJKLMNOP9876543210abcdef";

#[test]
fn test_short_key_file_fails_without_panic() {
    for n in 0..32 {
        let dat = vec![7u8; n];
        match extract_key_from_dat(&dat, DEVICE_ID.as_bytes()) {
            Err(ProcessingError::DecryptionError(_)) => {}
            other => panic!("expected DecryptionError for {} bytes, got {:?}", n, other),
        }
    }
}

#[test]
fn test_key_derivation_is_deterministic() {
    let iv = [3u8; 16];
    let dat = make_dat(DEVICE_ID, &iv, KEY_TEXT);
    let first = extract_key_from_dat(&dat, DEVICE_ID.as_bytes()).unwrap();
    let second = extract_key_from_dat(&dat, DEVICE_ID.as_bytes()).unwrap();
    assert_eq!(first, second);
    // character positions 68..84 of the decrypted text, as raw bytes
    assert_eq!(first, b"EFGHIJKLMNOP9876".to_vec());
}

#[test]
fn test_key_extraction_rejects_short_text() {
    let iv = [5u8; 16];
    let dat = make_dat(DEVICE_ID, &iv, "way too short");
    match extract_key_from_dat(&dat, DEVICE_ID.as_bytes()) {
        Err(ProcessingError::KeyExtractionError(_)) => {}
        other => panic!("expected KeyExtractionError, got {:?}", other),
    }
}

#[test]
fn test_key_extraction_rejects_invalid_utf8() {
    let iv = [9u8; 16];
    let mut device_key = [0u8; 16];
    let n = DEVICE_ID.len().min(16);
    device_key[..n].copy_from_slice(&DEVICE_ID.as_bytes()[..n]);
    let mut body = vec![0xFFu8; 90];
    body[0] = 0xFE;
    let mut dat = iv.to_vec();
    dat.extend_from_slice(&encrypt(&device_key, &iv, &body));
    match extract_key_from_dat(&dat, DEVICE_ID.as_bytes()) {
        Err(ProcessingError::KeyExtractionError(_)) => {}
        other => panic!("expected KeyExtractionError, got {:?}", other),
    }
}

#[test]
fn test_wrong_device_id_fails_key_derivation() {
    let iv = [3u8; 16];
    let dat = make_dat(DEVICE_ID, &iv, KEY_TEXT);
    let result = extract_key_from_dat(&dat, b"another-device-id-entirely-00000000");
    // with the wrong key the padding is almost surely wrong; if it happens
    // to unpad, the text checks still run -- either way, never a panic
    if let Ok(key) = result {
        assert_eq!(key.len(), 16);
    }
}

#[test]
fn test_v1_round_trip() {
    let key = *b"0123456789abcdef";
    let iv = [11u8; 16];
    let plaintext = b"chapter one: it was a dark and stormy night".to_vec();
    let mut content = iv.to_vec();
    content.extend_from_slice(&encrypt(&key, &iv, &plaintext));
    let decrypted = decrypt_v1_book(&content, &key).unwrap();
    assert_eq!(decrypted, plaintext);
}

#[test]
fn test_v1_rejects_tiny_file() {
    let key = *b"0123456789abcdef";
    match decrypt_v1_book(&[1, 2, 3], &key) {
        Err(ProcessingError::DecryptionError(_)) => {}
        other => panic!("expected DecryptionError, got {:?}", other),
    }
}

#[test]
fn test_v11_entry_round_trip() {
    let key = *b"fedcba9876543210";
    let iv = [42u8; 16];
    let plaintext = b"<html>page</html>".to_vec();
    let mut entry = iv.to_vec();
    entry.extend_from_slice(&encrypt(&key, &iv, &plaintext));
    assert_eq!(decrypt_v11_file_content(&entry, &key).unwrap(), plaintext);
    assert!(decrypt_v11_file_content(&entry[..10], &key).is_err());
}

fn make_zip(entries: &[(&str, &[u8])]) -> Vec<u8> {
    let mut writer = zip::ZipWriter::new(std::io::Cursor::new(Vec::new()));
    let options = zip::write::SimpleFileOptions::default()
        .compression_method(zip::CompressionMethod::Deflated);
    for (name, data) in entries {
        writer.start_file(*name, options).unwrap();
        writer.write_all(data).unwrap();
    }
    writer.finish().unwrap().into_inner()
}

fn read_zip(bytes: &[u8]) -> Vec<(String, Vec<u8>)> {
    let mut archive = zip::ZipArchive::new(std::io::Cursor::new(bytes.to_vec())).unwrap();
    let mut out = Vec::new();
    for i in 0..archive.len() {
        let mut file = archive.by_index(i).unwrap();
        let name = file.name().to_string();
        let mut data = Vec::new();
        std::io::Read::read_to_end(&mut file, &mut data).unwrap();
        out.push((name, data));
    }
    out
}

#[test]
fn test_v11_preserves_names_and_keeps_failing_entries() {
    let key = *b"0123456789abcdef";
    let iv = [1u8; 16];
    let secret = b"the encrypted chapter".to_vec();
    let mut encrypted_entry = iv.to_vec();
    encrypted_entry.extend_from_slice(&encrypt(&key, &iv, &secret));
    // "mimetype" is plain text that is not DRM-wrapped: its decryption fails
    // and it must be carried over unchanged
    let plain_entry = b"application/epub+zip".to_vec();
    let input = make_zip(&[
        ("OEBPS/chapter1.xhtml", &encrypted_entry),
        ("mimetype", &plain_entry),
    ]);

    let output = ridiculous::archive::decrypt_v11_book(&input, &key).unwrap();
    let entries = read_zip(&output);
    assert_eq!(entries.len(), 2);
    assert_eq!(entries[0].0, "OEBPS/chapter1.xhtml");
    assert_eq!(entries[1].0, "mimetype");
    assert_eq!(entries[0].1, secret);
    assert_eq!(entries[1].1, plain_entry);
}

#[test]
fn test_v11_rejects_non_archive() {
    let key = *b"0123456789abcdef";
    match ridiculous::archive::decrypt_v11_book(&vec![0u8; 40], &key) {
        Err(ProcessingError::DecryptionError(_)) => {}
        other => panic!("expected DecryptionError, got {:?}", other),
    }
}

#[test]
fn test_plaintext_archive_detection() {
    let zip_bytes = make_zip(&[("mimetype", b"application/epub+zip")]);
    assert!(ridiculous::archive::is_plaintext_archive(&zip_bytes));
    assert!(!ridiculous::archive::is_plaintext_archive(&vec![0u8; 64]));
    let empty_zip = make_zip(&[]);
    assert!(!ridiculous::archive::is_plaintext_archive(&empty_zip));
}

#[test]
fn test_decrypt_book_dispatches_on_scheme() {
    let iv = [3u8; 16];
    let dat = make_dat(DEVICE_ID, &iv, KEY_TEXT);
    let content_key = *b"EFGHIJKLMNOP9876";

    // v1: one stream
    let civ = [8u8; 16];
    let plaintext = b"whole book".to_vec();
    let mut v1_content = civ.to_vec();
    v1_content.extend_from_slice(&encrypt(&content_key, &civ, &plaintext));
    let out = decrypt_book(&dat, &v1_content, DEVICE_ID.as_bytes(), DrmVersion::V1).unwrap();
    assert_eq!(out, plaintext);

    // v11: per-entry
    let mut entry = civ.to_vec();
    entry.extend_from_slice(&encrypt(&content_key, &civ, &plaintext));
    let v11_content = make_zip(&[("ch1", &entry)]);
    let out = decrypt_book(&dat, &v11_content, DEVICE_ID.as_bytes(), DrmVersion::V11).unwrap();
    assert_eq!(read_zip(&out), vec![("ch1".to_string(), plaintext)]);
}

#[test]
fn test_mismatched_credentials_recorded_without_aborting() {
    // a key file of 40 arbitrary bytes next to a valid one-entry v11 archive:
    // decryption with a device id that never matched must fail, the batch
    // records the failure, and the next book still processes
    let dat: Vec<u8> = (0..40u8).map(|b| b.wrapping_mul(37).wrapping_add(11)).collect();
    let v11_content = make_zip(&[("ch1", b"some entry")]);
    let result = decrypt_book(&dat, &v11_content, b"not-the-right-device", DrmVersion::V11);
    // 40 bytes leave a 24-byte body, which is not a whole number of cipher
    // blocks: key derivation always fails with a DecryptionError
    let err = match result {
        Err(e @ ProcessingError::DecryptionError(_)) => e,
        other => panic!("expected DecryptionError, got {:?}", other),
    };

    let mut state = ridiculous::state::ProcessingState::default();
    state.record_result("A".to_string(), Err(err.message()));
    state.record_result("B".to_string(), Ok(()));
    assert_eq!(state.failed.len(), 1);
    assert_eq!(state.failed[0].0, "A");
    assert_eq!(state.completed, vec!["B".to_string()]);
}
