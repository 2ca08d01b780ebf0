//! Key derivation and AES-128-CBC content decryption.
//!
//! The cipher itself comes from the `aes` and `cbc` crates; its result is
//! named by the uninterpreted function [`aes_cbc_plain`], and everything
//! around the cipher call is verified against that name.

use aes::cipher::block_padding::Pkcs7;
use aes::cipher::{BlockDecryptMut, KeyIvInit};
use vstd::prelude::*;

use crate::types::ProcessingError;

verus! {

use vstd::slice::{slice_subrange, slice_to_vec};
use vstd::string::StringSliceAdditionalSpecFns;
use vstd::utf8::{is_char_boundary, valid_utf8};

/// What AES-128-CBC decryption with PKCS#7 unpadding yields for a given key,
/// initialization vector and ciphertext: `Some(plaintext)` when the input
/// decrypts to a well-padded buffer, `None` otherwise. The result depends on
/// the three arguments alone.
pub uninterp spec fn aes_cbc_plain(key: Seq<u8>, iv: Seq<u8>, ct: Seq<u8>) -> Option<Seq<u8>>;

/// The decryption outcome with its one structural failure made explicit:
/// a ciphertext that is empty or not a whole number of 16-byte blocks never
/// decrypts, whatever the key and IV.
pub open spec fn spec_aes_cbc_decrypt(key: Seq<u8>, iv: Seq<u8>, ct: Seq<u8>) -> Option<Seq<u8>> {
    if ct.len() == 0 || ct.len() % 16 != 0 {
        None
    } else {
        aes_cbc_plain(key, iv, ct)
    }
}

/// Relies on `cbc::Decryptor::<aes::Aes128>` and
/// `cipher::BlockDecryptMut::decrypt_padded_vec_mut::<Pkcs7>`: the outcome is
/// a function of key, IV and ciphertext alone; the call errs whenever the
/// ciphertext length is zero or not a multiple of the 16-byte block size,
/// and unpadding always removes at least one byte.
#[verifier::external_body]
fn aes128_cbc_decrypt(key: &[u8], iv: &[u8], ciphertext: &[u8]) -> (r: Result<Vec<u8>, ()>)
    requires
        key@.len() == 16,
        iv@.len() == 16,
    ensures
        r is Ok <==> spec_aes_cbc_decrypt(key@, iv@, ciphertext@) is Some,
        r is Ok ==> r->Ok_0@ == aes_cbc_plain(key@, iv@, ciphertext@)->Some_0,
        r is Ok ==> r->Ok_0@.len() + 1 <= ciphertext@.len(),
{
    let dec = cbc::Decryptor::<aes::Aes128>::new_from_slices(key, iv).unwrap();
    match dec.decrypt_padded_vec_mut::<Pkcs7>(ciphertext) {
        Ok(v) => Ok(v),
        Err(_) => Err(()),
    }
}

/// Relies on `core::str::from_utf8`: it succeeds exactly on valid UTF-8, and
/// the returned `str` views the same bytes.
#[verifier::external_body]
fn bytes_as_str(bytes: &[u8]) -> (r: Option<&str>)
    ensures
        r is Some <==> valid_utf8(bytes@),
        r is Some ==> r.unwrap().spec_bytes() == bytes@,
{
    core::str::from_utf8(bytes).ok()
}

/// The 16-byte AES key derived from a device identifier's encoded bytes:
/// the first 16 bytes, zero-padded when the identifier is shorter.
pub open spec fn spec_device_key(device_id: Seq<u8>) -> Seq<u8> {
    Seq::new(
        16,
        |i: int|
            if i < device_id.len() {
                device_id[i]
            } else {
                0u8
            },
    )
}

/// Builds the device-derived AES key buffer.
pub fn device_key(device_id: &[u8]) -> (r: Vec<u8>)
    ensures
        r@ == spec_device_key(device_id@),
{
    let mut key: Vec<u8> = Vec::new();
    let n: usize = if device_id.len() < 16 {
        device_id.len()
    } else {
        16
    };
    let mut i: usize = 0;
    while i < n
        invariant
            0 <= i <= n <= 16,
            n <= device_id@.len(),
            n == if device_id@.len() < 16 {
                device_id@.len() as int
            } else {
                16
            },
            key@.len() == i,
            forall|j: int| 0 <= j < i ==> key@[j] == device_id@[j],
        decreases n - i,
    {
        key.push(device_id[i]);
        i += 1;
    }
    while i < 16
        invariant
            n <= i <= 16,
            n == if device_id@.len() < 16 {
                device_id@.len() as int
            } else {
                16
            },
            n <= device_id@.len(),
            key@.len() == i,
            forall|j: int| 0 <= j < n ==> key@[j] == device_id@[j],
            forall|j: int| n <= j < i ==> key@[j] == 0u8,
        decreases 16 - i,
    {
        key.push(0u8);
        i += 1;
    }
    assert(key@ =~= spec_device_key(device_id@));
    key
}

/// What decrypting a buffer whose first 16 bytes are the IV yields:
/// `None` when the buffer is too short to hold an IV or the cipher fails.
pub open spec fn spec_cbc_payload(data: Seq<u8>, key: Seq<u8>) -> Option<Seq<u8>> {
    if data.len() < 16 {
        None
    } else {
        spec_aes_cbc_decrypt(key, data.subrange(0, 16), data.subrange(16, data.len() as int))
    }
}

/// The plaintext of the key file: its first 16 bytes are the IV, the rest is
/// decrypted under the device-derived key. `None` when the file is shorter
/// than 32 bytes or the cipher fails.
pub open spec fn spec_key_plaintext(dat: Seq<u8>, device_id: Seq<u8>) -> Option<Seq<u8>> {
    if dat.len() < 32 {
        None
    } else {
        spec_cbc_payload(dat, spec_device_key(device_id))
    }
}

/// Whether the decrypted key-file text is well-formed: valid UTF-8, at least
/// 84 bytes, with character boundaries at offsets 68 and 84 so that the key
/// slice can be taken as it always has been.
pub open spec fn spec_key_text_ok(pt: Seq<u8>) -> bool {
    valid_utf8(pt) && pt.len() >= 84 && is_char_boundary(pt, 68) && is_char_boundary(pt, 84)
}

/// The 16-byte content key embedded in a well-formed key-file plaintext.
pub open spec fn spec_content_key(pt: Seq<u8>) -> Seq<u8> {
    pt.subrange(68, 84)
}

/// Derives the book's 16-byte content key from the key file's bytes and the
/// device identifier's encoded bytes.
///
/// A key file shorter than 32 bytes, or one whose body does not decrypt under
/// the device-derived key, yields `DecryptionError`; a decrypted text that is
/// not valid UTF-8, is shorter than 84 bytes, or cannot be sliced at offsets
/// 68 and 84 yields `KeyExtractionError`.
pub fn extract_key_from_dat(dat: &[u8], device_id: &[u8]) -> (r: Result<
    Vec<u8>,
    ProcessingError,
>)
    ensures
        match spec_key_plaintext(dat@, device_id@) {
            Some(pt) => {
                if spec_key_text_ok(pt) {
                    r is Ok && r->Ok_0@ == spec_content_key(pt)
                } else {
                    r is Err && r->Err_0 is KeyExtractionError
                }
            },
            None => r is Err && r->Err_0 is DecryptionError,
        },
        dat@.len() < 32 ==> r is Err && r->Err_0 is DecryptionError,
{
    if dat.len() < 32 {
        return Err(
            ProcessingError::DecryptionError(String::from_str("key file too small")),
        );
    }
    let key = device_key(device_id);
    let iv = slice_subrange(dat, 0, 16);
    let ct = slice_subrange(dat, 16, dat.len());
    let pt = match aes128_cbc_decrypt(key.as_slice(), iv, ct) {
        Ok(pt) => pt,
        Err(_) => {
            return Err(
                ProcessingError::DecryptionError(
                    String::from_str("key file decryption failed: wrong device id?"),
                ),
            );
        },
    };
    let text = match bytes_as_str(pt.as_slice()) {
        Some(text) => text,
        None => {
            return Err(
                ProcessingError::KeyExtractionError(
                    String::from_str("invalid UTF-8 in decrypted key data"),
                ),
            );
        },
    };
    if text.len() < 84 {
        return Err(
            ProcessingError::KeyExtractionError(String::from_str("decrypted key data too short")),
        );
    }
    if !text.is_char_boundary(68) || !text.is_char_boundary(84) {
        return Err(
            ProcessingError::KeyExtractionError(
                String::from_str("key slice is not on character boundaries"),
            ),
        );
    }
    let content_key = slice_to_vec(slice_subrange(pt.as_slice(), 68, 84));
    Ok(content_key)
}

/// Decrypts a v1 book: the content file's first 16 bytes are the IV, the
/// remainder decrypts under the content key in one stream.
pub fn decrypt_v1_book(content: &[u8], key: &[u8]) -> (r: Result<Vec<u8>, ProcessingError>)
    requires
        key@.len() == 16,
    ensures
        match r {
            Ok(pt) => spec_cbc_payload(content@, key@) == Some(pt@),
            Err(e) => spec_cbc_payload(content@, key@) is None && e is DecryptionError,
        },
{
    if content.len() < 16 {
        return Err(
            ProcessingError::DecryptionError(String::from_str("book file too small")),
        );
    }
    let iv = slice_subrange(content, 0, 16);
    let ct = slice_subrange(content, 16, content.len());
    match aes128_cbc_decrypt(key, iv, ct) {
        Ok(pt) => Ok(pt),
        Err(_) => Err(
            ProcessingError::DecryptionError(
                String::from_str("book decryption failed: wrong device id for this book?"),
            ),
        ),
    }
}

/// Decrypts one v11 archive entry; the entry's first 16 bytes are its IV.
/// A decrypted entry is always shorter than the encrypted one: the IV goes
/// and unpadding removes at least one byte.
pub fn decrypt_v11_file_content(encrypted: &[u8], key: &[u8]) -> (r: Result<
    Vec<u8>,
    ProcessingError,
>)
    requires
        key@.len() == 16,
    ensures
        match r {
            Ok(pt) => spec_cbc_payload(encrypted@, key@) == Some(pt@),
            Err(e) => spec_cbc_payload(encrypted@, key@) is None && e is DecryptionError,
        },
        r matches Ok(pt) ==> pt@.len() + 17 <= encrypted@.len(),
{
    if encrypted.len() < 16 {
        return Err(
            ProcessingError::DecryptionError(String::from_str("entry too small for decryption")),
        );
    }
    let iv = slice_subrange(encrypted, 0, 16);
    let ct = slice_subrange(encrypted, 16, encrypted.len());
    match aes128_cbc_decrypt(key, iv, ct) {
        Ok(pt) => Ok(pt),
        Err(_) => Err(
            ProcessingError::DecryptionError(String::from_str("entry decryption failed")),
        ),
    }
}

/// A key file whose body is not a whole number of cipher blocks can never
/// decrypt: key derivation fails for it whatever the device identifier. In
/// particular a 40-byte key file (24 bytes after the IV) always fails.
pub proof fn lemma_misaligned_key_file_fails(dat: Seq<u8>, device_id: Seq<u8>)
    requires
        dat.len() < 32 || (dat.len() - 16) % 16 != 0,
    ensures
        spec_key_plaintext(dat, device_id) is None,
{
}

/// Key derivation is a function of the key-file bytes and the device
/// identifier alone: equal inputs always yield the same derived key.
pub proof fn lemma_key_derivation_deterministic(
    dat1: Seq<u8>,
    dev1: Seq<u8>,
    dat2: Seq<u8>,
    dev2: Seq<u8>,
)
    requires
        dat1 == dat2,
        dev1 == dev2,
    ensures
        spec_key_plaintext(dat1, dev1) == spec_key_plaintext(dat2, dev2),
        spec_key_plaintext(dat1, dev1) matches Some(pt) ==> spec_content_key(pt)
            == spec_content_key(spec_key_plaintext(dat2, dev2)->Some_0),
{
}

} // verus!
