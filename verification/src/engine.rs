//! The per-book decryption pipeline: derive the content key from the key
//! file, then decrypt the content under the scheme the book's record names.

use vstd::prelude::*;

use crate::archive::{decrypt_v11_book, spec_decrypted_entries, spec_entries_writable, zip_parse};
use crate::crypto::{
    decrypt_v1_book, extract_key_from_dat, spec_cbc_payload, spec_content_key, spec_key_plaintext,
    spec_key_text_ok,
};
use crate::types::{DrmVersion, ProcessingError};

verus! {

/// Decrypts one book: `dat` is the key file's bytes, `content` the content
/// file's bytes, `device_id` the device identifier's encoded bytes.
///
/// Key derivation fails as `extract_key_from_dat` says; with the key in
/// hand, a v1 book decrypts as one CBC stream, and a v11 book entry by
/// entry with failing entries carried over unchanged.
pub fn decrypt_book(dat: &[u8], content: &Vec<u8>, device_id: &[u8], drm: DrmVersion) -> (r:
    Result<Vec<u8>, ProcessingError>)
    ensures
        spec_key_plaintext(dat@, device_id@) is None ==> r is Err && r->Err_0 is DecryptionError,
        spec_key_plaintext(dat@, device_id@) matches Some(pt) ==> {
            &&& !spec_key_text_ok(pt) ==> r is Err && r->Err_0 is KeyExtractionError
            &&& spec_key_text_ok(pt) && drm is V1 ==> match r {
                Ok(out) => spec_cbc_payload(content@, spec_content_key(pt)) == Some(out@),
                Err(e) => spec_cbc_payload(content@, spec_content_key(pt)) is None && e
                    is DecryptionError,
            }
            &&& spec_key_text_ok(pt) && drm is V11 && zip_parse(content@) is None ==> r is Err
                && r->Err_0 is DecryptionError
            &&& spec_key_text_ok(pt) && drm is V11 && zip_parse(content@) is Some
                && spec_entries_writable(zip_parse(content@)->Some_0) ==> r is Ok
            &&& spec_key_text_ok(pt) && drm is V11 && r is Ok ==> (zip_parse(content@) matches Some(
                entries,
            ) && (forall|i: int| 0 <= i < entries.len() ==> entries[i].1 is Some) && zip_parse(
                r->Ok_0@,
            ) == Some(
                Seq::new(
                    entries.len(),
                    |i: int|
                        (
                            spec_decrypted_entries(entries, spec_content_key(pt))[i].0,
                            Some(spec_decrypted_entries(entries, spec_content_key(pt))[i].1),
                        ),
                ),
            ))
        },
{
    let key = match extract_key_from_dat(dat, device_id) {
        Ok(key) => key,
        Err(e) => {
            return Err(e);
        },
    };
    match drm {
        DrmVersion::V1 => decrypt_v1_book(content.as_slice(), key.as_slice()),
        DrmVersion::V11 => decrypt_v11_book(content, key.as_slice()),
    }
}

} // verus!
