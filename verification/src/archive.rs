//! V11 content decryption: the content file is a zip archive whose entries
//! are decrypted one by one; an entry that fails decryption is carried over
//! unchanged, and a fresh archive with the same entry names is written out.
//!
//! The `zip` crate does the archive reading and writing; what an archive or a
//! writer holds is named by uninterpreted functions, and the per-entry logic
//! is verified against those names.

use std::io::Cursor;
use std::io::Write;
use vstd::prelude::*;

use crate::crypto::{decrypt_v11_file_content, spec_cbc_payload};
use crate::types::ProcessingError;

verus! {

use vstd::string::StringSliceAdditionalSpecFns;
use vstd::utf8::encode_utf8;

#[verifier::external_type_specification]
#[verifier::external_body]
#[verifier::reject_recursive_types(T)]
pub struct ExCursor<T>(Cursor<T>);

#[verifier::external_type_specification]
#[verifier::external_body]
#[verifier::reject_recursive_types(R)]
pub struct ExZipArchive<R>(zip::ZipArchive<R>);

/// The entries a parsed archive holds, in archive order: each entry's name,
/// and its raw bytes, or `None` for an entry whose data cannot be extracted
/// (corrupt compressed stream or local header).
pub uninterp spec fn archive_entries(ar: zip::ZipArchive<Cursor<Vec<u8>>>) -> Seq<
    (Seq<char>, Option<Seq<u8>>),
>;

/// What parsing a byte buffer as a zip archive yields: `None` when the bytes
/// are not a readable archive, otherwise the entry list. The result depends
/// on the bytes alone.
pub uninterp spec fn zip_parse(bytes: Seq<u8>) -> Option<Seq<(Seq<char>, Option<Seq<u8>>)>>;

/// Relies on `zip::ZipArchive::new` over an in-memory cursor: success and the
/// resulting entry list are a function of the bytes alone.
#[verifier::external_body]
fn zip_open(bytes: &Vec<u8>) -> (r: Result<zip::ZipArchive<Cursor<Vec<u8>>>, String>)
    ensures
        r is Ok <==> zip_parse(bytes@) is Some,
        r is Ok ==> archive_entries(r->Ok_0) == zip_parse(bytes@)->Some_0,
{
    match zip::ZipArchive::new(Cursor::new(bytes.clone())) {
        Ok(ar) => Ok(ar),
        Err(e) => Err(format!("{}", e)),
    }
}

/// Relies on `zip::ZipArchive::len`: the number of entries in the archive.
#[verifier::external_body]
fn zip_entry_count(ar: &zip::ZipArchive<Cursor<Vec<u8>>>) -> (r: usize)
    ensures
        r == archive_entries(*ar).len(),
{
    ar.len()
}

/// Relies on `zip::ZipArchive::by_index` and `std::io::Read::read_to_end`:
/// reading entry `i` yields that entry's name and raw bytes, fails exactly
/// when the entry's data cannot be extracted, and leaves the archive's
/// contents as they were.
#[verifier::external_body]
fn zip_entry_at(ar: &mut zip::ZipArchive<Cursor<Vec<u8>>>, i: usize) -> (r: Result<
    (String, Vec<u8>),
    String,
>)
    requires
        i < archive_entries(*old(ar)).len(),
    ensures
        archive_entries(*final(ar)) == archive_entries(*old(ar)),
        r is Ok <==> archive_entries(*old(ar))[i as int].1 is Some,
        r is Ok ==> r->Ok_0.0@ == archive_entries(*old(ar))[i as int].0 && r->Ok_0.1@
            == archive_entries(*old(ar))[i as int].1->Some_0,
{
    match ar.by_index(i) {
        Ok(mut f) => {
            let name = f.name().to_string();
            let mut data = Vec::new();
            match std::io::Read::read_to_end(&mut f, &mut data) {
                Ok(_) => Ok((name, data)),
                Err(e) => Err(format!("{}", e)),
            }
        },
        Err(e) => Err(format!("{}", e)),
    }
}

/// An in-memory archive writer. Verus cannot declare `zip::ZipWriter` itself
/// (its generic parameter carries `std::io` trait bounds), so the writer is
/// held opaquely and modelled by [`writer_entries`].
#[verifier::external_body]
pub struct ArchiveWriter {
    inner: zip::ZipWriter<Cursor<Vec<u8>>>,
}

/// The entries written to an archive writer so far, in order.
pub uninterp spec fn writer_entries(w: ArchiveWriter) -> Seq<(Seq<char>, Seq<u8>)>;

/// Relies on `zip::ZipWriter::new`: a fresh writer holds no entries.
#[verifier::external_body]
fn zip_writer_new() -> (r: ArchiveWriter)
    ensures
        writer_entries(r) == Seq::<(Seq<char>, Seq<u8>)>::empty(),
{
    ArchiveWriter { inner: zip::ZipWriter::new(Cursor::new(Vec::new())) }
}

/// The per-entry size under which the writer is guaranteed to succeed: far
/// enough below the 4 GiB zip32 size fields that deflate's bounded expansion
/// of incompressible data (well under one percent) cannot push an entry's
/// stored compressed size past them.
pub open spec fn writer_entry_size_limit() -> int {
    0xFF00_0000
}

/// Relies on `zip::ZipWriter::start_file` with deflate compression and
/// `std::io::Write::write_all`: on success, exactly the named entry with the
/// given bytes has been appended. The call succeeds whenever the name is not
/// already in the archive and its UTF-8 form fits the zip name field
/// (65535 bytes), and the entry's data — like every entry already written,
/// whose header is finalized here — is under the size limit: writes go to an
/// in-memory cursor and cannot fail, and `start_file` errs only on a
/// duplicate name, an oversized name, or oversized extra data (none is
/// passed).
#[verifier::external_body]
fn zip_add_entry(w: &mut ArchiveWriter, name: &str, data: &Vec<u8>) -> (r: Result<(), String>)
    ensures
        r is Ok ==> writer_entries(*final(w)) == writer_entries(*old(w)).push((name@, data@)),
        ((forall|j: int|
            0 <= j < writer_entries(*old(w)).len() ==> (#[trigger] writer_entries(*old(w))[j]).0
                != name@) && (forall|j: int|
            0 <= j < writer_entries(*old(w)).len() ==> (#[trigger] writer_entries(
                *old(w),
            )[j]).1.len() <= writer_entry_size_limit()) && name.spec_bytes().len() <= 65535
            && data@.len() <= writer_entry_size_limit()) ==> r is Ok,
{
    let options = zip::write::SimpleFileOptions::default().compression_method(
        zip::CompressionMethod::Deflated,
    );
    match w.inner.start_file(name, options) {
        Ok(()) => match w.inner.write_all(data) {
            Ok(()) => Ok(()),
            Err(e) => Err(format!("{}", e)),
        },
        Err(e) => Err(format!("{}", e)),
    }
}

/// Relies on `zip::ZipWriter::finish`: the finished buffer is a well-formed
/// archive that parses back to exactly the entries that were written. The
/// call succeeds whenever every written entry is under the size limit: the
/// central directory goes to the in-memory cursor, written names already
/// passed the name-field check, and only an entry whose compressed size
/// outgrows the zip32 field could fail the last header update.
#[verifier::external_body]
fn zip_writer_finish(w: ArchiveWriter) -> (r: Result<Vec<u8>, String>)
    ensures
        r is Ok ==> zip_parse(r->Ok_0@) == Some(
            Seq::new(
                writer_entries(w).len(),
                |i: int| (writer_entries(w)[i].0, Some(writer_entries(w)[i].1)),
            ),
        ),
        (forall|j: int|
            0 <= j < writer_entries(w).len() ==> (#[trigger] writer_entries(w)[j]).1.len()
                <= writer_entry_size_limit()) ==> r is Ok,
{
    match w.inner.finish() {
        Ok(cursor) => Ok(cursor.into_inner()),
        Err(e) => Err(format!("{}", e)),
    }
}

/// Whether the bytes already form a readable archive with at least one
/// entry. A non-v11 content file that passes this check is plaintext from a
/// prior run: an encrypted payload is never a well-formed archive.
pub fn is_plaintext_archive(bytes: &Vec<u8>) -> (r: bool)
    ensures
        r == (zip_parse(bytes@) matches Some(entries) && entries.len() > 0),
{
    match zip_open(bytes) {
        Ok(ar) => zip_entry_count(&ar) > 0,
        Err(_) => false,
    }
}

/// What one v11 entry becomes: its plaintext when it decrypts under the
/// content key, its original bytes otherwise.
pub open spec fn spec_decrypt_entry(data: Seq<u8>, key: Seq<u8>) -> Seq<u8> {
    match spec_cbc_payload(data, key) {
        Some(pt) => pt,
        None => data,
    }
}

/// What a whole v11 entry list becomes under the content key.
pub open spec fn spec_decrypted_entries(
    entries: Seq<(Seq<char>, Option<Seq<u8>>)>,
    key: Seq<u8>,
) -> Seq<(Seq<char>, Seq<u8>)> {
    Seq::new(entries.len(), |i: int| (entries[i].0, spec_decrypt_entry(entries[i].1->Some_0, key)))
}

/// The entry lists on which the archive rewrite is guaranteed to go
/// through: every entry's bytes extract, the (decoded) names are pairwise
/// distinct and fit the zip name field, and each entry is under the size
/// limit. A reader can hand out lists outside this set — two names that
/// decode to the same string, or a zip64-sized entry — and for those no
/// success is promised.
pub open spec fn spec_entries_writable(entries: Seq<(Seq<char>, Option<Seq<u8>>)>) -> bool {
    &&& forall|i: int| 0 <= i < entries.len() ==> (#[trigger] entries[i]).1 is Some
    &&& forall|i: int, j: int| 0 <= i < j < entries.len() ==> entries[i].0 != entries[j].0
    &&& forall|i: int|
        0 <= i < entries.len() ==> encode_utf8((#[trigger] entries[i]).0).len() <= 65535
    &&& forall|i: int|
        0 <= i < entries.len() ==> (#[trigger] entries[i]).1->Some_0.len()
            <= writer_entry_size_limit()
}

/// Decrypting a v11 entry list preserves the entry count and every entry
/// name, and an entry whose own decryption fails is carried over unchanged
/// rather than failing the whole book.
pub proof fn lemma_v11_preserves_entries(entries: Seq<(Seq<char>, Option<Seq<u8>>)>, key: Seq<u8>)
    ensures
        spec_decrypted_entries(entries, key).len() == entries.len(),
        forall|i: int|
            0 <= i < entries.len() ==> spec_decrypted_entries(entries, key)[i].0 == entries[i].0,
        forall|i: int|
            0 <= i < entries.len() && entries[i].1 is Some && spec_cbc_payload(
                entries[i].1->Some_0,
                key,
            ) is None ==> spec_decrypted_entries(entries, key)[i].1 == entries[i].1->Some_0,
{
}

/// Decrypts a v11 book: parses the content file as a zip archive, decrypts
/// each entry under the content key (keeping entries that fail), and writes a
/// fresh archive with the same entry names.
///
/// Bytes that are not a readable archive yield `DecryptionError`. On success
/// the result is an archive holding exactly the decrypted entries; and
/// success is owed whenever the parsed entries are writable — in particular,
/// one entry's failed decryption never fails the whole book.
pub fn decrypt_v11_book(content: &Vec<u8>, key: &[u8]) -> (r: Result<Vec<u8>, ProcessingError>)
    requires
        key@.len() == 16,
    ensures
        zip_parse(content@) is None ==> r is Err && r->Err_0 is DecryptionError,
        zip_parse(content@) is Some && spec_entries_writable(zip_parse(content@)->Some_0) ==> r
            is Ok,
        r is Ok ==> (zip_parse(content@) matches Some(entries) && (forall|i: int|
            0 <= i < entries.len() ==> entries[i].1 is Some) && zip_parse(r->Ok_0@) == Some(
            Seq::new(
                entries.len(),
                |i: int|
                    (
                        spec_decrypted_entries(entries, key@)[i].0,
                        Some(spec_decrypted_entries(entries, key@)[i].1),
                    ),
            ),
        )),
{
    let mut ar = match zip_open(content) {
        Ok(ar) => ar,
        Err(e) => {
            return Err(
                ProcessingError::DecryptionError(
                    String::from_str("failed to read v11 book as zip: ").concat(e.as_str()),
                ),
            );
        },
    };
    let ghost entries = archive_entries(ar);
    let n = zip_entry_count(&ar);
    let mut w = zip_writer_new();
    let mut i: usize = 0;
    while i < n
        invariant
            0 <= i <= n,
            n == entries.len(),
            key@.len() == 16,
            archive_entries(ar) == entries,
            zip_parse(content@) == Some(entries),
            forall|j: int| 0 <= j < i ==> entries[j].1 is Some,
            writer_entries(w) =~= spec_decrypted_entries(entries, key@).take(i as int),
            spec_entries_writable(entries) ==> forall|j: int|
                0 <= j < writer_entries(w).len() ==> (#[trigger] writer_entries(w)[j]).1.len()
                    <= writer_entry_size_limit(),
        decreases n - i,
    {
        let (name, data) = match zip_entry_at(&mut ar, i) {
            Ok(e) => e,
            Err(e) => {
                proof {
                    if spec_entries_writable(entries) {
                        assert(entries[i as int].1 is Some);
                        assert(false);
                    }
                }
                return Err(
                    ProcessingError::DecryptionError(
                        String::from_str("failed to read zip entry: ").concat(e.as_str()),
                    ),
                );
            },
        };
        let out = match decrypt_v11_file_content(data.as_slice(), key) {
            Ok(pt) => pt,
            Err(_) => data,
        };
        proof {
            if spec_entries_writable(entries) {
                assert(data@ == entries[i as int].1->Some_0);
                assert(out@.len() <= writer_entry_size_limit());
            }
        }
        let ghost prev = writer_entries(w);
        if let Err(e) = zip_add_entry(&mut w, name.as_str(), &out) {
            proof {
                if spec_entries_writable(entries) {
                    assert forall|j: int| 0 <= j < prev.len() implies (#[trigger] prev[j]).0
                        != name@ by {
                        assert(prev[j].0 == entries[j].0);
                        assert(entries[j].0 != entries[i as int].0);
                    }
                    assert(false);
                }
            }
            return Err(
                ProcessingError::DecryptionError(
                    String::from_str("failed to write zip entry: ").concat(e.as_str()),
                ),
            );
        }
        assert(writer_entries(w) =~= spec_decrypted_entries(entries, key@).take(i as int + 1));
        proof {
            if spec_entries_writable(entries) {
                assert(writer_entries(w) == prev.push((name@, out@)));
                assert forall|j: int|
                    0 <= j < writer_entries(w).len() implies (#[trigger] writer_entries(
                    w,
                )[j]).1.len() <= writer_entry_size_limit() by {
                    if j < prev.len() {
                        assert(writer_entries(w)[j] == prev[j]);
                    }
                }
            }
        }
        i += 1;
    }
    assert(writer_entries(w) =~= spec_decrypted_entries(entries, key@));
    let ghost written = writer_entries(w);
    match zip_writer_finish(w) {
        Ok(bytes) => {
            assert(Seq::new(written.len(), |i: int| (written[i].0, Some(written[i].1))) =~= Seq::new(
                entries.len(),
                |i: int|
                    (
                        spec_decrypted_entries(entries, key@)[i].0,
                        Some(spec_decrypted_entries(entries, key@)[i].1),
                    ),
            ));
            Ok(bytes)
        },
        Err(e) => {
            proof {
                if spec_entries_writable(entries) {
                    assert(false);
                }
            }
            Err(
                ProcessingError::DecryptionError(
                    String::from_str("failed to finish zip archive: ").concat(e.as_str()),
                ),
            )
        },
    }
}

} // verus!
