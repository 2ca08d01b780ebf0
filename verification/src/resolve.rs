//! Book resolution: turning a validated book directory into a `BookInfo`.
//!
//! The content filename is resolved by preferring a version-marked name
//! (`{id}.v<N>.{epub|pdf}`) over a plain one (`{id}.{epub|pdf}`) with the
//! same stem, because a plain file may be stale plaintext from an earlier
//! run. A version-marked name means the v11 scheme; a plain name means v1.

use vstd::prelude::*;

use crate::discovery::{last_dot, spec_extension, string_bytes, FileEntry};
use crate::types::{
    epub_bytes, eq_lowered, lower_bytes, pdf_bytes, spec_format_from_extension, BookFormat,
    BookInfo, DrmVersion, ProcessingError,
};

verus! {

use vstd::slice::slice_subrange;
use vstd::string::StrSliceExecFns;
use vstd::utf8::encode_utf8;

/// Whether a filename's remainder after the book id is a plain content
/// suffix: a dot followed by one of the two recognized extensions.
pub open spec fn spec_plain_suffix(rem: Seq<u8>) -> bool {
    rem.len() > 1 && rem[0] == 46 && (lower_bytes(rem.subrange(1, rem.len() as int))
        == epub_bytes() || lower_bytes(rem.subrange(1, rem.len() as int)) == pdf_bytes())
}

/// Whether a filename's remainder after the book id is a version-marked
/// content suffix: `.v`, one or more digits, a dot, and a recognized
/// extension.
pub open spec fn spec_marked_suffix(rem: Seq<u8>) -> bool {
    rem.len() >= 4 && rem[0] == 46 && rem[1] == 118 && exists|k: int|
        #![trigger rem.subrange(k + 1, rem.len() as int)]
        3 <= k < rem.len() && rem[k] == 46 && (forall|j: int|
            2 <= j < k ==> 48 <= #[trigger] rem[j] <= 57) && (lower_bytes(
            rem.subrange(k + 1, rem.len() as int),
        ) == epub_bytes() || lower_bytes(rem.subrange(k + 1, rem.len() as int)) == pdf_bytes())
}

fn bytes_eq(a: &[u8], b: &[u8]) -> (r: bool)
    ensures
        r == (a@ == b@),
{
    if a.len() != b.len() {
        return false;
    }
    let n = a.len();
    let mut i: usize = 0;
    while i < n
        invariant
            0 <= i <= n,
            n == a@.len() == b@.len(),
            forall|j: int| 0 <= j < i ==> a@[j] == b@[j],
        decreases n - i,
    {
        if a[i] != b[i] {
            return false;
        }
        i += 1;
    }
    assert(a@ =~= b@);
    true
}

fn is_plain_suffix(rem: &[u8]) -> (r: bool)
    ensures
        r == spec_plain_suffix(rem@),
{
    if rem.len() < 2 || rem[0] != 46 {
        return false;
    }
    let ext = slice_subrange(rem, 1, rem.len());
    eq_lowered(ext, &[101u8, 112u8, 117u8, 98u8]) || eq_lowered(ext, &[112u8, 100u8, 102u8])
}

fn is_marked_suffix(rem: &[u8]) -> (r: bool)
    ensures
        r == spec_marked_suffix(rem@),
{
    let n = rem.len();
    if n < 4 || rem[0] != 46 || rem[1] != 118 {
        return false;
    }
    // scan the digit run that must follow ".v"
    let mut k: usize = 2;
    while k < n && 48 <= rem[k] && rem[k] <= 57
        invariant
            2 <= k <= n,
            n == rem@.len(),
            forall|j: int| 2 <= j < k ==> 48 <= #[trigger] rem@[j] <= 57,
        decreases n - k,
    {
        k += 1;
    }
    if k == 2 {
        // no digit after ".v": any witness would need position 2 to be a digit
        assert(!spec_marked_suffix(rem@)) by {
            assert forall|kk: int|
                3 <= kk < rem@.len() && rem@[kk] == 46 implies !(forall|j: int|
                2 <= j < kk ==> 48 <= #[trigger] rem@[j] <= 57) by {
                assert(!(48 <= rem@[2] <= 57));
            }
        }
        return false;
    }
    if k == n || rem[k] != 46 {
        // the digit run is not followed by a dot: no witness position works
        assert(!spec_marked_suffix(rem@)) by {
            assert forall|kk: int|
                3 <= kk < rem@.len() && rem@[kk] == 46 implies !(forall|j: int|
                2 <= j < kk ==> 48 <= #[trigger] rem@[j] <= 57) by {
                if kk < k {
                    assert(48 <= rem@[kk] <= 57);
                    assert(false);
                } else {
                    assert(kk > k);
                    assert(!(48 <= rem@[k as int] <= 57));
                }
            }
        }
        return false;
    }
    let ext = slice_subrange(rem, k + 1, n);
    let ok = eq_lowered(ext, &[101u8, 112u8, 117u8, 98u8]) || eq_lowered(
        ext,
        &[112u8, 100u8, 102u8],
    );
    if ok {
        assert(spec_marked_suffix(rem@)) by {
            assert(3 <= k < rem@.len() && rem@[k as int] == 46);
            assert(lower_bytes(rem@.subrange(k as int + 1, rem@.len() as int)) == epub_bytes()
                || lower_bytes(rem@.subrange(k as int + 1, rem@.len() as int)) == pdf_bytes());
        }
        true
    } else {
        // the only candidate dot position is k, and its extension is wrong
        assert(!spec_marked_suffix(rem@)) by {
            assert forall|kk: int|
                3 <= kk < rem@.len() && rem@[kk] == 46 && (forall|j: int|
                    2 <= j < kk ==> 48 <= #[trigger] rem@[j] <= 57) implies !(lower_bytes(
                rem@.subrange(kk + 1, rem@.len() as int),
            ) == epub_bytes() || lower_bytes(rem@.subrange(kk + 1, rem@.len() as int))
                == pdf_bytes()) by {
                if kk < k {
                    assert(48 <= rem@[kk] <= 57);
                    assert(false);
                } else if kk > k {
                    assert(!(48 <= rem@[k as int] <= 57));
                    assert(false);
                } else {
                    assert(rem@.subrange(kk + 1, rem@.len() as int) == ext@);
                }
            }
        }
        false
    }
}

/// Whether a filename is a content file for the given book id, either
/// version-marked or plain.
pub open spec fn spec_content_match(name: Seq<u8>, id: Seq<u8>, marked: bool) -> bool {
    id.len() > 0 && name.len() > id.len() && name.subrange(0, id.len() as int) == id && (if marked {
        spec_marked_suffix(name.subrange(id.len() as int, name.len() as int))
    } else {
        spec_plain_suffix(name.subrange(id.len() as int, name.len() as int))
    })
}

fn content_match(name: &str, id: &str, marked: bool) -> (r: bool)
    ensures
        r == spec_content_match(encode_utf8(name@), encode_utf8(id@), marked),
{
    let nb = name.as_bytes();
    let ib = id.as_bytes();
    if ib.len() == 0 || nb.len() <= ib.len() {
        return false;
    }
    if !bytes_eq(slice_subrange(nb, 0, ib.len()), ib) {
        return false;
    }
    let rem = slice_subrange(nb, ib.len(), nb.len());
    if marked {
        is_marked_suffix(rem)
    } else {
        is_plain_suffix(rem)
    }
}

/// The first file in listing order whose name matches the given kind of
/// content name for the book id.
pub open spec fn spec_first_matching(files: Seq<FileEntry>, id: Seq<u8>, marked: bool) -> Option<
    Seq<char>,
>
    decreases files.len(),
{
    if files.len() == 0 {
        None
    } else if files.first().is_file && spec_content_match(
        string_bytes(files.first().name),
        id,
        marked,
    ) {
        Some(files.first().name@)
    } else {
        spec_first_matching(files.drop_first(), id, marked)
    }
}

fn first_matching(files: &Vec<FileEntry>, id: &str, marked: bool) -> (r: Option<String>)
    ensures
        r is Some <==> spec_first_matching(files@, encode_utf8(id@), marked) is Some,
        r matches Some(n) ==> n@ == spec_first_matching(files@, encode_utf8(id@), marked)->Some_0,
{
    let n = files.len();
    let mut i: usize = 0;
    assert(files@.skip(0) =~= files@);
    while i < n
        invariant
            0 <= i <= n,
            n == files@.len(),
            spec_first_matching(files@, encode_utf8(id@), marked) == spec_first_matching(
                files@.skip(i as int),
                encode_utf8(id@),
                marked,
            ),
        decreases n - i,
    {
        proof {
            assert(files@.skip(i as int).first() == files@[i as int]);
            assert(files@.skip(i as int).drop_first() =~= files@.skip(i as int + 1));
        }
        let entry = &files[i];
        if entry.is_file && content_match(entry.name.as_str(), id, marked) {
            return Some(entry.name.clone());
        }
        i += 1;
    }
    assert(files@.skip(n as int) =~= Seq::<FileEntry>::empty());
    None
}

/// The resolved content filename and DRM version for a book directory:
/// the first version-marked name when one exists (v11), else the first
/// plain name (v1), else nothing.
pub open spec fn spec_resolved_content(files: Seq<FileEntry>, id: Seq<u8>) -> Option<
    (Seq<char>, DrmVersion),
> {
    match spec_first_matching(files, id, true) {
        Some(name) => Some((name, DrmVersion::V11)),
        None => match spec_first_matching(files, id, false) {
            Some(name) => Some((name, DrmVersion::V1)),
            None => None,
        },
    }
}

/// A resolved content filename always has an extension: the bytes after its
/// last dot, which name one of the two recognized formats.
proof fn lemma_last_dot_at(s: Seq<u8>, p: int)
    requires
        0 <= p < s.len(),
        s[p] == 46,
        forall|j: int| p < j < s.len() ==> s[j] != 46,
    ensures
        last_dot(s) == p,
    decreases s.len(),
{
    if s.len() - 1 > p {
        assert(s.drop_last()[p] == 46);
        lemma_last_dot_at(s.drop_last(), p);
    }
}

/// An extension whose lower-casing is one of the recognized extensions
/// contains no dot.
proof fn lemma_recognized_ext_no_dot(ext: Seq<u8>, j: int)
    requires
        lower_bytes(ext) == epub_bytes() || lower_bytes(ext) == pdf_bytes(),
        0 <= j < ext.len(),
    ensures
        ext[j] != 46,
{
    let l = lower_bytes(ext);
    assert(l.len() == ext.len());
    assert(l[j] == crate::types::lower_byte(ext[j]));
    assert(crate::types::lower_byte(46u8) == 46u8);
    assert(epub_bytes()[0] != 46 && epub_bytes()[1] != 46 && epub_bytes()[2] != 46
        && epub_bytes()[3] != 46);
    assert(pdf_bytes()[0] != 46 && pdf_bytes()[1] != 46 && pdf_bytes()[2] != 46);
    if ext[j] == 46 {
        assert(l[j] == 46);
        if l == epub_bytes() {
            assert(j == 0 || j == 1 || j == 2 || j == 3);
            assert(false);
        } else {
            assert(j == 0 || j == 1 || j == 2);
            assert(false);
        }
    }
}

/// A name matched as content for some id has an extension, and that
/// extension names the format the match promised.
proof fn lemma_match_extension(name: Seq<u8>, id: Seq<u8>, marked: bool)
    requires
        spec_content_match(name, id, marked),
    ensures
        spec_extension(name) is Some,
        lower_bytes(spec_extension(name)->Some_0) == epub_bytes() || lower_bytes(
            spec_extension(name)->Some_0,
        ) == pdf_bytes(),
{
    let rem = name.subrange(id.len() as int, name.len() as int);
    if marked {
        let k = choose|k: int|
            3 <= k < rem.len() && rem[k] == 46 && (forall|j: int|
                2 <= j < k ==> 48 <= #[trigger] rem[j] <= 57) && (lower_bytes(
                #[trigger] rem.subrange(k + 1, rem.len() as int),
            ) == epub_bytes() || lower_bytes(rem.subrange(k + 1, rem.len() as int)) == pdf_bytes());
        let p = id.len() + k;
        let ext = rem.subrange(k + 1, rem.len() as int);
        assert(name[p] == 46);
        assert forall|j: int| p < j < name.len() implies name[j] != 46 by {
            assert(name[j] == ext[j - p - 1]);
            lemma_recognized_ext_no_dot(ext, j - p - 1);
        }
        lemma_last_dot_at(name, p);
        assert(spec_extension(name)->Some_0 =~= ext);
    } else {
        let p = id.len() as int;
        let ext = rem.subrange(1, rem.len() as int);
        assert(name[p] == 46);
        assert forall|j: int| p < j < name.len() implies name[j] != 46 by {
            assert(name[j] == ext[j - p - 1]);
            lemma_recognized_ext_no_dot(ext, j - p - 1);
        }
        lemma_last_dot_at(name, p);
        assert(spec_extension(name)->Some_0 =~= ext);
    }
}

fn format_of_ext(ext: &[u8]) -> (r: BookFormat)
    ensures
        r == spec_format_from_extension(ext@),
{
    if eq_lowered(ext, &[101u8, 112u8, 117u8, 98u8]) {
        BookFormat::Epub
    } else if eq_lowered(ext, &[112u8, 100u8, 102u8]) {
        BookFormat::Pdf
    } else {
        BookFormat::Unknown
    }
}

/// Builds the book record for a validated book directory: `dir_path` is the
/// directory, `id` its name, `files` its listing. Fails with `InvalidPath`
/// when the directory holds no content file named after the id.
pub fn resolve_book(dir_path: &str, id: &str, files: &Vec<FileEntry>) -> (r: Result<
    BookInfo,
    ProcessingError,
>)
    ensures
        match spec_resolved_content(files@, encode_utf8(id@)) {
            Some(resolved) => r matches Ok(b) && b.id@ == id@ && b.path@ == dir_path@ && b.title
                is None && b.content_filename@ == resolved.0 && b.drm == resolved.1 && b.format
                == spec_format_from_extension(spec_extension(encode_utf8(resolved.0))->Some_0),
            None => r is Err && r->Err_0 is InvalidPath,
        },
{
    let (content_filename, drm) = match first_matching(files, id, true) {
        Some(name) => (name, DrmVersion::V11),
        None => match first_matching(files, id, false) {
            Some(name) => (name, DrmVersion::V1),
            None => {
                return Err(
                    ProcessingError::InvalidPath(
                        String::from_str("no content file found for book id: ").concat(id),
                    ),
                );
            },
        },
    };
    proof {
        let idb = encode_utf8(id@);
        let chosen = spec_resolved_content(files@, idb)->Some_0.0;
        if spec_first_matching(files@, idb, true) is Some {
            lemma_first_matching_matches(files@, idb, true);
        } else {
            lemma_first_matching_matches(files@, idb, false);
        }
        lemma_match_extension(encode_utf8(chosen), idb, spec_first_matching(files@, idb, true) is Some);
    }
    let format = match crate::discovery::extension_of(content_filename.as_str().as_bytes()) {
        Some(ext) => format_of_ext(ext.as_slice()),
        None => {
            proof {
                assert(false);
            }
            BookFormat::Unknown
        },
    };
    Ok(
        BookInfo {
            id: String::from_str(id),
            format,
            path: String::from_str(dir_path),
            title: None,
            content_filename,
            drm,
        },
    )
}

/// The position of the last `/` in a path's characters, or -1 when there is
/// none.
pub open spec fn last_slash(path: Seq<char>) -> int
    decreases path.len(),
{
    if path.len() == 0 {
        -1
    } else if path.last() == '/' {
        path.len() - 1
    } else {
        last_slash(path.drop_last())
    }
}

/// The name of the decrypted output file for a book.
pub open spec fn spec_output_filename(b: BookInfo) -> Seq<char> {
    b.id@ + "."@ + (match b.format {
        BookFormat::Epub => "epub"@,
        BookFormat::Pdf => "pdf"@,
        BookFormat::Unknown => "unknown"@,
    })
}

impl BookInfo {
    /// Whether this book is already decrypted, from the two independent
    /// checks: a non-v11 content file that opens as a well-formed archive is
    /// plaintext from a prior run, and an existing output file counts as
    /// done regardless of scheme. The caller gathers both observations.
    pub fn is_already_decrypted(&self, opens_as_archive: bool, output_exists: bool) -> (r: bool)
        ensures
            r == ((self.drm is V1 && opens_as_archive) || output_exists),
    {
        (matches!(self.drm, DrmVersion::V1) && opens_as_archive) || output_exists
    }

    /// Where the decrypted output is written: into the explicit output
    /// directory when one is configured, else into the configured library
    /// path, else beside the book directory (its parent).
    pub fn get_output_path(&self, output_dir: &Option<String>, library_path: &Option<String>) -> (r:
        String)
        ensures
            output_dir matches Some(d) ==> r@ == d@ + "/"@ + spec_output_filename(*self),
            output_dir is None ==> (library_path matches Some(l) ==> r@ == l@ + "/"@
                + spec_output_filename(*self)),
            (output_dir is None && library_path is None) ==> r@ == (if last_slash(self.path@)
                >= 0 {
                self.path@.take(last_slash(self.path@)) + "/"@ + spec_output_filename(*self)
            } else {
                spec_output_filename(*self)
            }),
    {
        let filename = self.get_output_filename();
        match output_dir {
            Some(d) => {
                let mut s = d.clone();
                s.append("/");
                s.append(filename.as_str());
                s
            },
            None => match library_path {
                Some(l) => {
                    let mut s = l.clone();
                    s.append("/");
                    s.append(filename.as_str());
                    s
                },
                None => {
                    match parent_dir(self.path.as_str()) {
                        Some(parent) => {
                            let mut s = parent;
                            s.append("/");
                            s.append(filename.as_str());
                            s
                        },
                        None => filename,
                    }
                },
            },
        }
    }
}

/// The directory part of a path: the characters before the last `/`, or
/// nothing when the path has no separator.
fn parent_dir(path: &str) -> (r: Option<String>)
    ensures
        r is Some <==> last_slash(path@) >= 0,
        r matches Some(p) ==> p@ == path@.take(last_slash(path@)),
{
    let n = path.unicode_len();
    let mut i: usize = n;
    assert(path@.take(n as int) =~= path@);
    while i > 0
        invariant
            0 <= i <= n,
            n == path@.len(),
            last_slash(path@) == last_slash(path@.take(i as int)),
        decreases i,
    {
        proof {
            assert(path@.take(i as int).drop_last() =~= path@.take(i as int - 1));
        }
        if path.get_char(i - 1) == '/' {
            assert(path@.take(i as int).last() == '/');
            assert(last_slash(path@) == i - 1);
            let parent = path.substring_char(0, i - 1);
            assert(parent@ =~= path@.take(last_slash(path@)));
            return Some(String::from_str(parent));
        }
        assert(path@.take(i as int).len() > 0 && path@.take(i as int).last() != '/');
        i -= 1;
    }
    assert(path@.take(0) =~= Seq::<char>::empty());
    assert(last_slash(path@) == -1);
    None
}

/// What `spec_first_matching` returns did match.
proof fn lemma_first_matching_matches(files: Seq<FileEntry>, id: Seq<u8>, marked: bool)
    requires
        spec_first_matching(files, id, marked) is Some,
    ensures
        spec_content_match(
            encode_utf8(spec_first_matching(files, id, marked)->Some_0),
            id,
            marked,
        ),
    decreases files.len(),
{
    if files.len() > 0 {
        if files.first().is_file && spec_content_match(
            string_bytes(files.first().name),
            id,
            marked,
        ) {
        } else {
            lemma_first_matching_matches(files.drop_first(), id, marked);
        }
    }
}

} // verus!
