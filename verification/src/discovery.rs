//! Library discovery: deciding which directories look like a library root,
//! scoring the confidence of each candidate, and enumerating book
//! directories.
//!
//! The functions here work on directory snapshots — plain records of entry
//! names and kinds that the caller gathers from the filesystem — so the
//! discovery rules themselves are verified without any I/O.

use vstd::prelude::*;

use crate::types::{
    dat_bytes, epub_bytes, lower_bytes, pdf_bytes, spec_format_from_extension, BookFormat,
    BookInfo, DrmVersion, ProcessingError,
};

verus! {

use vstd::utf8::encode_utf8;

use crate::types::{LibraryLocation, LibrarySource};

broadcast use vstd::seq_lib::group_to_multiset_ensures;

/// The UTF-8 bytes of an owned string.
pub open spec fn string_bytes(s: String) -> Seq<u8> {
    encode_utf8(s@)
}

/// One entry of a directory listing.
#[derive(Debug, Clone)]
pub struct FileEntry {
    pub name: String,
    pub is_file: bool,
}

/// One subdirectory with its own file listing.
#[derive(Debug, Clone)]
pub struct DirSnapshot {
    pub name: String,
    pub is_dir: bool,
    pub files: Vec<FileEntry>,
}

/// A directory entry of a candidate library root: its own files, and its
/// subdirectories with their file listings.
#[derive(Debug, Clone)]
pub struct RootChild {
    pub name: String,
    pub is_dir: bool,
    pub files: Vec<FileEntry>,
    pub subdirs: Vec<DirSnapshot>,
}

/// A candidate library root as the caller saw it on disk. `readable` is
/// false when the directory listing could not be obtained.
#[derive(Debug, Clone)]
pub struct RootSnapshot {
    pub path: String,
    pub exists: bool,
    pub is_dir: bool,
    pub readable: bool,
    pub has_metadata: bool,
    pub children: Vec<RootChild>,
}

/// The position of the last `.` in a filename, or -1 when there is none.
pub open spec fn last_dot(name: Seq<u8>) -> int
    decreases name.len(),
{
    if name.len() == 0 {
        -1
    } else if name[name.len() - 1] == 46 {
        name.len() - 1
    } else {
        last_dot(name.drop_last())
    }
}

/// The extension of a filename: the bytes after the last `.`, provided that
/// dot is neither absent nor the leading character (a name such as
/// `.hidden` has no extension).
pub open spec fn spec_extension(name: Seq<u8>) -> Option<Seq<u8>> {
    let p = last_dot(name);
    if p <= 0 {
        None
    } else {
        Some(name.subrange(p + 1, name.len() as int))
    }
}

/// The extension of a filename's bytes, as an owned buffer.
pub(crate) fn extension_of(name: &[u8]) -> (r: Option<Vec<u8>>)
    ensures
        r is Some <==> spec_extension(name@) is Some,
        r matches Some(e) ==> e@ == spec_extension(name@)->Some_0,
{
    let n = name.len();
    let mut i: usize = n;
    assert(name@.take(n as int) =~= name@);
    while i > 0
        invariant
            0 <= i <= n,
            n == name@.len(),
            last_dot(name@) == last_dot(name@.take(i as int)),
        decreases i,
    {
        proof {
            assert(name@.take(i as int).drop_last() =~= name@.take(i as int - 1));
        }
        if name[i - 1] == 46 {
            assert(name@.take(i as int).last() == 46);
            assert(last_dot(name@) == i - 1);
            if i - 1 == 0 {
                return None;
            }
            let ext = vstd::slice::slice_to_vec(vstd::slice::slice_subrange(name, i, n));
            return Some(ext);
        }
        assert(name@.take(i as int).len() > 0 && name@.take(i as int).last() != 46);
        i -= 1;
    }
    assert(name@.take(0) =~= Seq::<u8>::empty());
    assert(last_dot(name@) == -1);
    None
}

/// Whether a filename carries the key-file extension (case-insensitive).
pub open spec fn spec_is_key_file(name: Seq<u8>) -> bool {
    spec_extension(name) matches Some(e) && lower_bytes(e) == dat_bytes()
}

/// Whether a filename carries one of the two recognized content-file
/// extensions (case-insensitive).
pub open spec fn spec_is_content_file(name: Seq<u8>) -> bool {
    spec_extension(name) matches Some(e) && (lower_bytes(e) == epub_bytes() || lower_bytes(e)
        == pdf_bytes())
}

/// Whether a directory listing makes a book directory: at least one key
/// file and at least one content file among its plain files.
pub open spec fn spec_is_book_directory(files: Seq<FileEntry>) -> bool {
    (exists|i: int|
        0 <= i < files.len() && (#[trigger] files[i]).is_file && spec_is_key_file(
            string_bytes(files[i].name),
        )) && (exists|i: int|
        0 <= i < files.len() && (#[trigger] files[i]).is_file && spec_is_content_file(
            string_bytes(files[i].name),
        ))
}

fn matches_extension(name: &str, lowered: &[u8]) -> (r: bool)
    ensures
        r == (spec_extension(encode_utf8(name@)) matches Some(e) && lower_bytes(e) == lowered@),
{
    match extension_of(name.as_bytes()) {
        Some(ext) => crate::types::eq_lowered(ext.as_slice(), lowered),
        None => false,
    }
}

/// Decides the book-directory predicate over one directory listing.
pub fn is_book_directory(files: &Vec<FileEntry>) -> (r: bool)
    ensures
        r == spec_is_book_directory(files@),
{
    let mut has_key = false;
    let mut has_content = false;
    let n = files.len();
    let mut i: usize = 0;
    while i < n
        invariant
            0 <= i <= n,
            n == files@.len(),
            has_key == exists|j: int|
                0 <= j < i && (#[trigger] files@[j]).is_file && spec_is_key_file(
                    string_bytes(files@[j].name),
                ),
            has_content == exists|j: int|
                0 <= j < i && (#[trigger] files@[j]).is_file && spec_is_content_file(
                    string_bytes(files@[j].name),
                ),
        decreases n - i,
    {
        let entry = &files[i];
        if entry.is_file {
            if matches_extension(entry.name.as_str(), &[100u8, 97u8, 116u8]) {
                has_key = true;
            }
            if matches_extension(entry.name.as_str(), &[101u8, 112u8, 117u8, 98u8])
                || matches_extension(entry.name.as_str(), &[112u8, 100u8, 102u8]) {
                has_content = true;
            }
        }
        i += 1;
    }
    has_key && has_content
}

/// Whether a root entry is a user-bucket directory: a directory whose name
/// starts with an underscore.
pub open spec fn spec_is_user_dir(c: RootChild) -> bool {
    c.is_dir && string_bytes(c.name).len() > 0 && string_bytes(c.name)[0] == 95
}

/// Whether a root entry contributes at least one valid book directory:
/// a user-bucket directory with a book directory inside it, or a directory
/// that is itself a book directory.
pub open spec fn spec_child_has_book(c: RootChild) -> bool {
    if spec_is_user_dir(c) {
        exists|j: int|
            0 <= j < c.subdirs.len() && (#[trigger] c.subdirs[j]).is_dir && spec_is_book_directory(
                c.subdirs[j].files@,
            )
    } else {
        c.is_dir && spec_is_book_directory(c.files@)
    }
}

pub open spec fn spec_has_user_dir(children: Seq<RootChild>) -> bool {
    exists|i: int| 0 <= i < children.len() && spec_is_user_dir(#[trigger] children[i])
}

pub open spec fn spec_has_book(children: Seq<RootChild>) -> bool {
    exists|i: int| 0 <= i < children.len() && spec_child_has_book(#[trigger] children[i])
}

/// The confidence score of a candidate root, on a 0–100 scale: a base of 10
/// for a readable directory, plus 30 for a marker (`metadata`) subdirectory,
/// plus 40 when a user-bucket subdirectory is present, plus 30 when a valid
/// book directory is present, clamped to 100. An unreadable root scores 0.
pub open spec fn spec_confidence(snap: RootSnapshot) -> int {
    if !snap.readable {
        0
    } else {
        let score = 10 + (if snap.has_metadata {
            30int
        } else {
            0int
        }) + (if spec_has_user_dir(snap.children@) {
            40int
        } else {
            0int
        }) + (if spec_has_book(snap.children@) {
            30int
        } else {
            0int
        });
        if score > 100 {
            100
        } else {
            score
        }
    }
}

fn dir_has_book(c: &RootChild) -> (r: bool)
    ensures
        r == spec_child_has_book(*c),
{
    let name_bytes = c.name.as_str().as_bytes();
    let is_user = c.is_dir && name_bytes.len() > 0 && name_bytes[0] == 95;
    assert(is_user == spec_is_user_dir(*c));
    if is_user {
        let n = c.subdirs.len();
        let mut j: usize = 0;
        while j < n
            invariant
                0 <= j <= n,
                n == c.subdirs@.len(),
                spec_is_user_dir(*c),
                forall|k: int|
                    0 <= k < j ==> !((#[trigger] c.subdirs@[k]).is_dir && spec_is_book_directory(
                        c.subdirs@[k].files@,
                    )),
            decreases n - j,
        {
            let sub = &c.subdirs[j];
            if sub.is_dir && is_book_directory(&sub.files) {
                assert((#[trigger] c.subdirs@[j as int]).is_dir && spec_is_book_directory(
                    c.subdirs@[j as int].files@,
                ));
                return true;
            }
            j += 1;
        }
        false
    } else {
        c.is_dir && is_book_directory(&c.files)
    }
}

/// Computes the confidence score of one candidate root snapshot.
pub fn calculate_confidence(snap: &RootSnapshot) -> (r: u32)
    ensures
        r == spec_confidence(*snap),
        r <= 100,
{
    if !snap.readable {
        return 0;
    }
    let mut score: u32 = 10;
    if snap.has_metadata {
        score += 30;
    }
    let n = snap.children.len();
    let mut has_user = false;
    let mut has_book = false;
    let mut i: usize = 0;
    while i < n
        invariant
            0 <= i <= n,
            n == snap.children@.len(),
            has_user == exists|j: int|
                0 <= j < i && spec_is_user_dir(#[trigger] snap.children@[j]),
            has_book == exists|j: int|
                0 <= j < i && spec_child_has_book(#[trigger] snap.children@[j]),
        decreases n - i,
    {
        let c = &snap.children[i];
        let name_bytes = c.name.as_str().as_bytes();
        if c.is_dir && name_bytes.len() > 0 && name_bytes[0] == 95 {
            has_user = true;
        }
        if dir_has_book(c) {
            has_book = true;
        }
        i += 1;
    }
    if has_user {
        score += 40;
    }
    if has_book {
        score += 30;
    }
    if score > 100 {
        score = 100;
    }
    score
}

/// The view of a discovered location: its path's characters and its score.
pub open spec fn loc_view(l: LibraryLocation) -> (Seq<char>, int) {
    (l.path@, l.confidence as int)
}

/// The locations (path and score) that qualify among the given snapshots,
/// in discovery order: candidates that exist, are directories, and score
/// above zero.
pub open spec fn spec_locations(snaps: Seq<RootSnapshot>) -> Seq<(Seq<char>, int)>
    decreases snaps.len(),
{
    if snaps.len() == 0 {
        Seq::empty()
    } else {
        let rest = spec_locations(snaps.drop_last());
        let s = snaps.last();
        if s.exists && s.is_dir && spec_confidence(s) > 0 {
            rest.push((s.path@, spec_confidence(s)))
        } else {
            rest
        }
    }
}

/// Sorted by descending confidence.
pub open spec fn sorted_desc(s: Seq<LibraryLocation>) -> bool {
    forall|i: int, j: int| 0 <= i <= j < s.len() ==> s[i].confidence >= s[j].confidence
}

/// Stable insertion into a descending-sorted sequence: the new element goes
/// after every element of equal or higher confidence.
pub open spec fn spec_insert_loc(s: Seq<(Seq<char>, int)>, x: (Seq<char>, int)) -> Seq<
    (Seq<char>, int),
>
    decreases s.len(),
{
    if s.len() == 0 {
        seq![x]
    } else if s.first().1 >= x.1 {
        seq![s.first()] + spec_insert_loc(s.drop_first(), x)
    } else {
        seq![x] + s
    }
}

/// The stable descending sort of the discovered locations: each location is
/// inserted, in discovery order, after every earlier one of equal or higher
/// confidence, so ties keep discovery order.
pub open spec fn spec_stable_sort(locs: Seq<(Seq<char>, int)>) -> Seq<(Seq<char>, int)>
    decreases locs.len(),
{
    if locs.len() == 0 {
        Seq::empty()
    } else {
        spec_insert_loc(spec_stable_sort(locs.drop_last()), locs.last())
    }
}

/// Inserting at the first position whose confidence is below the new one is
/// exactly the stable insertion.
proof fn lemma_insert_at(s: Seq<(Seq<char>, int)>, x: (Seq<char>, int), k: int)
    requires
        0 <= k <= s.len(),
        forall|j: int| 0 <= j < k ==> s[j].1 >= x.1,
        k == s.len() || s[k].1 < x.1,
    ensures
        spec_insert_loc(s, x) == s.insert(k, x),
    decreases s.len(),
{
    if s.len() == 0 {
        assert(spec_insert_loc(s, x) =~= s.insert(0, x));
    } else if s.first().1 >= x.1 {
        assert(k > 0);
        lemma_insert_at(s.drop_first(), x, k - 1);
        assert(spec_insert_loc(s, x) =~= s.insert(k, x));
    } else {
        assert(k == 0);
        assert(spec_insert_loc(s, x) =~= s.insert(0, x));
    }
}

/// Knows the filesystem locations where a library is usually installed;
/// the caller supplies them, since reading the environment is its concern.
pub struct LibraryFinder {
    pub common_paths: Vec<String>,
}

impl LibraryFinder {
    /// A finder over the given platform-specific candidate paths.
    pub fn new(common_paths: Vec<String>) -> (r: Self)
        ensures
            r.common_paths == common_paths,
    {
        LibraryFinder { common_paths }
    }

    /// Scores the snapshots of the candidate paths and returns the
    /// qualifying locations sorted by descending confidence. Each new
    /// location is inserted after every location of equal or higher score,
    /// so equal scores come out in discovery order.
    pub fn find_library_locations(&self, snapshots: &Vec<RootSnapshot>) -> (r: Vec<
        LibraryLocation,
    >)
        ensures
            sorted_desc(r@),
            r@.map_values(|l: LibraryLocation| loc_view(l)) == spec_stable_sort(
                spec_locations(snapshots@),
            ),
            r@.map_values(|l: LibraryLocation| loc_view(l)).to_multiset() == spec_locations(
                snapshots@,
            ).to_multiset(),
            forall|i: int| 0 <= i < r@.len() ==> (#[trigger] r@[i]).source is CommonPath,
    {
        let n = snapshots.len();
        let mut out: Vec<LibraryLocation> = Vec::new();
        let mut i: usize = 0;
        proof {
            assert(snapshots@.take(0) =~= Seq::<RootSnapshot>::empty());
            assert(out@.map_values(|l: LibraryLocation| loc_view(l)) =~= Seq::<
                (Seq<char>, int),
            >::empty());
        }
        while i < n
            invariant
                0 <= i <= n,
                n == snapshots@.len(),
                sorted_desc(out@),
                out@.map_values(|l: LibraryLocation| loc_view(l)) == spec_stable_sort(
                    spec_locations(snapshots@.take(i as int)),
                ),
                out@.map_values(|l: LibraryLocation| loc_view(l)).to_multiset() == spec_locations(
                    snapshots@.take(i as int),
                ).to_multiset(),
                forall|k: int| 0 <= k < out@.len() ==> (#[trigger] out@[k]).source is CommonPath,
            decreases n - i,
        {
            let snap = &snapshots[i];
            proof {
                assert(snapshots@.take(i as int + 1).drop_last() =~= snapshots@.take(i as int));
                assert(snapshots@.take(i as int + 1).last() == snapshots@[i as int]);
            }
            let confidence = calculate_confidence(snap);
            if snap.exists && snap.is_dir && confidence > 0 {
                let loc = LibraryLocation {
                    path: snap.path.clone(),
                    confidence,
                    source: LibrarySource::CommonPath,
                };
                assert(loc_view(loc) == (snapshots@[i as int].path@, spec_confidence(
                    snapshots@[i as int],
                )));
                proof {
                    let prev = spec_locations(snapshots@.take(i as int));
                    let v = loc_view(loc);
                    assert(spec_locations(snapshots@.take(i as int + 1)) == prev.push(v));
                    assert(prev.push(v).drop_last() =~= prev);
                    assert(prev.push(v).last() == v);
                }
                insert_sorted(&mut out, loc);
            }
            i += 1;
        }
        proof {
            assert(snapshots@.take(n as int) =~= snapshots@);
        }
        out
    }
}

/// The `_`-prefixed subdirectory names of the base library directory, each
/// joined onto the base path, in listing order.
pub open spec fn spec_user_subpaths(base: Seq<char>, subdirs: Seq<String>) -> Seq<Seq<char>>
    decreases subdirs.len(),
{
    if subdirs.len() == 0 {
        Seq::empty()
    } else {
        let rest = spec_user_subpaths(base, subdirs.drop_last());
        let name = subdirs.last();
        if string_bytes(name).len() > 0 && string_bytes(name)[0] == 95 {
            rest.push(base + "/"@ + name@)
        } else {
            rest
        }
    }
}

impl LibraryFinder {
    /// The candidate library paths for one user, in the order they are
    /// tried: `{base}/_{user_idx}` first, the base directory itself second,
    /// then every `_`-prefixed subdirectory of the base.
    pub fn get_library_paths(&self, base: &str, user_idx: &str, base_subdirs: &Vec<String>) -> (r:
        Vec<String>)
        ensures
            r@.map_values(|s: String| s@) == seq![base@ + "/_"@ + user_idx@, base@]
                + spec_user_subpaths(base@, base_subdirs@),
    {
        let mut paths: Vec<String> = Vec::new();
        let mut user_path = String::from_str(base);
        user_path.append("/_");
        user_path.append(user_idx);
        paths.push(user_path);
        paths.push(String::from_str(base));
        let n = base_subdirs.len();
        let mut i: usize = 0;
        proof {
            assert(base_subdirs@.take(0) =~= Seq::<String>::empty());
            assert(paths@.map_values(|s: String| s@) =~= seq![base@ + "/_"@ + user_idx@, base@]);
        }
        while i < n
            invariant
                0 <= i <= n,
                n == base_subdirs@.len(),
                paths@.map_values(|s: String| s@) == seq![base@ + "/_"@ + user_idx@, base@]
                    + spec_user_subpaths(base@, base_subdirs@.take(i as int)),
            decreases n - i,
        {
            proof {
                assert(base_subdirs@.take(i as int + 1).drop_last() =~= base_subdirs@.take(
                    i as int,
                ));
                assert(base_subdirs@.take(i as int + 1).last() == base_subdirs@[i as int]);
            }
            let name = &base_subdirs[i];
            let nb = name.as_str().as_bytes();
            if nb.len() > 0 && nb[0] == 95 {
                let mut p = String::from_str(base);
                p.append("/");
                p.append(name.as_str());
                let ghost before = paths@;
                paths.push(p);
                proof {
                    assert(paths@.map_values(|s: String| s@) =~= before.map_values(
                        |s: String| s@,
                    ).push(base@ + "/"@ + name@));
                    assert(paths@.map_values(|s: String| s@) =~= seq![
                        base@ + "/_"@ + user_idx@,
                        base@,
                    ] + spec_user_subpaths(base@, base_subdirs@.take(i as int + 1)));
                }
            }
            i += 1;
        }
        proof {
            assert(base_subdirs@.take(n as int) =~= base_subdirs@);
        }
        paths
    }
}

/// Inserts a location into a descending-sorted vector, after every location
/// of equal or higher confidence, so that equal scores keep their order.
fn insert_sorted(out: &mut Vec<LibraryLocation>, loc: LibraryLocation)
    requires
        sorted_desc(old(out)@),
    ensures
        sorted_desc(final(out)@),
        final(out)@.map_values(|l: LibraryLocation| loc_view(l)) == spec_insert_loc(
            old(out)@.map_values(|l: LibraryLocation| loc_view(l)),
            loc_view(loc),
        ),
        final(out)@.map_values(|l: LibraryLocation| loc_view(l)).to_multiset() == old(
            out,
        )@.map_values(|l: LibraryLocation| loc_view(l)).to_multiset().insert(loc_view(loc)),
        forall|j: int|
            0 <= j < final(out)@.len() ==> #[trigger] final(out)@[j] == loc || old(out)@.contains(
                final(out)@[j],
            ),
{
    let n = out.len();
    let mut k: usize = 0;
    while k < n && out[k].confidence >= loc.confidence
        invariant
            0 <= k <= n,
            n == out@.len(),
            out@ == old(out)@,
            forall|j: int| 0 <= j < k ==> (#[trigger] out@[j]).confidence >= loc.confidence,
        decreases n - k,
    {
        k += 1;
    }
    proof {
        let pre = out@;
        let mapped = pre.map_values(|l: LibraryLocation| loc_view(l));
        vstd::seq_lib::to_multiset_insert(mapped, k as int, loc_view(loc));
        assert(pre.insert(k as int, loc).map_values(|l: LibraryLocation| loc_view(l)) =~= mapped
            .insert(k as int, loc_view(loc)));
        assert forall|j: int| 0 <= j < k implies mapped[j].1 >= loc_view(loc).1 by {
            assert(pre[j].confidence >= loc.confidence);
        }
        assert(k == mapped.len() || mapped[k as int].1 < loc_view(loc).1);
        lemma_insert_at(mapped, loc_view(loc), k as int);
    }
    let ghost pre = out@;
    out.insert(k, loc);
    proof {
        assert forall|i: int, j: int|
            0 <= i <= j < out@.len() implies out@[i].confidence >= out@[j].confidence by {
            assert(out@ == pre.insert(k as int, loc));
            if i < k && j < k {
            } else if i < k && j == k {
                assert(out@[i] == pre[i] && out@[j] == loc);
            } else if i == k {
                if j > k {
                    assert(out@[j] == pre[j - 1]);
                    assert(k < n ==> pre[k as int].confidence < loc.confidence);
                }
            } else if i > k {
                assert(out@[i] == pre[i - 1] && out@[j] == pre[j - 1]);
            } else {
                assert(out@[i] == pre[i]);
                assert(j > k ==> out@[j] == pre[j - 1]);
            }
        }
        assert forall|j: int|
            0 <= j < out@.len() implies #[trigger] out@[j] == loc || pre.contains(out@[j]) by {
            if j < k {
                assert(out@[j] == pre[j]);
            } else if j > k {
                assert(out@[j] == pre[j - 1]);
            }
        }
    }
}

/// One library directory as the caller saw it: its path, whether it exists,
/// and its subdirectories with their file listings.
#[derive(Debug, Clone)]
pub struct LibrarySnapshot {
    pub path: String,
    pub exists: bool,
    pub dirs: Vec<DirSnapshot>,
}

/// The view of a resolved book: id, directory path, content filename,
/// format and DRM version.
pub open spec fn book_view(b: BookInfo) -> (Seq<char>, Seq<char>, Seq<char>, BookFormat, DrmVersion) {
    (b.id@, b.path@, b.content_filename@, b.format, b.drm)
}

/// The book that one subdirectory of a library resolves to, when it does.
pub open spec fn spec_resolved_book(lib_path: Seq<char>, d: DirSnapshot) -> Option<
    (Seq<char>, Seq<char>, Seq<char>, BookFormat, DrmVersion),
> {
    match crate::resolve::spec_resolved_content(d.files@, string_bytes(d.name)) {
        Some(resolved) => Some(
            (
                d.name@,
                lib_path + "/"@ + d.name@,
                resolved.0,
                spec_format_from_extension(spec_extension(encode_utf8(resolved.0))->Some_0),
                resolved.1,
            ),
        ),
        None => None,
    }
}

/// The books of one library directory, in listing order: every subdirectory
/// that passes the book-directory predicate and resolves to a book record.
pub open spec fn spec_books_in_dirs(lib_path: Seq<char>, dirs: Seq<DirSnapshot>) -> Seq<
    (Seq<char>, Seq<char>, Seq<char>, BookFormat, DrmVersion),
>
    decreases dirs.len(),
{
    if dirs.len() == 0 {
        Seq::empty()
    } else {
        let rest = spec_books_in_dirs(lib_path, dirs.drop_last());
        let d = dirs.last();
        if d.is_dir && spec_is_book_directory(d.files@) && spec_resolved_book(lib_path, d)
            is Some {
            rest.push(spec_resolved_book(lib_path, d)->Some_0)
        } else {
            rest
        }
    }
}

/// The books of the first library path, in trial order, that exists and
/// yields at least one book; empty when none does.
pub open spec fn spec_find_books(libs: Seq<LibrarySnapshot>) -> Seq<
    (Seq<char>, Seq<char>, Seq<char>, BookFormat, DrmVersion),
>
    decreases libs.len(),
{
    if libs.len() == 0 {
        Seq::empty()
    } else {
        let first = libs.first();
        let books = if first.exists {
            spec_books_in_dirs(first.path@, first.dirs@)
        } else {
            Seq::empty()
        };
        if books.len() > 0 {
            books
        } else {
            spec_find_books(libs.drop_first())
        }
    }
}

impl LibraryFinder {
    /// Scans the candidate library directories in order and returns the
    /// books of the first one that yields any; a subdirectory that fails the
    /// book-directory predicate or does not resolve is skipped. Fails with
    /// `FileNotFound` when no candidate yields a book.
    pub fn find_books(&self, libraries: &Vec<LibrarySnapshot>) -> (r: Result<
        Vec<BookInfo>,
        ProcessingError,
    >)
        ensures
            match r {
                Ok(books) => books@.len() > 0 && books@.map_values(|b: BookInfo| book_view(b))
                    == spec_find_books(libraries@),
                Err(e) => spec_find_books(libraries@).len() == 0 && e is FileNotFound,
            },
    {
        let ln = libraries.len();
        let mut li: usize = 0;
        assert(libraries@.skip(0) =~= libraries@);
        while li < ln
            invariant
                0 <= li <= ln,
                ln == libraries@.len(),
                spec_find_books(libraries@) == spec_find_books(libraries@.skip(li as int)),
            decreases ln - li,
        {
            proof {
                assert(libraries@.skip(li as int).first() == libraries@[li as int]);
                assert(libraries@.skip(li as int).drop_first() =~= libraries@.skip(li as int + 1));
            }
            let lib = &libraries[li];
            if lib.exists {
                let mut books: Vec<BookInfo> = Vec::new();
                let dn = lib.dirs.len();
                let mut di: usize = 0;
                proof {
                    assert(lib.dirs@.take(0) =~= Seq::<DirSnapshot>::empty());
                    assert(books@.map_values(|b: BookInfo| book_view(b)) =~= Seq::<
                        (Seq<char>, Seq<char>, Seq<char>, BookFormat, DrmVersion),
                    >::empty());
                }
                while di < dn
                    invariant
                        0 <= di <= dn,
                        dn == lib.dirs@.len(),
                        books@.map_values(|b: BookInfo| book_view(b)) == spec_books_in_dirs(
                            lib.path@,
                            lib.dirs@.take(di as int),
                        ),
                    decreases dn - di,
                {
                    proof {
                        assert(lib.dirs@.take(di as int + 1).drop_last() =~= lib.dirs@.take(
                            di as int,
                        ));
                        assert(lib.dirs@.take(di as int + 1).last() == lib.dirs@[di as int]);
                    }
                    let d = &lib.dirs[di];
                    if d.is_dir && is_book_directory(&d.files) {
                        let mut dir_path = lib.path.clone();
                        dir_path.append("/");
                        dir_path.append(d.name.as_str());
                        match crate::resolve::resolve_book(
                            dir_path.as_str(),
                            d.name.as_str(),
                            &d.files,
                        ) {
                            Ok(book) => {
                                let ghost before = books@;
                                books.push(book);
                                proof {
                                    assert(books@.map_values(|b: BookInfo| book_view(b))
                                        =~= before.map_values(|b: BookInfo| book_view(b)).push(
                                        book_view(book),
                                    ));
                                    assert(book_view(book) == spec_resolved_book(
                                        lib.path@,
                                        lib.dirs@[di as int],
                                    )->Some_0);
                                }
                            },
                            Err(_) => {},
                        }
                    }
                    di += 1;
                }
                proof {
                    assert(lib.dirs@.take(dn as int) =~= lib.dirs@);
                }
                if books.len() > 0 {
                    return Ok(books);
                }
            }
            li += 1;
        }
        assert(libraries@.skip(ln as int) =~= Seq::<LibrarySnapshot>::empty());
        Err(
            ProcessingError::FileNotFound(
                String::from_str("no books found in any library location"),
            ),
        )
    }
}

/// Confidence scoring is monotonic: adding a marker directory, user-bucket
/// subdirectories, or valid book directories to a candidate root never
/// decreases its score.
pub proof fn lemma_confidence_monotonic(a: RootSnapshot, b: RootSnapshot)
    requires
        b.readable ==> a.readable,
        a.readable ==> b.readable,
        a.has_metadata ==> b.has_metadata,
        spec_has_user_dir(a.children@) ==> spec_has_user_dir(b.children@),
        spec_has_book(a.children@) ==> spec_has_book(b.children@),
    ensures
        spec_confidence(a) <= spec_confidence(b),
{
}

} // verus!
