//! Batch-scheduler state: the resumable processing record, the selection of
//! books a run still has to process, retry classification, and the
//! checkpoint rule.

use vstd::prelude::*;

use crate::types::{lower_bytes, BookInfo};

verus! {

use vstd::arithmetic::div_mod::lemma_add_mod_noop;
use vstd::string::StringSliceAdditionalSpecFns;

/// Whether `needle` occurs contiguously inside `hay`.
pub open spec fn has_subseq(hay: Seq<u8>, needle: Seq<u8>) -> bool {
    exists|i: int|
        0 <= i && i + needle.len() <= hay.len() && #[trigger] hay.subrange(i, i + needle.len())
            == needle
}

fn contains_sub(hay: &[u8], needle: &[u8]) -> (r: bool)
    ensures
        r == has_subseq(hay@, needle@),
{
    if needle.len() > hay.len() {
        assert(!has_subseq(hay@, needle@));
        return false;
    }
    if needle.len() == 0 {
        assert(has_subseq(hay@, needle@)) by {
            assert(hay@.subrange(0, 0 + needle@.len() as int) =~= needle@);
        }
        return true;
    }
    let hn = hay.len();
    let end = hn - needle.len();
    let mut i: usize = 0;
    while i <= end
        invariant
            0 <= i <= end + 1,
            hn == hay@.len(),
            end == hay@.len() - needle@.len(),
            0 < needle@.len() <= hay@.len(),
            forall|k: int| 0 <= k < i ==> #[trigger] hay@.subrange(k, k + needle@.len()) != needle@,
        decreases end + 1 - i,
    {
        let mut j: usize = 0;
        let mut matches = true;
        while j < needle.len()
            invariant
                0 <= j <= needle@.len(),
                hn == hay@.len(),
                i + needle@.len() <= hay@.len(),
                matches == (forall|k: int| 0 <= k < j ==> hay@[i + k] == needle@[k]),
            decreases needle@.len() - j,
        {
            assert(i + j < hay@.len());
            if hay[i + j] != needle[j] {
                matches = false;
                j = needle.len();
            } else {
                assert(hay@[i + j] == needle@[j as int]);
                j += 1;
            }
        }
        if matches {
            assert(hay@.subrange(i as int, i + needle@.len()) =~= needle@);
            return true;
        }
        assert(hay@.subrange(i as int, i + needle@.len()) != needle@);
        i += 1;
    }
    assert forall|k: int| 0 <= k && k + needle@.len() <= hay@.len() implies #[trigger] hay@
        .subrange(k, k + needle@.len()) != needle@ by {
        assert(k < i);
    }
    false
}

/// ASCII lower-cases a byte buffer.
fn to_lower_bytes(s: &[u8]) -> (r: Vec<u8>)
    ensures
        r@ == lower_bytes(s@),
{
    let mut out: Vec<u8> = Vec::new();
    let mut i: usize = 0;
    while i < s.len()
        invariant
            0 <= i <= s@.len(),
            out@.len() == i,
            forall|j: int| 0 <= j < i ==> out@[j] == lower_bytes(s@)[j],
        decreases s@.len() - i,
    {
        let b = s[i];
        if 65 <= b && b <= 90 {
            out.push(b + 32);
        } else {
            out.push(b);
        }
        i += 1;
    }
    assert(out@ =~= lower_bytes(s@));
    out
}

/// The substrings whose presence in a lower-cased error message marks the
/// error as transient: "timeout", "connection", "network", "temporary",
/// "io error".
pub open spec fn spec_retryable(msg: Seq<u8>) -> bool {
    let l = lower_bytes(msg);
    has_subseq(l, seq![116u8, 105u8, 109u8, 101u8, 111u8, 117u8, 116u8]) || has_subseq(
        l,
        seq![99u8, 111u8, 110u8, 110u8, 101u8, 99u8, 116u8, 105u8, 111u8, 110u8],
    ) || has_subseq(l, seq![110u8, 101u8, 116u8, 119u8, 111u8, 114u8, 107u8]) || has_subseq(
        l,
        seq![116u8, 101u8, 109u8, 112u8, 111u8, 114u8, 97u8, 114u8, 121u8],
    ) || has_subseq(l, seq![105u8, 111u8, 32u8, 101u8, 114u8, 114u8, 111u8, 114u8])
}

/// Whether an error message describes a transient failure worth retrying:
/// one that mentions a timeout, a connection or network problem, a temporary
/// condition, or an I/O error, matched case-insensitively.
pub fn is_retryable_error(error: &str) -> (r: bool)
    ensures
        r == spec_retryable(error.spec_bytes()),
{
    let lower = to_lower_bytes(error.as_bytes());
    let l = lower.as_slice();
    contains_sub(l, &[116u8, 105u8, 109u8, 101u8, 111u8, 117u8, 116u8]) || contains_sub(
        l,
        &[99u8, 111u8, 110u8, 110u8, 101u8, 99u8, 116u8, 105u8, 111u8, 110u8],
    ) || contains_sub(l, &[110u8, 101u8, 116u8, 119u8, 111u8, 114u8, 107u8]) || contains_sub(
        l,
        &[116u8, 101u8, 109u8, 112u8, 111u8, 114u8, 97u8, 114u8, 121u8],
    ) || contains_sub(l, &[105u8, 111u8, 32u8, 101u8, 114u8, 114u8, 111u8, 114u8])
}

/// Whether a failed attempt should be retried: only while more than one
/// attempt of the budget remains, and only for a transient error.
pub fn should_retry(error: &str, attempts_left: u32) -> (r: bool)
    ensures
        r == (attempts_left > 1 && spec_retryable(error.spec_bytes())),
{
    attempts_left > 1 && is_retryable_error(error)
}

/// The persisted record of a batch run: ids of completed books, failed books
/// with their last error message, and ids that were mid-flight at the last
/// checkpoint.
pub struct ProcessingState {
    pub completed: Vec<String>,
    pub failed: Vec<(String, String)>,
    pub in_progress: Vec<String>,
}

impl Default for ProcessingState {
    fn default() -> (r: Self)
        ensures
            r.completed@.len() == 0,
            r.failed@.len() == 0,
            r.in_progress@.len() == 0,
    {
        ProcessingState { completed: Vec::new(), failed: Vec::new(), in_progress: Vec::new() }
    }
}

/// The completed ids as a sequence of character strings.
pub open spec fn spec_completed_ids(s: ProcessingState) -> Seq<Seq<char>> {
    s.completed@.map_values(|id: String| id@)
}

impl ProcessingState {
    /// Whether a book id is recorded as completed.
    pub fn is_completed(&self, id: &String) -> (r: bool)
        ensures
            r == spec_completed_ids(*self).contains(id@),
    {
        let n = self.completed.len();
        let mut i: usize = 0;
        while i < n
            invariant
                0 <= i <= n,
                n == self.completed@.len(),
                forall|j: int| 0 <= j < i ==> self.completed@[j]@ != id@,
            decreases n - i,
        {
            if self.completed[i].eq(id) {
                assert(spec_completed_ids(*self)[i as int] == id@);
                return true;
            }
            i += 1;
        }
        assert forall|j: int|
            0 <= j < spec_completed_ids(*self).len() implies spec_completed_ids(*self)[j]
            != id@ by {}
        false
    }

    /// Notes that a book is mid-flight, so that a snapshot taken at the next
    /// checkpoint records it.
    pub fn mark_in_progress(&mut self, id: String)
        ensures
            final(self).in_progress@ == old(self).in_progress@.push(id),
            final(self).completed@ == old(self).completed@,
            final(self).failed@ == old(self).failed@,
    {
        self.in_progress.push(id);
    }

    /// Clears the mid-flight list, at batch end when every book has reached
    /// a terminal state.
    pub fn clear_in_progress(&mut self)
        ensures
            final(self).in_progress@.len() == 0,
            final(self).completed@ == old(self).completed@,
            final(self).failed@ == old(self).failed@,
    {
        self.in_progress.clear();
    }

    /// Records one book's outcome and says whether the state should be
    /// flushed now: after every fifth recorded outcome.
    pub fn record_result(&mut self, id: String, result: Result<(), String>) -> (checkpoint: bool)
        ensures
            result is Ok ==> final(self).completed@ == old(self).completed@.push(id)
                && final(self).failed@ == old(self).failed@,
            result matches Err(e) ==> final(self).failed@ == old(self).failed@.push((id, e))
                && final(self).completed@ == old(self).completed@,
            final(self).in_progress@ == old(self).in_progress@,
            checkpoint == ((final(self).completed@.len() + final(self).failed@.len()) % 5 == 0),
    {
        match result {
            Ok(()) => self.completed.push(id),
            Err(e) => self.failed.push((id, e)),
        }
        let a = self.completed.len();
        let b = self.failed.len();
        proof {
            lemma_add_mod_noop(a as int, b as int, 5);
        }
        ((a % 5) + (b % 5)) % 5 == 0
    }
}

/// Whether one book is kept in the work set: everything under `force`;
/// under `resume` everything not recorded as completed; otherwise everything
/// whose output is not already present.
pub open spec fn spec_keeps(
    book: BookInfo,
    already_decrypted: bool,
    completed: Seq<Seq<char>>,
    force: bool,
    resume: bool,
) -> bool {
    if force {
        true
    } else if resume {
        !completed.contains(book.id@)
    } else {
        !already_decrypted
    }
}

/// The subsequence of books a run still has to process.
pub open spec fn spec_selected(
    books: Seq<BookInfo>,
    already_decrypted: Seq<bool>,
    completed: Seq<Seq<char>>,
    force: bool,
    resume: bool,
) -> Seq<BookInfo>
    decreases books.len(),
{
    if books.len() == 0 {
        Seq::empty()
    } else {
        let rest = spec_selected(
            books.drop_last(),
            already_decrypted.drop_last(),
            completed,
            force,
            resume,
        );
        if spec_keeps(books.last(), already_decrypted.last(), completed, force, resume) {
            rest.push(books.last())
        } else {
            rest
        }
    }
}

/// Filters the resolved books down to the ones this run must process.
/// `already_decrypted` holds, for each book in order, whether the
/// already-decrypted detection fired for it.
pub fn select_books_to_process(
    books: Vec<BookInfo>,
    already_decrypted: &Vec<bool>,
    state: &ProcessingState,
    force: bool,
    resume: bool,
) -> (r: Vec<BookInfo>)
    requires
        books@.len() == already_decrypted@.len(),
    ensures
        r@ == spec_selected(books@, already_decrypted@, spec_completed_ids(*state), force, resume),
{
    let ghost orig = books@;
    let ghost flags = already_decrypted@;
    let ghost completed = spec_completed_ids(*state);
    let total = books.len();
    let mut rest = books;
    let mut result: Vec<BookInfo> = Vec::new();
    let mut i: usize = 0;
    while rest.len() > 0
        invariant
            0 <= i <= total,
            total == orig.len(),
            orig.len() == flags.len(),
            rest@ =~= orig.subrange(i as int, orig.len() as int),
            flags == already_decrypted@,
            completed == spec_completed_ids(*state),
            result@ == spec_selected(orig.take(i as int), flags.take(i as int), completed, force, resume),
        decreases rest@.len(),
    {
        let book = rest.remove(0);
        assert(book == orig[i as int]);
        let keep = if force {
            true
        } else if resume {
            !state.is_completed(&book.id)
        } else {
            !already_decrypted[i]
        };
        proof {
            assert(orig.take(i as int + 1).drop_last() =~= orig.take(i as int));
            assert(flags.take(i as int + 1).drop_last() =~= flags.take(i as int));
            assert(orig.take(i as int + 1).last() == orig[i as int]);
            assert(flags.take(i as int + 1).last() == flags[i as int]);
        }
        if keep {
            result.push(book);
        }
        i += 1;
    }
    proof {
        assert(orig.take(orig.len() as int) =~= orig);
        assert(flags.take(flags.len() as int) =~= flags);
    }
    result
}

/// After a run in which every book either has its decrypted output present
/// (plain mode) or is recorded as completed (resume mode), a second run with
/// `force` off selects no books at all.
pub proof fn lemma_second_run_selects_nothing(
    books: Seq<BookInfo>,
    already_decrypted: Seq<bool>,
    completed: Seq<Seq<char>>,
    resume: bool,
)
    requires
        books.len() == already_decrypted.len(),
        resume ==> forall|i: int|
            0 <= i < books.len() ==> completed.contains(#[trigger] books[i].id@),
        !resume ==> forall|i: int| 0 <= i < books.len() ==> #[trigger] already_decrypted[i],
    ensures
        spec_selected(books, already_decrypted, completed, false, resume) == Seq::<
            BookInfo,
        >::empty(),
    decreases books.len(),
{
    if books.len() > 0 {
        let last = books.len() - 1;
        if resume {
            assert forall|i: int| 0 <= i < books.drop_last().len() implies completed.contains(
                #[trigger] books.drop_last()[i].id@,
            ) by {
                assert(completed.contains(books[i].id@));
            }
            assert(completed.contains(books[last].id@));
        } else {
            assert(already_decrypted[last]);
        }
        lemma_second_run_selects_nothing(
            books.drop_last(),
            already_decrypted.drop_last(),
            completed,
            resume,
        );
        assert(!spec_keeps(books.last(), already_decrypted.last(), completed, false, resume));
    }
}

/// In resume mode, every selected book is one that is not recorded as
/// completed: a book in `completed` is excluded even when its output file no
/// longer exists.
pub proof fn lemma_resume_selects_only_incomplete(
    books: Seq<BookInfo>,
    already_decrypted: Seq<bool>,
    completed: Seq<Seq<char>>,
)
    requires
        books.len() == already_decrypted.len(),
    ensures
        forall|j: int|
            0 <= j < spec_selected(books, already_decrypted, completed, false, true).len()
                ==> !completed.contains(
                #[trigger] spec_selected(books, already_decrypted, completed, false, true)[j].id@,
            ),
    decreases books.len(),
{
    if books.len() > 0 {
        lemma_resume_selects_only_incomplete(
            books.drop_last(),
            already_decrypted.drop_last(),
            completed,
        );
        let sel = spec_selected(books, already_decrypted, completed, false, true);
        let rest = spec_selected(
            books.drop_last(),
            already_decrypted.drop_last(),
            completed,
            false,
            true,
        );
        assert forall|j: int| 0 <= j < sel.len() implies !completed.contains(sel[j].id@) by {
            if j < rest.len() {
                assert(sel[j] == rest[j]);
            } else {
                assert(sel[j] == books.last());
            }
        }
    }
}

} // verus!
