//! The catalog: records stored under generated identifiers, resolved
//! by a first-match scan on title and author, and toggled between
//! available and borrowed.

use vstd::prelude::*;
use vstd::string::StringExecFns;
use crate::hex::{spec_hex, u64_to_hex};

verus! {

/// The mathematical image of one stored record.
pub ghost struct RecordView {
    pub id: Seq<char>,
    pub title: Seq<char>,
    pub author: Seq<char>,
    pub borrowed: bool,
}

/// One stored record: a generated identifier, the book's title and
/// author, and whether it is currently borrowed.
struct Record {
    id: String,
    title: String,
    author: String,
    borrowed: bool,
}

impl View for Record {
    type V = RecordView;

    closed spec fn view(&self) -> RecordView {
        RecordView {
            id: self.id@,
            title: self.title@,
            author: self.author@,
            borrowed: self.borrowed,
        }
    }
}

/// The catalog of records. Iteration order of the underlying storage
/// is an implementation detail; lookups take the first match.
pub struct Library {
    books: Vec<Record>,
}

impl View for Library {
    type V = Seq<RecordView>;

    closed spec fn view(&self) -> Seq<RecordView> {
        Seq::new(self.books@.len(), |i: int| self.books@[i]@)
    }
}

/// Whether a record answers to the given title and author, compared
/// exactly, byte for byte.
pub open spec fn record_matches(r: RecordView, title: Seq<char>, author: Seq<char>) -> bool {
    r.title == title && r.author == author
}

/// The index of the first record matching the given title and author.
pub open spec fn find_first(c: Seq<RecordView>, title: Seq<char>, author: Seq<char>) -> Option<
    int,
>
    decreases c.len(),
{
    if c.len() == 0 {
        None
    } else if record_matches(c[0], title, author) {
        Some(0)
    } else {
        match find_first(c.drop_first(), title, author) {
            None => None,
            Some(i) => Some(i + 1),
        }
    }
}

/// The index of the first record carrying the given identifier.
pub open spec fn find_id_idx(c: Seq<RecordView>, id: Seq<char>) -> Option<int>
    decreases c.len(),
{
    if c.len() == 0 {
        None
    } else if c[0].id == id {
        Some(0)
    } else {
        match find_id_idx(c.drop_first(), id) {
            None => None,
            Some(i) => Some(i + 1),
        }
    }
}

/// What `find_first` returns: the first matching index if any record
/// matches, and nothing otherwise.
pub proof fn lemma_find_first(c: Seq<RecordView>, title: Seq<char>, author: Seq<char>)
    ensures
        match find_first(c, title, author) {
            None => forall|k: int| 0 <= k < c.len() ==> !record_matches(c[k], title, author),
            Some(i) => 0 <= i < c.len() && record_matches(c[i], title, author) && forall|k: int|
                0 <= k < i ==> !record_matches(c[k], title, author),
        },
    decreases c.len(),
{
    if c.len() > 0 && !record_matches(c[0], title, author) {
        let cc = c.drop_first();
        lemma_find_first(cc, title, author);
        assert(forall|k: int| 0 <= k < cc.len() ==> cc[k] == c[k + 1]);
        match find_first(cc, title, author) {
            None => {
                assert forall|k: int| 0 <= k < c.len() implies !record_matches(
                    c[k],
                    title,
                    author,
                ) by {
                    if k > 0 {
                        assert(cc[k - 1] == c[k]);
                        assert(!record_matches(cc[k - 1], title, author));
                    }
                }
            },
            Some(ii) => {
                assert(c[ii + 1] == cc[ii]);
                assert forall|k: int| 0 <= k < ii + 1 implies !record_matches(
                    c[k],
                    title,
                    author,
                ) by {
                    if k > 0 {
                        assert(cc[k - 1] == c[k]);
                        assert(!record_matches(cc[k - 1], title, author));
                    }
                }
            },
        }
    }
}

/// A position that matches, with no match before it, is exactly what
/// `find_first` returns.
pub proof fn lemma_find_first_complete(
    c: Seq<RecordView>,
    title: Seq<char>,
    author: Seq<char>,
    i: int,
)
    requires
        0 <= i < c.len(),
        record_matches(c[i], title, author),
        forall|k: int| 0 <= k < i ==> !record_matches(c[k], title, author),
    ensures
        find_first(c, title, author) == Some(i),
    decreases c.len(),
{
    if !record_matches(c[0], title, author) {
        let cc = c.drop_first();
        assert(forall|k: int| 0 <= k < cc.len() ==> cc[k] == c[k + 1]);
        lemma_find_first_complete(cc, title, author, i - 1);
    }
}

/// What `find_id_idx` returns: the first index carrying the
/// identifier if any record does, and nothing otherwise.
pub proof fn lemma_find_id_idx(c: Seq<RecordView>, id: Seq<char>)
    ensures
        match find_id_idx(c, id) {
            None => forall|k: int| 0 <= k < c.len() ==> c[k].id != id,
            Some(i) => 0 <= i < c.len() && c[i].id == id && forall|k: int|
                0 <= k < i ==> c[k].id != id,
        },
    decreases c.len(),
{
    if c.len() > 0 && c[0].id != id {
        let cc = c.drop_first();
        lemma_find_id_idx(cc, id);
        assert(forall|k: int| 0 <= k < cc.len() ==> cc[k] == c[k + 1]);
        match find_id_idx(cc, id) {
            None => {
                assert forall|k: int| 0 <= k < c.len() implies c[k].id != id by {
                    if k > 0 {
                        assert(cc[k - 1] == c[k]);
                    }
                }
            },
            Some(ii) => {
                assert(c[ii + 1] == cc[ii]);
                assert forall|k: int| 0 <= k < ii + 1 implies c[k].id != id by {
                    if k > 0 {
                        assert(cc[k - 1] == c[k]);
                    }
                }
            },
        }
    }
}

/// A position carrying the identifier, with no carrier before it, is
/// exactly what `find_id_idx` returns.
pub proof fn lemma_find_id_idx_complete(c: Seq<RecordView>, id: Seq<char>, i: int)
    requires
        0 <= i < c.len(),
        c[i].id == id,
        forall|k: int| 0 <= k < i ==> c[k].id != id,
    ensures
        find_id_idx(c, id) == Some(i),
    decreases c.len(),
{
    if c[0].id != id {
        let cc = c.drop_first();
        assert(forall|k: int| 0 <= k < cc.len() ==> cc[k] == c[k + 1]);
        lemma_find_id_idx_complete(cc, id, i - 1);
    }
}

/// The generated identifier: the title, a hyphen, and the random
/// component rendered in lowercase hexadecimal.
pub open spec fn spec_make_id(title: Seq<char>, key: u64) -> Seq<char> {
    title + seq!['-'] + spec_hex(key as nat)
}

/// The record that an insertion with the given random component adds:
/// freshly added records are not borrowed.
pub open spec fn spec_new_record(title: Seq<char>, author: Seq<char>, key: u64) -> RecordView {
    RecordView { id: spec_make_id(title, key), title: title, author: author, borrowed: false }
}

/// Map-like insertion: a record replaces the record already carrying
/// its identifier, if there is one, and is appended otherwise.
pub open spec fn spec_insert(c: Seq<RecordView>, r: RecordView) -> Seq<RecordView> {
    match find_id_idx(c, r.id) {
        Some(j) => c.update(j, r),
        None => c.push(r),
    }
}

/// The catalog after adding a record for the given title and author
/// with the given random component.
pub open spec fn spec_add(
    c: Seq<RecordView>,
    title: Seq<char>,
    author: Seq<char>,
    key: u64,
) -> Seq<RecordView> {
    spec_insert(c, spec_new_record(title, author, key))
}

/// No two records carry the same identifier.
pub open spec fn ids_unique(c: Seq<RecordView>) -> bool {
    forall|i: int, j: int| 0 <= i < j < c.len() ==> c[i].id != c[j].id
}

impl Library {
    /// Identifiers are unique, as keys of a map: established at
    /// creation and preserved by every operation.
    pub open spec fn wf(&self) -> bool {
        ids_unique(self@)
    }

    /// An empty catalog.
    pub fn new() -> (l: Library)
        ensures
            l@ == Seq::<RecordView>::empty(),
            l.wf(),
    {
        let l = Library { books: Vec::new() };
        proof {
            assert(l@ =~= Seq::<RecordView>::empty());
        }
        l
    }

    /// How many records the catalog holds.
    pub fn record_count(&self) -> (n: usize)
        ensures
            n == self@.len(),
    {
        self.books.len()
    }

    /// The index of the first record matching the given title and
    /// author, if any.
    fn find_index(&self, title: &str, author: &str) -> (r: Option<usize>)
        ensures
            match r {
                None => find_first(self@, title@, author@) is None,
                Some(i) => i < self@.len() && find_first(self@, title@, author@) == Some(
                    i as int,
                ),
            },
    {
        let t = title.to_owned();
        let a = author.to_owned();
        let n = self.books.len();
        let mut j: usize = 0;
        while j < n
            invariant
                n == self@.len(),
                j <= n,
                t@ == title@,
                a@ == author@,
                forall|k: int| 0 <= k < j ==> !record_matches(self@[k], title@, author@),
            decreases n - j,
        {
            if self.books[j].title == t && self.books[j].author == a {
                proof {
                    assert(record_matches(self@[j as int], title@, author@));
                    lemma_find_first_complete(self@, title@, author@, j as int);
                }
                return Some(j);
            }
            j = j + 1;
        }
        proof {
            lemma_find_first(self@, title@, author@);
        }
        None
    }

    /// The identifier of the first record matching the given title
    /// and author, if any.
    pub fn get_book_id(&self, title: &str, author: &str) -> (r: Option<String>)
        ensures
            r.deep_view() == spec_find_id(self@, title@, author@),
    {
        match self.find_index(title, author) {
            None => None,
            Some(i) => Some(self.books[i].id.clone()),
        }
    }

    /// The index of the first record carrying the given identifier,
    /// if any.
    fn find_by_id(&self, id: &String) -> (r: Option<usize>)
        ensures
            match r {
                None => find_id_idx(self@, id@) is None,
                Some(j) => j < self@.len() && find_id_idx(self@, id@) == Some(j as int),
            },
    {
        let n = self.books.len();
        let mut j: usize = 0;
        while j < n
            invariant
                n == self@.len(),
                j <= n,
                forall|k: int| 0 <= k < j ==> self@[k].id != id@,
            decreases n - j,
        {
            if self.books[j].id == *id {
                proof {
                    lemma_find_id_idx_complete(self@, id@, j as int);
                }
                return Some(j);
            }
            j = j + 1;
        }
        proof {
            lemma_find_id_idx(self@, id@);
        }
        None
    }

    /// Adds a record for the given title and author whose identifier
    /// is built from the given random component. As in a map, the new
    /// record replaces a record already carrying the same identifier,
    /// and is appended otherwise. The fresh record is not borrowed.
    pub fn add_book_keyed(&mut self, title: &str, author: &str, key: u64)
        ensures
            final(self)@ == spec_add(old(self)@, title@, author@, key),
            old(self).wf() ==> final(self).wf(),
    {
        let id = make_id(title, key);
        let pos = self.find_by_id(&id);
        let rec = Record {
            id,
            title: title.to_owned(),
            author: author.to_owned(),
            borrowed: false,
        };
        proof {
            assert(rec@ == spec_new_record(title@, author@, key));
        }
        match pos {
            Some(j) => {
                proof {
                    lemma_find_id_idx(old(self)@, rec@.id);
                }
                self.books[j] = rec;
                proof {
                    assert(self@ =~= old(self)@.update(
                        j as int,
                        spec_new_record(title@, author@, key),
                    ));
                    if old(self).wf() {
                        lemma_ids_unique_same_ids(old(self)@, self@);
                    }
                }
            },
            None => {
                proof {
                    lemma_find_id_idx(old(self)@, rec@.id);
                }
                self.books.push(rec);
                proof {
                    assert(self@ =~= old(self)@.push(spec_new_record(title@, author@, key)));
                    if old(self).wf() {
                        assert forall|x: int, y: int|
                            0 <= x < y < self@.len() implies self@[x].id != self@[y].id by {
                            if y < self@.len() - 1 {
                                assert(old(self)@[x].id != old(self)@[y].id);
                            } else {
                                assert(old(self)@[x].id != spec_new_record(
                                    title@,
                                    author@,
                                    key,
                                ).id);
                            }
                        }
                    }
                }
            },
        }
    }

    /// Adds a record for the given title and author, under an
    /// identifier built from a random 64-bit component.
    pub fn add_book(&mut self, title: &str, author: &str)
        ensures
            exists|key: u64| final(self)@ == spec_add(old(self)@, title@, author@, key),
            old(self).wf() ==> final(self).wf(),
    {
        let key: u64 = rand::random::<u64>();
        self.add_book_keyed(title, author, key);
        proof {
            assert(self@ == spec_add(old(self)@, title@, author@, key));
        }
    }

    /// Attempts to borrow the first record matching the given title
    /// and author. A record found available becomes borrowed. A record
    /// found borrowed is left unchanged, with an error. A missing
    /// record still reports success, with nothing changed.
    pub fn borrow_book(&mut self, title: &str, author: &str) -> (r: Result<String, String>)
        ensures
            final(self)@ == spec_borrow(old(self)@, title@, author@).0,
            (r is Ok) == spec_borrow(old(self)@, title@, author@).1,
            r matches Ok(m) ==> m@ == borrow_ok_msg(),
            r matches Err(m) ==> m@ == already_borrowed_msg(),
            old(self).wf() ==> final(self).wf(),
    {
        match self.find_index(title, author) {
            None => Ok("[SUCCESS] - Book: {title} is borrowed!".to_owned()),
            Some(i) => {
                if self.books[i].borrowed {
                    Err("Book already borrowed!".to_owned())
                } else {
                    self.books[i].borrowed = true;
                    proof {
                        assert(self@ =~= spec_borrow(old(self)@, title@, author@).0);
                        if old(self).wf() {
                            lemma_ids_unique_same_ids(old(self)@, self@);
                        }
                    }
                    Ok("[SUCCESS] - Book: {title} is borrowed!".to_owned())
                }
            },
        }
    }

    /// Attempts to return the first record matching the given title
    /// and author. A record found borrowed becomes available. A record
    /// found available is left unchanged, with an error. A missing
    /// record still reports success, with nothing changed.
    pub fn return_book(&mut self, title: &str, author: &str) -> (r: Result<String, String>)
        ensures
            final(self)@ == spec_return(old(self)@, title@, author@).0,
            (r is Ok) == spec_return(old(self)@, title@, author@).1,
            r matches Ok(m) ==> m@ == return_ok_msg(),
            r matches Err(m) ==> m@ == not_borrowed_msg(),
            old(self).wf() ==> final(self).wf(),
    {
        match self.find_index(title, author) {
            None => Ok("[SUCCESS] - Book: {title} is returned!".to_owned()),
            Some(i) => {
                if !self.books[i].borrowed {
                    Err("Book not already borrowed!".to_owned())
                } else {
                    self.books[i].borrowed = false;
                    proof {
                        assert(self@ =~= spec_return(old(self)@, title@, author@).0);
                        if old(self).wf() {
                            lemma_ids_unique_same_ids(old(self)@, self@);
                        }
                    }
                    Ok("[SUCCESS] - Book: {title} is returned!".to_owned())
                }
            },
        }
    }

    /// Renders one inventory line per record, in storage order.
    pub fn list_books(&self) -> (lines: Vec<String>)
        ensures
            lines@.len() == self@.len(),
            forall|i: int| 0 <= i < self@.len() ==> lines@[i]@ == spec_line(self@[i]),
    {
        let mut lines: Vec<String> = Vec::new();
        let n = self.books.len();
        let mut j: usize = 0;
        while j < n
            invariant
                n == self@.len(),
                j <= n,
                lines@.len() == j,
                forall|i: int| 0 <= i < j ==> lines@[i]@ == spec_line(self@[i]),
            decreases n - j,
        {
            let mut s = self.books[j].title.clone();
            s.append(" by ");
            s.append(self.books[j].author.as_str());
            s.append(" (Borrowed: ");
            if self.books[j].borrowed {
                s.append("Yes");
            } else {
                s.append("No");
            }
            s.append(")");
            proof {
                assert(s@ =~= spec_line(self@[j as int]));
            }
            lines.push(s);
            j = j + 1;
        }
        lines
    }
}

/// Catalogs with the same identifier at every position are alike in
/// having no identifier twice.
proof fn lemma_ids_unique_same_ids(c1: Seq<RecordView>, c2: Seq<RecordView>)
    requires
        ids_unique(c1),
        c1.len() == c2.len(),
        forall|k: int| 0 <= k < c1.len() ==> c1[k].id == c2[k].id,
    ensures
        ids_unique(c2),
{
    assert forall|x: int, y: int| 0 <= x < y < c2.len() implies c2[x].id != c2[y].id by {
        assert(c1[x].id != c1[y].id);
    }
}

/// The catalog and success flag after a borrow attempt: a missing
/// record still reports success with nothing changed; a record found
/// borrowed fails with nothing changed; a record found available
/// becomes borrowed, with success.
pub open spec fn spec_borrow(c: Seq<RecordView>, title: Seq<char>, author: Seq<char>) -> (
    Seq<RecordView>,
    bool,
) {
    match find_first(c, title, author) {
        None => (c, true),
        Some(i) => if c[i].borrowed {
            (c, false)
        } else {
            (
                c.update(
                    i,
                    RecordView {
                        id: c[i].id,
                        title: c[i].title,
                        author: c[i].author,
                        borrowed: true,
                    },
                ),
                true,
            )
        },
    }
}

/// The catalog and success flag after a return attempt: a missing
/// record still reports success with nothing changed; a record found
/// available fails with nothing changed; a record found borrowed
/// becomes available, with success.
pub open spec fn spec_return(c: Seq<RecordView>, title: Seq<char>, author: Seq<char>) -> (
    Seq<RecordView>,
    bool,
) {
    match find_first(c, title, author) {
        None => (c, true),
        Some(i) => if !c[i].borrowed {
            (c, false)
        } else {
            (
                c.update(
                    i,
                    RecordView {
                        id: c[i].id,
                        title: c[i].title,
                        author: c[i].author,
                        borrowed: false,
                    },
                ),
                true,
            )
        },
    }
}

/// The message reported on a successful (or missing-record) borrow.
pub open spec fn borrow_ok_msg() -> Seq<char> {
    "[SUCCESS] - Book: {title} is borrowed!"@
}

/// The message reported when the record is already borrowed.
pub open spec fn already_borrowed_msg() -> Seq<char> {
    "Book already borrowed!"@
}

/// The message reported on a successful (or missing-record) return.
pub open spec fn return_ok_msg() -> Seq<char> {
    "[SUCCESS] - Book: {title} is returned!"@
}

/// The message reported when the record was not borrowed.
pub open spec fn not_borrowed_msg() -> Seq<char> {
    "Book not already borrowed!"@
}

/// The line that the inventory listing renders for one record.
pub open spec fn spec_line(r: RecordView) -> Seq<char> {
    r.title + " by "@ + r.author + " (Borrowed: "@ + (if r.borrowed {
        "Yes"@
    } else {
        "No"@
    }) + ")"@
}

/// The identifier that a lookup by title and author yields: that of
/// the first matching record.
pub open spec fn spec_find_id(c: Seq<RecordView>, title: Seq<char>, author: Seq<char>) -> Option<
    Seq<char>,
> {
    match find_first(c, title, author) {
        None => None,
        Some(i) => Some(c[i].id),
    }
}

/// Builds the identifier for a title and a random component.
fn make_id(title: &str, key: u64) -> (r: String)
    ensures
        r@ == spec_make_id(title@, key),
{
    let mut r = title.to_owned();
    r.append("-");
    let h = u64_to_hex(key);
    r.append(h.as_str());
    proof {
        reveal_strlit("-");
        assert("-"@ =~= seq!['-']);
        assert(r@ =~= spec_make_id(title@, key));
    }
    r
}

} // verus!
