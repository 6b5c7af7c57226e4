use vstd::prelude::*;
use crate::book::{Book, BookV, BorrowEntry};
use crate::error::ErrorKind;
use crate::the_book::{TheBook, TheBookV};

verus! {

/// Spec-level image of the catalog.
#[verifier::ext_equal]
pub struct BookSystemV {
    pub books: Seq<TheBookV>,
    pub next_id: u64,
}

/// The catalog: every title aggregate, in insertion order, together
/// with the counter that hands out stable copy ids.
pub struct BookSystem {
    pub books: Vec<TheBook>,
    pub next_id: u64,
}

impl View for BookSystem {
    type V = BookSystemV;

    open spec fn view(&self) -> BookSystemV {
        BookSystemV {
            books: self.books@.map_values(|t: TheBook| t@),
            next_id: self.next_id,
        }
    }
}

impl BookSystemV {
    /// Whether `(i, k)` addresses a physical copy.
    pub open spec fn valid_copy(self, i: int, k: int) -> bool {
        0 <= i < self.books.len() && 0 <= k < self.books[i].books.len()
    }

    /// The copy at aggregate `i`, position `k`.
    pub open spec fn copy_at(self, i: int, k: int) -> BookV {
        self.books[i].books[k]
    }

    /// Whether some copy carries the stable id `cid`.
    pub open spec fn has_copy_id(self, cid: u64) -> bool {
        exists|i: int, k: int| self.valid_copy(i, k) && (#[trigger] self.copy_at(i, k)).id == cid
    }

    /// The position of the copy with stable id `cid` (unique while
    /// the catalog is well formed).
    pub open spec fn loc_of(self, cid: u64) -> (int, int) {
        choose|i: int, k: int| self.valid_copy(i, k) && (#[trigger] self.copy_at(i, k)).id == cid
    }

    /// This catalog with the copy at `(i, k)` replaced by `c`.
    pub open spec fn with_copy(self, i: int, k: int, c: BookV) -> BookSystemV {
        BookSystemV {
            books: self.books.update(
                i,
                TheBookV { books: self.books[i].books.update(k, c), ..self.books[i] },
            ),
            ..self
        }
    }

    /// Whether some aggregate carries the given identity.
    pub open spec fn has_identity(self, title: Seq<char>, author: Seq<char>, pages: u16) -> bool {
        exists|i: int|
            0 <= i < self.books.len() && (#[trigger] self.books[i]).has_identity(
                title,
                author,
                pages,
            )
    }

    /// Every aggregate is well formed, no identity repeats, and the
    /// stable copy ids are pairwise distinct and below `next_id`.
    pub open spec fn wf(self) -> bool {
        &&& forall|i: int| 0 <= i < self.books.len() ==> (#[trigger] self.books[i]).wf()
        &&& forall|i: int, j: int|
            #![trigger self.books[i], self.books[j]]
            0 <= i < self.books.len() && 0 <= j < self.books.len() && i != j
                ==> !self.books[i].has_identity(
                self.books[j].title,
                self.books[j].author,
                self.books[j].pages,
            )
        &&& forall|i: int, k: int|
            self.valid_copy(i, k) ==> (#[trigger] self.copy_at(i, k)).id < self.next_id
        &&& forall|i1: int, k1: int, i2: int, k2: int|
            #![trigger self.copy_at(i1, k1), self.copy_at(i2, k2)]
            self.valid_copy(i1, k1) && self.valid_copy(i2, k2) && (i1 != i2 || k1 != k2)
                ==> self.copy_at(i1, k1).id != self.copy_at(i2, k2).id
    }

    /// The stable ids, in order, of the copies of the aggregate at
    /// `i`.
    pub open spec fn copy_ids_of(self, i: int) -> Seq<u64> {
        Seq::new(self.books[i].books.len(), |k: int| self.books[i].books[k].id)
    }

    /// The identities, in catalog order, of the aggregates that carry
    /// genre `g`.
    pub open spec fn with_genre(self, g: Seq<char>) -> Seq<TheBookV> {
        self.books.filter(genre_pred(g))
    }
}

/// The predicate keeping every aggregate that carries genre `g`.
pub open spec fn genre_pred(g: Seq<char>) -> spec_fn(TheBookV) -> bool {
    |t: TheBookV| t.has_genre(g)
}

/// The identity triple of an aggregate's image.
pub open spec fn identity_triple() -> spec_fn(TheBookV) -> (Seq<char>, Seq<char>, u16) {
    |t: TheBookV| (t.title, t.author, t.pages)
}

/// The views of an identity triple of strings.
pub open spec fn triple_view() -> spec_fn((String, String, u16)) -> (Seq<char>, Seq<char>, u16) {
    |t: (String, String, u16)| (t.0@, t.1@, t.2)
}

impl BookSystem {
    /// An empty catalog.
    pub fn new() -> (r: BookSystem)
        ensures
            r@.books == Seq::<TheBookV>::empty(),
            r@.next_id == 0,
            r@.wf(),
    {
        let r = BookSystem { books: Vec::new(), next_id: 0 };
        proof {
            assert(r@.books =~= Seq::<TheBookV>::empty());
        }
        r
    }

    /// Index of the aggregate carrying the given identity, or the
    /// aggregate count when none does.
    pub fn find_book(&self, title: &String, author: &String, pages: u16) -> (r: usize)
        ensures
            r <= self@.books.len(),
            r < self@.books.len() ==> self@.books[r as int].has_identity(title@, author@, pages)
                && (forall|j: int|
                0 <= j < r ==> !(#[trigger] self@.books[j]).has_identity(title@, author@, pages)),
            r == self@.books.len() ==> !self@.has_identity(title@, author@, pages),
    {
        let n = self.books.len();
        let mut i: usize = 0;
        while i < n
            invariant
                i <= n,
                n == self@.books.len(),
                forall|j: int|
                    0 <= j < i ==> !(#[trigger] self@.books[j]).has_identity(
                        title@,
                        author@,
                        pages,
                    ),
            decreases n - i,
        {
            proof {
                assert(self@.books[i as int] == self.books@[i as int]@);
            }
            let t = &self.books[i];
            if t.title == *title && t.author == *author && t.pages == pages {
                return i;
            }
            i += 1;
        }
        proof {
            if self@.has_identity(title@, author@, pages) {
                let j = choose|j: int|
                    0 <= j < self@.books.len() && (#[trigger] self@.books[j]).has_identity(
                        title@,
                        author@,
                        pages,
                    );
                assert(!self@.books[j].has_identity(title@, author@, pages));
            }
        }
        i
    }

    /// Add a new title aggregate with one first copy. Fails with
    /// `AlreadyExists`, changing nothing, when the identity is
    /// already in the catalog.
    pub fn add_title(&mut self, title: String, author: String, pages: u16) -> (r: Result<
        (),
        ErrorKind,
    >)
        requires
            old(self)@.wf(),
            old(self)@.next_id < u64::MAX,
        ensures
            final(self)@.wf(),
            old(self)@.has_identity(title@, author@, pages) ==> r == Err::<(), ErrorKind>(
                ErrorKind::AlreadyExists,
            ) && final(self)@ == old(self)@,
            !old(self)@.has_identity(title@, author@, pages) ==> r == Ok::<(), ErrorKind>(())
                && final(self)@.next_id == old(self)@.next_id + 1 && final(self)@.books
                == old(self)@.books.push(
                TheBookV {
                    title: title@,
                    author: author@,
                    pages: pages,
                    books: seq![
                        BookV {
                            title: title@,
                            author: author@,
                            pages: pages,
                            id: old(self)@.next_id,
                            is_using: false,
                            readers: Seq::<BorrowEntry>::empty(),
                        },
                    ],
                    genres: Option::None,
                },
            ),
    {
        let found = self.find_book(&title, &author, pages);
        if found < self.books.len() {
            return Err(ErrorKind::AlreadyExists);
        }
        let ghost oldv = self@;
        let t = TheBook::new(title, author, pages, self.next_id);
        proof {
            assert(t@.books =~= seq![t@.books[0]]);
        }
        self.books.push(t);
        self.next_id = self.next_id + 1;
        proof {
            assert(final(self)@.books =~= oldv.books.push(t@));
            let newv = final(self)@;
            assert forall|i1: int, k1: int, i2: int, k2: int|
                #![trigger newv.copy_at(i1, k1), newv.copy_at(i2, k2)]
                newv.valid_copy(i1, k1) && newv.valid_copy(i2, k2) && (i1 != i2 || k1 != k2)
                    implies newv.copy_at(i1, k1).id != newv.copy_at(i2, k2).id by {
                if i1 < oldv.books.len() {
                    assert(newv.copy_at(i1, k1) == oldv.copy_at(i1, k1));
                }
                if i2 < oldv.books.len() {
                    assert(newv.copy_at(i2, k2) == oldv.copy_at(i2, k2));
                }
            }
            assert forall|i: int, k: int| newv.valid_copy(i, k) implies (#[trigger] newv.copy_at(
                i,
                k,
            )).id < newv.next_id by {
                if i < oldv.books.len() {
                    assert(newv.copy_at(i, k) == oldv.copy_at(i, k));
                }
            }
        }
        Ok(())
    }

    /// Append one new unused copy to the aggregate at `b_ind`.
    pub fn add_copy(&mut self, b_ind: usize) -> (r: Result<(), ErrorKind>)
        requires
            old(self)@.wf(),
            old(self)@.next_id < u64::MAX,
        ensures
            final(self)@.wf(),
            b_ind >= old(self)@.books.len() ==> r == Err::<(), ErrorKind>(
                ErrorKind::IndexOutOfRange,
            ) && final(self)@ == old(self)@,
            b_ind < old(self)@.books.len() ==> r == Ok::<(), ErrorKind>(())
                && final(self)@.next_id == old(self)@.next_id + 1 && final(self)@.books
                == old(self)@.books.update(
                b_ind as int,
                TheBookV {
                    books: old(self)@.books[b_ind as int].books.push(
                        BookV {
                            title: old(self)@.books[b_ind as int].title,
                            author: old(self)@.books[b_ind as int].author,
                            pages: old(self)@.books[b_ind as int].pages,
                            id: old(self)@.next_id,
                            is_using: false,
                            readers: Seq::<BorrowEntry>::empty(),
                        },
                    ),
                    ..old(self)@.books[b_ind as int]
                },
            ),
    {
        if b_ind >= self.books.len() {
            return Err(ErrorKind::IndexOutOfRange);
        }
        let ghost oldv = self@;
        let mut tmp = TheBook::new(String::new(), String::new(), 0, 0);
        self.books.set_and_swap(b_ind, &mut tmp);
        tmp.add_book(self.next_id);
        self.books.set_and_swap(b_ind, &mut tmp);
        self.next_id = self.next_id + 1;
        proof {
            assert(final(self)@.books =~= oldv.books.update(
                b_ind as int,
                TheBookV {
                    books: oldv.books[b_ind as int].books.push(
                        BookV {
                            title: oldv.books[b_ind as int].title,
                            author: oldv.books[b_ind as int].author,
                            pages: oldv.books[b_ind as int].pages,
                            id: oldv.next_id,
                            is_using: false,
                            readers: Seq::<BorrowEntry>::empty(),
                        },
                    ),
                    ..oldv.books[b_ind as int]
                },
            ));
            let newv = final(self)@;
            assert(newv.books[b_ind as int].wf());
            assert forall|i1: int, k1: int, i2: int, k2: int|
                #![trigger newv.copy_at(i1, k1), newv.copy_at(i2, k2)]
                newv.valid_copy(i1, k1) && newv.valid_copy(i2, k2) && (i1 != i2 || k1 != k2)
                    implies newv.copy_at(i1, k1).id != newv.copy_at(i2, k2).id by {
                if i1 != b_ind || k1 < oldv.books[b_ind as int].books.len() {
                    assert(newv.copy_at(i1, k1) == oldv.copy_at(i1, k1));
                }
                if i2 != b_ind || k2 < oldv.books[b_ind as int].books.len() {
                    assert(newv.copy_at(i2, k2) == oldv.copy_at(i2, k2));
                }
            }
            assert forall|i: int, k: int| newv.valid_copy(i, k) implies (#[trigger] newv.copy_at(
                i,
                k,
            )).id < newv.next_id by {
                if i != b_ind || k < oldv.books[b_ind as int].books.len() {
                    assert(newv.copy_at(i, k) == oldv.copy_at(i, k));
                }
            }
        }
        Ok(())
    }

    /// Start a borrow of the copy at `(b_ind, k)` by reader `reader`.
    pub fn begin_borrow_copy(&mut self, b_ind: usize, k: usize, reader: u64) -> (r: Result<
        (),
        ErrorKind,
    >)
        requires
            old(self)@.valid_copy(b_ind as int, k as int),
        ensures
            old(self)@.copy_at(b_ind as int, k as int).is_using ==> r == Err::<(), ErrorKind>(
                ErrorKind::AlreadyInUse,
            ) && final(self)@ == old(self)@,
            !old(self)@.copy_at(b_ind as int, k as int).is_using ==> r == Ok::<(), ErrorKind>(())
                && final(self)@ == old(self)@.with_copy(
                b_ind as int,
                k as int,
                BookV {
                    is_using: true,
                    readers: old(self)@.copy_at(b_ind as int, k as int).readers.push(
                        BorrowEntry { reader, returned: false },
                    ),
                    ..old(self)@.copy_at(b_ind as int, k as int)
                },
            ),
    {
        let ghost oldv = self@;
        let mut tmp = TheBook::new(String::new(), String::new(), 0, 0);
        self.books.set_and_swap(b_ind, &mut tmp);
        let mut tmpb = Book::new(String::new(), String::new(), 0, 0);
        tmp.books.set_and_swap(k, &mut tmpb);
        let r = tmpb.begin_borrow(reader);
        tmp.books.set_and_swap(k, &mut tmpb);
        self.books.set_and_swap(b_ind, &mut tmp);
        proof {
            if oldv.copy_at(b_ind as int, k as int).is_using {
                assert(final(self)@ =~~= oldv);
            } else {
                assert(final(self)@ =~~= oldv.with_copy(
                    b_ind as int,
                    k as int,
                    BookV {
                        is_using: true,
                        readers: oldv.copy_at(b_ind as int, k as int).readers.push(
                            BorrowEntry { reader, returned: false },
                        ),
                        ..oldv.copy_at(b_ind as int, k as int)
                    },
                ));
            }
        }
        r
    }

    /// End the borrow of the copy at `(b_ind, k)`.
    pub fn end_borrow_copy(&mut self, b_ind: usize, k: usize) -> (r: Result<(), ErrorKind>)
        requires
            old(self)@.valid_copy(b_ind as int, k as int),
            old(self)@.copy_at(b_ind as int, k as int).wf(),
        ensures
            !old(self)@.copy_at(b_ind as int, k as int).is_using ==> r == Err::<(), ErrorKind>(
                ErrorKind::NotInUse,
            ) && final(self)@ == old(self)@,
            old(self)@.copy_at(b_ind as int, k as int).is_using ==> r == Ok::<(), ErrorKind>(())
                && final(self)@ == old(self)@.with_copy(
                b_ind as int,
                k as int,
                old(self)@.copy_at(b_ind as int, k as int).with_last_returned(),
            ),
    {
        let ghost oldv = self@;
        let mut tmp = TheBook::new(String::new(), String::new(), 0, 0);
        self.books.set_and_swap(b_ind, &mut tmp);
        let mut tmpb = Book::new(String::new(), String::new(), 0, 0);
        tmp.books.set_and_swap(k, &mut tmpb);
        let r = tmpb.end_borrow();
        tmp.books.set_and_swap(k, &mut tmpb);
        self.books.set_and_swap(b_ind, &mut tmp);
        proof {
            if oldv.copy_at(b_ind as int, k as int).is_using {
                assert(final(self)@ =~~= oldv.with_copy(
                    b_ind as int,
                    k as int,
                    oldv.copy_at(b_ind as int, k as int).with_last_returned(),
                ));
            } else {
                assert(final(self)@ =~~= oldv);
            }
        }
        r
    }

    /// Detach reader `reader` from the copy at `(b_ind, k)`, as part
    /// of removing that reader.
    pub fn detach_reader_copy(&mut self, b_ind: usize, k: usize, reader: u64)
        requires
            old(self)@.valid_copy(b_ind as int, k as int),
            old(self)@.copy_at(b_ind as int, k as int).wf(),
        ensures
            old(self)@.copy_at(b_ind as int, k as int).is_using && old(self)@.copy_at(
                b_ind as int,
                k as int,
            ).holder() == reader ==> final(self)@ == old(self)@.with_copy(
                b_ind as int,
                k as int,
                old(self)@.copy_at(b_ind as int, k as int).with_last_returned(),
            ),
            !(old(self)@.copy_at(b_ind as int, k as int).is_using && old(self)@.copy_at(
                b_ind as int,
                k as int,
            ).holder() == reader) ==> final(self)@ == old(self)@,
    {
        let ghost oldv = self@;
        let mut tmp = TheBook::new(String::new(), String::new(), 0, 0);
        self.books.set_and_swap(b_ind, &mut tmp);
        let mut tmpb = Book::new(String::new(), String::new(), 0, 0);
        tmp.books.set_and_swap(k, &mut tmpb);
        tmpb.detach_reader(reader);
        tmp.books.set_and_swap(k, &mut tmpb);
        self.books.set_and_swap(b_ind, &mut tmp);
        proof {
            if oldv.copy_at(b_ind as int, k as int).is_using && oldv.copy_at(
                b_ind as int,
                k as int,
            ).holder() == reader {
                assert(final(self)@ =~~= oldv.with_copy(
                    b_ind as int,
                    k as int,
                    oldv.copy_at(b_ind as int, k as int).with_last_returned(),
                ));
            } else {
                assert(final(self)@ =~~= oldv);
            }
        }
    }

    /// Position of the copy with stable id `cid`, or `None` when no
    /// copy carries it.
    pub fn find_copy_by_id(&self, cid: u64) -> (r: Option<(usize, usize)>)
        ensures
            r matches Some(p) ==> self@.valid_copy(p.0 as int, p.1 as int) && self@.copy_at(
                p.0 as int,
                p.1 as int,
            ).id == cid,
            r is None ==> !self@.has_copy_id(cid),
    {
        let n = self.books.len();
        let mut i: usize = 0;
        while i < n
            invariant
                i <= n,
                n == self@.books.len(),
                forall|i0: int, k0: int|
                    self@.valid_copy(i0, k0) && i0 < i ==> (#[trigger] self@.copy_at(i0, k0)).id
                        != cid,
            decreases n - i,
        {
            proof {
                assert(self@.books[i as int] == self.books@[i as int]@);
            }
            let m = self.books[i].books.len();
            let mut k: usize = 0;
            while k < m
                invariant
                    i < n,
                    k <= m,
                    n == self@.books.len(),
                    m == self@.books[i as int].books.len(),
                    forall|i0: int, k0: int|
                        self@.valid_copy(i0, k0) && i0 < i ==> (#[trigger] self@.copy_at(
                            i0,
                            k0,
                        )).id != cid,
                    forall|k0: int|
                        0 <= k0 < k ==> (#[trigger] self@.copy_at(i as int, k0)).id != cid,
                decreases m - k,
            {
                proof {
                    assert(self@.books[i as int] == self.books@[i as int]@);
                    assert(self@.copy_at(i as int, k as int) == self.books@[i as int]@.books[k as int]);
                }
                if self.books[i].books[k].id == cid {
                    return Some((i, k));
                }
                k += 1;
            }
            i += 1;
        }
        proof {
            if self@.has_copy_id(cid) {
                let (i0, k0) = choose|i0: int, k0: int|
                    self@.valid_copy(i0, k0) && (#[trigger] self@.copy_at(i0, k0)).id == cid;
                assert(self@.copy_at(i0, k0).id != cid);
            }
        }
        None
    }

    /// Detach reader `reader` from the copy with stable id `cid`, as
    /// part of removing that reader: when the copy exists, is lent
    /// out and its current holder is that reader, its open history
    /// entry is marked returned and its usage flag cleared; in every
    /// other case nothing changes.
    pub fn detach_reader_by_id(&mut self, cid: u64, reader: u64)
        requires
            old(self)@.wf(),
        ensures
            final(self)@.wf(),
            !old(self)@.has_copy_id(cid) ==> final(self)@ == old(self)@,
            old(self)@.has_copy_id(cid) ==> {
                let (i, k) = old(self)@.loc_of(cid);
                if old(self)@.copy_at(i, k).is_using && old(self)@.copy_at(i, k).holder()
                    == reader {
                    final(self)@ == old(self)@.with_copy(
                        i,
                        k,
                        old(self)@.copy_at(i, k).with_last_returned(),
                    )
                } else {
                    final(self)@ == old(self)@
                }
            },
    {
        let ghost oldv = self@;
        let loc = match self.find_copy_by_id(cid) {
            None => {
                return ;
            },
            Some(p) => p,
        };
        let (i, k) = loc;
        proof {
            assert(oldv.has_copy_id(cid));
            let (i1, k1) = oldv.loc_of(cid);
            assert(oldv.valid_copy(i1, k1) && oldv.copy_at(i1, k1).id == cid);
            assert(i1 == i as int && k1 == k as int);
            assert(oldv.copy_at(i as int, k as int).wf());
        }
        self.detach_reader_copy(i, k, reader);
        proof {
            if oldv.copy_at(i as int, k as int).is_using && oldv.copy_at(
                i as int,
                k as int,
            ).holder() == reader {
                lemma_wf_after_copy_update(oldv, final(self)@, i as int, k as int);
            }
        }
    }

    /// Remove the copy at `(b_ind, k)` from its aggregate. The caller
    /// is expected to purge reader references to it first.
    pub fn remove_copy_at(&mut self, b_ind: usize, k: usize)
        requires
            old(self)@.valid_copy(b_ind as int, k as int),
        ensures
            final(self)@ == (BookSystemV {
                books: old(self)@.books.update(
                    b_ind as int,
                    TheBookV {
                        books: old(self)@.books[b_ind as int].books.remove(k as int),
                        ..old(self)@.books[b_ind as int]
                    },
                ),
                ..old(self)@
            }),
            old(self)@.wf() ==> final(self)@.wf(),
    {
        let ghost oldv = self@;
        let mut tmp = TheBook::new(String::new(), String::new(), 0, 0);
        self.books.set_and_swap(b_ind, &mut tmp);
        let r = tmp.remove_book(k);
        self.books.set_and_swap(b_ind, &mut tmp);
        proof {
            assert(r is Ok);
            assert(final(self)@ =~~= (BookSystemV {
                books: oldv.books.update(
                    b_ind as int,
                    TheBookV {
                        books: oldv.books[b_ind as int].books.remove(k as int),
                        ..oldv.books[b_ind as int]
                    },
                ),
                ..oldv
            }));
            if oldv.wf() {
                let newv = final(self)@;
                assert forall|i1: int, k1: int, i2: int, k2: int|
                    #![trigger newv.copy_at(i1, k1), newv.copy_at(i2, k2)]
                    newv.valid_copy(i1, k1) && newv.valid_copy(i2, k2) && (i1 != i2 || k1 != k2)
                        implies newv.copy_at(i1, k1).id != newv.copy_at(i2, k2).id by {
                    let m1: int = if i1 == b_ind && k1 >= k { k1 + 1 } else { k1 };
                    let m2: int = if i2 == b_ind && k2 >= k { k2 + 1 } else { k2 };
                    assert(newv.copy_at(i1, k1) == oldv.copy_at(i1, m1));
                    assert(newv.copy_at(i2, k2) == oldv.copy_at(i2, m2));
                }
                assert forall|i: int, k0: int| newv.valid_copy(i, k0) implies (
                #[trigger] newv.copy_at(i, k0)).id < newv.next_id by {
                    let m: int = if i == b_ind && k0 >= k { k0 + 1 } else { k0 };
                    assert(newv.copy_at(i, k0) == oldv.copy_at(i, m));
                }
            }
        }
    }

    /// Remove every copy of the aggregate at `b_ind`, keeping the
    /// aggregate itself. The caller is expected to purge reader
    /// references to the copies first.
    pub fn remove_all_copies_at(&mut self, b_ind: usize)
        requires
            b_ind < old(self)@.books.len(),
        ensures
            final(self)@ == (BookSystemV {
                books: old(self)@.books.update(
                    b_ind as int,
                    TheBookV {
                        books: Seq::<BookV>::empty(),
                        ..old(self)@.books[b_ind as int]
                    },
                ),
                ..old(self)@
            }),
            old(self)@.wf() ==> final(self)@.wf(),
    {
        let ghost oldv = self@;
        let mut tmp = TheBook::new(String::new(), String::new(), 0, 0);
        self.books.set_and_swap(b_ind, &mut tmp);
        tmp.remove_all_books();
        self.books.set_and_swap(b_ind, &mut tmp);
        proof {
            assert(final(self)@ =~~= (BookSystemV {
                books: oldv.books.update(
                    b_ind as int,
                    TheBookV { books: Seq::<BookV>::empty(), ..oldv.books[b_ind as int] },
                ),
                ..oldv
            }));
            if oldv.wf() {
                let newv = final(self)@;
                assert forall|i1: int, k1: int, i2: int, k2: int|
                    #![trigger newv.copy_at(i1, k1), newv.copy_at(i2, k2)]
                    newv.valid_copy(i1, k1) && newv.valid_copy(i2, k2) && (i1 != i2 || k1 != k2)
                        implies newv.copy_at(i1, k1).id != newv.copy_at(i2, k2).id by {
                    assert(newv.copy_at(i1, k1) == oldv.copy_at(i1, k1));
                    assert(newv.copy_at(i2, k2) == oldv.copy_at(i2, k2));
                }
                assert forall|i: int, k0: int| newv.valid_copy(i, k0) implies (
                #[trigger] newv.copy_at(i, k0)).id < newv.next_id by {
                    assert(newv.copy_at(i, k0) == oldv.copy_at(i, k0));
                }
            }
        }
    }

    /// Remove the whole aggregate at `b_ind` from the catalog. The
    /// caller is expected to purge reader references to its copies
    /// first.
    pub fn remove_title_at(&mut self, b_ind: usize)
        requires
            b_ind < old(self)@.books.len(),
        ensures
            final(self)@ == (BookSystemV {
                books: old(self)@.books.remove(b_ind as int),
                ..old(self)@
            }),
            old(self)@.wf() ==> final(self)@.wf(),
    {
        let ghost oldv = self@;
        self.books.remove(b_ind);
        proof {
            assert(final(self)@ =~~= (BookSystemV {
                books: oldv.books.remove(b_ind as int),
                ..oldv
            }));
            if oldv.wf() {
                let newv = final(self)@;
                assert forall|i1: int, k1: int, i2: int, k2: int|
                    #![trigger newv.copy_at(i1, k1), newv.copy_at(i2, k2)]
                    newv.valid_copy(i1, k1) && newv.valid_copy(i2, k2) && (i1 != i2 || k1 != k2)
                        implies newv.copy_at(i1, k1).id != newv.copy_at(i2, k2).id by {
                    let m1: int = if i1 >= b_ind { i1 + 1 } else { i1 };
                    let m2: int = if i2 >= b_ind { i2 + 1 } else { i2 };
                    assert(newv.copy_at(i1, k1) == oldv.copy_at(m1, k1));
                    assert(newv.copy_at(i2, k2) == oldv.copy_at(m2, k2));
                }
                assert forall|i: int, k0: int| newv.valid_copy(i, k0) implies (
                #[trigger] newv.copy_at(i, k0)).id < newv.next_id by {
                    let m: int = if i >= b_ind { i + 1 } else { i };
                    assert(newv.copy_at(i, k0) == oldv.copy_at(m, k0));
                }
                assert forall|i: int, j: int|
                    #![trigger newv.books[i], newv.books[j]]
                    0 <= i < newv.books.len() && 0 <= j < newv.books.len() && i != j
                        implies !newv.books[i].has_identity(
                    newv.books[j].title,
                    newv.books[j].author,
                    newv.books[j].pages,
                ) by {
                    let m1: int = if i >= b_ind { i + 1 } else { i };
                    let m2: int = if j >= b_ind { j + 1 } else { j };
                    assert(newv.books[i] == oldv.books[m1]);
                    assert(newv.books[j] == oldv.books[m2]);
                }
            }
        }
    }

    /// Rename the aggregate at `b_ind`, propagating the new title to
    /// every owned copy in one step. Fails with `AlreadyExists`,
    /// changing nothing, when another aggregate already carries the
    /// resulting identity.
    pub fn change_title(&mut self, b_ind: usize, new_title: String) -> (r: Result<(), ErrorKind>)
        requires
            old(self)@.wf(),
        ensures
            final(self)@.wf(),
            b_ind >= old(self)@.books.len() ==> r == Err::<(), ErrorKind>(
                ErrorKind::IndexOutOfRange,
            ) && final(self)@ == old(self)@,
            b_ind < old(self)@.books.len() ==> {
                let tb = old(self)@.books[b_ind as int];
                if exists|j: int|
                    0 <= j < old(self)@.books.len() && j != b_ind && (#[trigger] old(self)@.books[j]).has_identity(new_title@, tb.author, tb.pages) {
                    r == Err::<(), ErrorKind>(ErrorKind::AlreadyExists) && final(self)@ == old(
                        self,
                    )@
                } else {
                    r == Ok::<(), ErrorKind>(()) && final(self)@ == (BookSystemV {
                        books: old(self)@.books.update(
                            b_ind as int,
                            tb.with_identity(new_title@, tb.author, tb.pages),
                        ),
                        ..old(self)@
                    })
                }
            },
    {
        if b_ind >= self.books.len() {
            return Err(ErrorKind::IndexOutOfRange);
        }
        let author = self.books[b_ind].author.clone();
        let pages = self.books[b_ind].pages;
        let found = self.find_book(&new_title, &author, pages);
        let ghost oldv = self@;
        let ghost tb = oldv.books[b_ind as int];
        if found < self.books.len() && found != b_ind {
            proof {
                assert(oldv.books[found as int].has_identity(new_title@, tb.author, tb.pages));
            }
            return Err(ErrorKind::AlreadyExists);
        }
        proof {
            assert forall|j: int|
                0 <= j < oldv.books.len() && j != b_ind implies !(#[trigger] oldv.books[
                j]).has_identity(new_title@, tb.author, tb.pages) by {
                if oldv.books[j].has_identity(new_title@, tb.author, tb.pages) {
                    if found == oldv.books.len() {
                        assert(oldv.has_identity(new_title@, tb.author, tb.pages));
                    } else {
                        assert(found == b_ind);
                        assert(oldv.books[b_ind as int].has_identity(
                            new_title@,
                            tb.author,
                            tb.pages,
                        ));
                        assert(oldv.books[j].has_identity(tb.title, tb.author, tb.pages));
                    }
                }
            }
        }
        let ghost ntv = new_title@;
        let mut tmp = TheBook::new(String::new(), String::new(), 0, 0);
        self.books.set_and_swap(b_ind, &mut tmp);
        tmp.change_title(new_title);
        self.books.set_and_swap(b_ind, &mut tmp);
        proof {
            assert(final(self)@ =~~= (BookSystemV {
                books: oldv.books.update(
                    b_ind as int,
                    tb.with_identity(ntv, tb.author, tb.pages),
                ),
                ..oldv
            }));
            lemma_wf_after_identity_change(oldv, final(self)@, b_ind as int);
        }
        Ok(())
    }

    /// Change the author of the aggregate at `b_ind`, propagating to
    /// every owned copy in one step. Fails with `AlreadyExists`,
    /// changing nothing, when another aggregate already carries the
    /// resulting identity.
    pub fn change_author(&mut self, b_ind: usize, new_author: String) -> (r: Result<(), ErrorKind>)
        requires
            old(self)@.wf(),
        ensures
            final(self)@.wf(),
            b_ind >= old(self)@.books.len() ==> r == Err::<(), ErrorKind>(
                ErrorKind::IndexOutOfRange,
            ) && final(self)@ == old(self)@,
            b_ind < old(self)@.books.len() ==> {
                let tb = old(self)@.books[b_ind as int];
                if exists|j: int|
                    0 <= j < old(self)@.books.len() && j != b_ind && (#[trigger] old(self)@.books[j]).has_identity(tb.title, new_author@, tb.pages) {
                    r == Err::<(), ErrorKind>(ErrorKind::AlreadyExists) && final(self)@ == old(
                        self,
                    )@
                } else {
                    r == Ok::<(), ErrorKind>(()) && final(self)@ == (BookSystemV {
                        books: old(self)@.books.update(
                            b_ind as int,
                            tb.with_identity(tb.title, new_author@, tb.pages),
                        ),
                        ..old(self)@
                    })
                }
            },
    {
        if b_ind >= self.books.len() {
            return Err(ErrorKind::IndexOutOfRange);
        }
        let title = self.books[b_ind].title.clone();
        let pages = self.books[b_ind].pages;
        let found = self.find_book(&title, &new_author, pages);
        let ghost oldv = self@;
        let ghost tb = oldv.books[b_ind as int];
        if found < self.books.len() && found != b_ind {
            proof {
                assert(oldv.books[found as int].has_identity(tb.title, new_author@, tb.pages));
            }
            return Err(ErrorKind::AlreadyExists);
        }
        proof {
            assert forall|j: int|
                0 <= j < oldv.books.len() && j != b_ind implies !(#[trigger] oldv.books[
                j]).has_identity(tb.title, new_author@, tb.pages) by {
                if oldv.books[j].has_identity(tb.title, new_author@, tb.pages) {
                    if found == oldv.books.len() {
                        assert(oldv.has_identity(tb.title, new_author@, tb.pages));
                    } else {
                        assert(found == b_ind);
                        assert(oldv.books[j].has_identity(tb.title, tb.author, tb.pages));
                    }
                }
            }
        }
        let ghost nav = new_author@;
        let mut tmp = TheBook::new(String::new(), String::new(), 0, 0);
        self.books.set_and_swap(b_ind, &mut tmp);
        tmp.change_author(new_author);
        self.books.set_and_swap(b_ind, &mut tmp);
        proof {
            assert(final(self)@ =~~= (BookSystemV {
                books: oldv.books.update(
                    b_ind as int,
                    tb.with_identity(tb.title, nav, tb.pages),
                ),
                ..oldv
            }));
            lemma_wf_after_identity_change(oldv, final(self)@, b_ind as int);
        }
        Ok(())
    }

    /// Change the page count of the aggregate at `b_ind`, propagating
    /// to every owned copy in one step. Fails with `AlreadyExists`,
    /// changing nothing, when another aggregate already carries the
    /// resulting identity.
    pub fn change_pages(&mut self, b_ind: usize, new_pages: u16) -> (r: Result<(), ErrorKind>)
        requires
            old(self)@.wf(),
        ensures
            final(self)@.wf(),
            b_ind >= old(self)@.books.len() ==> r == Err::<(), ErrorKind>(
                ErrorKind::IndexOutOfRange,
            ) && final(self)@ == old(self)@,
            b_ind < old(self)@.books.len() ==> {
                let tb = old(self)@.books[b_ind as int];
                if exists|j: int|
                    0 <= j < old(self)@.books.len() && j != b_ind && (#[trigger] old(self)@.books[j]).has_identity(tb.title, tb.author, new_pages) {
                    r == Err::<(), ErrorKind>(ErrorKind::AlreadyExists) && final(self)@ == old(
                        self,
                    )@
                } else {
                    r == Ok::<(), ErrorKind>(()) && final(self)@ == (BookSystemV {
                        books: old(self)@.books.update(
                            b_ind as int,
                            tb.with_identity(tb.title, tb.author, new_pages),
                        ),
                        ..old(self)@
                    })
                }
            },
    {
        if b_ind >= self.books.len() {
            return Err(ErrorKind::IndexOutOfRange);
        }
        let title = self.books[b_ind].title.clone();
        let author = self.books[b_ind].author.clone();
        let found = self.find_book(&title, &author, new_pages);
        let ghost oldv = self@;
        let ghost tb = oldv.books[b_ind as int];
        if found < self.books.len() && found != b_ind {
            proof {
                assert(oldv.books[found as int].has_identity(tb.title, tb.author, new_pages));
            }
            return Err(ErrorKind::AlreadyExists);
        }
        proof {
            assert forall|j: int|
                0 <= j < oldv.books.len() && j != b_ind implies !(#[trigger] oldv.books[
                j]).has_identity(tb.title, tb.author, new_pages) by {
                if oldv.books[j].has_identity(tb.title, tb.author, new_pages) {
                    if found == oldv.books.len() {
                        assert(oldv.has_identity(tb.title, tb.author, new_pages));
                    } else {
                        assert(found == b_ind);
                        assert(oldv.books[j].has_identity(tb.title, tb.author, tb.pages));
                    }
                }
            }
        }
        let mut tmp = TheBook::new(String::new(), String::new(), 0, 0);
        self.books.set_and_swap(b_ind, &mut tmp);
        tmp.change_pages(new_pages);
        self.books.set_and_swap(b_ind, &mut tmp);
        proof {
            assert(final(self)@ =~~= (BookSystemV {
                books: oldv.books.update(
                    b_ind as int,
                    tb.with_identity(tb.title, tb.author, new_pages),
                ),
                ..oldv
            }));
            lemma_wf_after_identity_change(oldv, final(self)@, b_ind as int);
        }
        Ok(())
    }

    /// Assign genre `genre` to the aggregate at `b_ind`; reports
    /// whether it was newly inserted there.
    pub fn add_genre(&mut self, b_ind: usize, genre: String) -> (r: Result<bool, ErrorKind>)
        requires
            old(self)@.wf(),
        ensures
            final(self)@.wf(),
            b_ind >= old(self)@.books.len() ==> r == Err::<bool, ErrorKind>(
                ErrorKind::IndexOutOfRange,
            ) && final(self)@ == old(self)@,
            b_ind < old(self)@.books.len() && old(self)@.books[b_ind as int].has_genre(genre@)
                ==> final(self)@ == old(self)@,
            b_ind < old(self)@.books.len() ==> r == Ok::<bool, ErrorKind>(
                !old(self)@.books[b_ind as int].has_genre(genre@),
            ) && final(self)@.books.len() == old(self)@.books.len() && final(self)@.next_id == old(self)@.next_id && (forall|j: int|
                0 <= j < old(self)@.books.len() && j != b_ind ==> final(self)@.books[j]
                    == (#[trigger] old(self)@.books[j])) && {
                let tb0 = old(self)@.books[b_ind as int];
                let tb1 = final(self)@.books[b_ind as int];
                tb1.title == tb0.title && tb1.author == tb0.author && tb1.pages == tb0.pages
                    && tb1.books == tb0.books && tb1.has_genre(genre@) && (forall|x: Seq<char>|
                    tb1.has_genre(x) <==> tb0.has_genre(x) || x == genre@)
            },
    {
        if b_ind >= self.books.len() {
            return Err(ErrorKind::IndexOutOfRange);
        }
        let ghost oldv = self@;
        let mut tmp = TheBook::new(String::new(), String::new(), 0, 0);
        self.books.set_and_swap(b_ind, &mut tmp);
        let newly = tmp.add_genre(genre);
        let ghost updated = tmp@;
        self.books.set_and_swap(b_ind, &mut tmp);
        proof {
            assert(final(self)@.books =~= oldv.books.update(b_ind as int, updated));
            assert(oldv.books[b_ind as int].wf());
            lemma_wf_after_identity_change(oldv, final(self)@, b_ind as int);
            if !newly {
                assert(final(self)@ =~~= oldv);
            }
        }
        Ok(newly)
    }

    /// Drop genre `genre` from the aggregate at `b_ind`; reports
    /// whether it was found there. When the removal empties the
    /// aggregate's genre set, the set becomes absent.
    pub fn remove_genre(&mut self, b_ind: usize, genre: &String) -> (r: Result<bool, ErrorKind>)
        requires
            old(self)@.wf(),
        ensures
            final(self)@.wf(),
            b_ind >= old(self)@.books.len() ==> r == Err::<bool, ErrorKind>(
                ErrorKind::IndexOutOfRange,
            ) && final(self)@ == old(self)@,
            b_ind < old(self)@.books.len() && !old(self)@.books[b_ind as int].has_genre(genre@)
                ==> final(self)@ == old(self)@,
            b_ind < old(self)@.books.len() ==> r == Ok::<bool, ErrorKind>(
                old(self)@.books[b_ind as int].has_genre(genre@),
            ) && final(self)@.books.len() == old(self)@.books.len() && final(self)@.next_id == old(self)@.next_id && (forall|j: int|
                0 <= j < old(self)@.books.len() && j != b_ind ==> final(self)@.books[j]
                    == (#[trigger] old(self)@.books[j])) && {
                let tb0 = old(self)@.books[b_ind as int];
                let tb1 = final(self)@.books[b_ind as int];
                tb1.title == tb0.title && tb1.author == tb0.author && tb1.pages == tb0.pages
                    && tb1.books == tb0.books && tb1.genres_wf() && (forall|x: Seq<char>|
                    tb1.has_genre(x) <==> tb0.has_genre(x) && x != genre@)
            },
    {
        if b_ind >= self.books.len() {
            return Err(ErrorKind::IndexOutOfRange);
        }
        let ghost oldv = self@;
        let mut tmp = TheBook::new(String::new(), String::new(), 0, 0);
        self.books.set_and_swap(b_ind, &mut tmp);
        let found = tmp.remove_genre(genre);
        let ghost updated = tmp@;
        self.books.set_and_swap(b_ind, &mut tmp);
        proof {
            assert(final(self)@.books =~= oldv.books.update(b_ind as int, updated));
            assert(oldv.books[b_ind as int].wf());
            lemma_wf_after_identity_change(oldv, final(self)@, b_ind as int);
            if !found {
                assert(final(self)@ =~~= oldv);
            }
        }
        Ok(found)
    }
}

/// Uniqueness of stable ids and per-aggregate well-formedness carry
/// over when exactly one aggregate's identity fields are rewritten to
/// an identity no other aggregate carries.
proof fn lemma_wf_after_identity_change(oldv: BookSystemV, newv: BookSystemV, b: int)
    requires
        oldv.wf(),
        0 <= b < oldv.books.len(),
        newv.next_id == oldv.next_id,
        newv.books.len() == oldv.books.len(),
        forall|j: int| 0 <= j < oldv.books.len() && j != b ==> newv.books[j] == oldv.books[j],
        newv.books[b].wf(),
        newv.books[b].books.len() == oldv.books[b].books.len(),
        forall|k: int|
            0 <= k < oldv.books[b].books.len() ==> (#[trigger] newv.books[b].books[k]).id
                == oldv.books[b].books[k].id,
        forall|j: int|
            0 <= j < oldv.books.len() && j != b ==> !(#[trigger] oldv.books[j]).has_identity(
                newv.books[b].title,
                newv.books[b].author,
                newv.books[b].pages,
            ),
    ensures
        newv.wf(),
{
    assert forall|i1: int, k1: int, i2: int, k2: int|
        #![trigger newv.copy_at(i1, k1), newv.copy_at(i2, k2)]
        newv.valid_copy(i1, k1) && newv.valid_copy(i2, k2) && (i1 != i2 || k1 != k2)
            implies newv.copy_at(i1, k1).id != newv.copy_at(i2, k2).id by {
        assert(newv.copy_at(i1, k1).id == oldv.copy_at(i1, k1).id);
        assert(newv.copy_at(i2, k2).id == oldv.copy_at(i2, k2).id);
    }
    assert forall|i: int, k0: int| newv.valid_copy(i, k0) implies (#[trigger] newv.copy_at(
        i,
        k0,
    )).id < newv.next_id by {
        assert(newv.copy_at(i, k0).id == oldv.copy_at(i, k0).id);
    }
    assert forall|i: int, j: int|
        #![trigger newv.books[i], newv.books[j]]
        0 <= i < newv.books.len() && 0 <= j < newv.books.len() && i != j
            implies !newv.books[i].has_identity(
        newv.books[j].title,
        newv.books[j].author,
        newv.books[j].pages,
    ) by {
        if i != b && j != b {
            assert(newv.books[i] == oldv.books[i]);
            assert(newv.books[j] == oldv.books[j]);
        } else if i == b {
            if newv.books[b].has_identity(newv.books[j].title, newv.books[j].author, newv.books[j].pages) {
                assert(oldv.books[j].has_identity(
                    newv.books[b].title,
                    newv.books[b].author,
                    newv.books[b].pages,
                ));
            }
        }
    }
}

/// Catalog well-formedness carries over when exactly one copy is
/// rewritten in place, keeping its stable id and identity fields and
/// staying well formed itself.
pub proof fn lemma_wf_after_copy_update(oldv: BookSystemV, newv: BookSystemV, i: int, k: int)
    requires
        oldv.wf(),
        oldv.valid_copy(i, k),
        newv == oldv.with_copy(i, k, newv.copy_at(i, k)),
        newv.copy_at(i, k).id == oldv.copy_at(i, k).id,
        newv.copy_at(i, k).wf(),
        newv.copy_at(i, k).title == oldv.copy_at(i, k).title,
        newv.copy_at(i, k).author == oldv.copy_at(i, k).author,
        newv.copy_at(i, k).pages == oldv.copy_at(i, k).pages,
    ensures
        newv.wf(),
{
    assert forall|j: int| 0 <= j < newv.books.len() implies (#[trigger] newv.books[j]).wf() by {
        if j != i {
            assert(newv.books[j] == oldv.books[j]);
        } else {
            assert(oldv.books[i].wf());
            let nb = newv.books[i];
            assert forall|m: int| 0 <= m < nb.books.len() implies (#[trigger] nb.books[m]).wf()
                && nb.books[m].has_identity(nb.title, nb.author, nb.pages) by {
                if m != k {
                    assert(nb.books[m] == oldv.books[i].books[m]);
                } else {
                    assert(oldv.books[i].books[k].has_identity(
                        oldv.books[i].title,
                        oldv.books[i].author,
                        oldv.books[i].pages,
                    ));
                }
            }
        }
    }
    assert forall|a: int, b: int|
        #![trigger newv.books[a], newv.books[b]]
        0 <= a < newv.books.len() && 0 <= b < newv.books.len() && a != b
            implies !newv.books[a].has_identity(
        newv.books[b].title,
        newv.books[b].author,
        newv.books[b].pages,
    ) by {
        assert(newv.books[a].title == oldv.books[a].title && newv.books[a].author
            == oldv.books[a].author && newv.books[a].pages == oldv.books[a].pages);
        assert(newv.books[b].title == oldv.books[b].title && newv.books[b].author
            == oldv.books[b].author && newv.books[b].pages == oldv.books[b].pages);
        assert(!oldv.books[a].has_identity(
            oldv.books[b].title,
            oldv.books[b].author,
            oldv.books[b].pages,
        ));
    }
    assert forall|a: int, b: int| newv.valid_copy(a, b) implies (#[trigger] newv.copy_at(
        a,
        b,
    )).id < newv.next_id by {
        assert(newv.copy_at(a, b).id == oldv.copy_at(a, b).id);
    }
    assert forall|a1: int, b1: int, a2: int, b2: int|
        #![trigger newv.copy_at(a1, b1), newv.copy_at(a2, b2)]
        newv.valid_copy(a1, b1) && newv.valid_copy(a2, b2) && (a1 != a2 || b1 != b2)
            implies newv.copy_at(a1, b1).id != newv.copy_at(a2, b2).id by {
        assert(newv.copy_at(a1, b1).id == oldv.copy_at(a1, b1).id);
        assert(newv.copy_at(a2, b2).id == oldv.copy_at(a2, b2).id);
    }
}

/// The identities `(title, author, pages)`, in catalog order, of the
/// aggregates whose genre set holds `genre`. Aggregates without a
/// genre set never match.
pub fn find_by_genre_simple(genre: &String, book_system: &BookSystem) -> (r: Vec<
    (String, String, u16),
>)
    ensures
        r@.map_values(triple_view()) == book_system@.with_genre(genre@).map_values(
            identity_triple(),
        ),
{
    let mut find: Vec<(String, String, u16)> = Vec::new();
    let n = book_system.books.len();
    let mut i: usize = 0;
    proof {
        assert(find@.map_values(triple_view()) =~= book_system@.books.take(0).filter(
            genre_pred(genre@),
        ).map_values(identity_triple()));
    }
    while i < n
        invariant
            i <= n,
            n == book_system@.books.len(),
            find@.map_values(triple_view()) == book_system@.books.take(i as int).filter(
                genre_pred(genre@),
            ).map_values(identity_triple()),
        decreases n - i,
    {
        proof {
            assert(book_system@.books[i as int] == book_system.books@[i as int]@);
        }
        let tb = &book_system.books[i];
        let matched = match &tb.genres {
            Some(v) => crate::text::contains_str(v, genre),
            None => false,
        };
        proof {
            assert(matched == genre_pred(genre@)(book_system@.books[i as int]));
            assert(book_system@.books.take(i as int + 1) =~= book_system@.books.take(
                i as int,
            ).push(book_system@.books[i as int]));
            crate::text::lemma_filter_push(
                book_system@.books.take(i as int),
                genre_pred(genre@),
                book_system@.books[i as int],
            );
        }
        let ghost prev_find = find@;
        if matched {
            find.push((tb.title.clone(), tb.author.clone(), tb.pages));
            proof {
                assert(triple_view()(find@.last()) == identity_triple()(
                    book_system@.books[i as int],
                ));
                assert(book_system@.books.take(i as int + 1).filter(genre_pred(genre@))
                    == book_system@.books.take(i as int).filter(genre_pred(genre@)).push(
                    book_system@.books[i as int],
                ));
                assert(find@ =~= prev_find.push(find@.last()));
                assert(find@.map_values(triple_view()) =~= prev_find.map_values(
                    triple_view(),
                ).push(triple_view()(find@.last())));
                assert(book_system@.books.take(i as int + 1).filter(
                    genre_pred(genre@),
                ).map_values(identity_triple()) =~= book_system@.books.take(i as int).filter(
                    genre_pred(genre@),
                ).map_values(identity_triple()).push(
                    identity_triple()(book_system@.books[i as int]),
                ));
            }
        } else {
            proof {
                assert(book_system@.books.take(i as int + 1).filter(genre_pred(genre@))
                    == book_system@.books.take(i as int).filter(genre_pred(genre@)));
            }
        }
        proof {
            assert(find@.map_values(triple_view()) == book_system@.books.take(
                i as int + 1,
            ).filter(genre_pred(genre@)).map_values(identity_triple()));
        }
        i += 1;
    }
    proof {
        assert(book_system@.books.take(n as int) =~= book_system@.books);
    }
    find
}


impl BookSystem {
    /// A structurally equal copy of the whole catalog.
    pub fn duplicate(&self) -> (r: BookSystem)
        ensures
            r@ == self@,
    {
        let mut books: Vec<TheBook> = Vec::new();
        let n = self.books.len();
        let mut i: usize = 0;
        while i < n
            invariant
                i <= n,
                n == self.books@.len(),
                books@.len() == i,
                forall|j: int| 0 <= j < i ==> books@[j]@ == #[trigger] self.books@[j]@,
            decreases n - i,
        {
            let t = self.books[i].duplicate();
            books.push(t);
            i += 1;
        }
        let r = BookSystem { books, next_id: self.next_id };
        proof {
            assert(r@.books =~= self@.books);
            assert(r@ == self@);
        }
        r
    }
}

} // verus!
