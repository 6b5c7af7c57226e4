use vstd::prelude::*;
use crate::book::{Book, BookV, books_view};
use crate::error::ErrorKind;
use crate::text::{find_str, spec_contains_str, views_of};

verus! {

/// Spec-level image of a title aggregate.
#[verifier::ext_equal]
pub struct TheBookV {
    pub title: Seq<char>,
    pub author: Seq<char>,
    pub pages: u16,
    pub books: Seq<BookV>,
    pub genres: Option<Seq<Seq<char>>>,
}

/// One title/author/page-count identity, owning its physical copies
/// and an optional set of genre names. An absent genre set means "no
/// genres assigned"; it is never present but empty.
pub struct TheBook {
    pub title: String,
    pub author: String,
    pub pages: u16,
    pub books: Vec<Book>,
    pub genres: Option<Vec<String>>,
}

impl View for TheBook {
    type V = TheBookV;

    open spec fn view(&self) -> TheBookV {
        TheBookV {
            title: self.title@,
            author: self.author@,
            pages: self.pages,
            books: books_view(self.books@),
            genres: match self.genres {
                Option::None => Option::None,
                Option::Some(v) => Option::Some(views_of(v@)),
            },
        }
    }
}

impl TheBookV {
    /// The genre set is never present but empty, and holds no
    /// duplicate names.
    pub open spec fn genres_wf(self) -> bool {
        self.genres matches Some(gs) ==> gs.len() > 0 && (forall|i: int, j: int|
            0 <= i < j < gs.len() ==> gs[i] != gs[j])
    }

    /// Every copy is well formed and carries this aggregate's
    /// identity; the genre set is well formed.
    pub open spec fn wf(self) -> bool {
        &&& forall|i: int| 0 <= i < self.books.len() ==> (#[trigger] self.books[i]).wf()
        &&& forall|i: int|
            0 <= i < self.books.len() ==> (#[trigger] self.books[i]).has_identity(
                self.title,
                self.author,
                self.pages,
            )
        &&& self.genres_wf()
    }

    /// Whether this aggregate carries the given identity.
    pub open spec fn has_identity(self, title: Seq<char>, author: Seq<char>, pages: u16) -> bool {
        self.title == title && self.author == author && self.pages == pages
    }

    /// Whether the genre set is present and holds `g`.
    pub open spec fn has_genre(self, g: Seq<char>) -> bool {
        self.genres matches Some(gs) && spec_contains_str(gs, g)
    }

    /// This aggregate with its identity fields replaced and the same
    /// replacement propagated to every owned copy.
    pub open spec fn with_identity(self, title: Seq<char>, author: Seq<char>, pages: u16) -> TheBookV {
        TheBookV {
            title: title,
            author: author,
            pages: pages,
            books: self.books.map_values(
                |b: BookV| (BookV { title: title, author: author, pages: pages, ..b }),
            ),
            ..self
        }
    }
}

impl TheBook {
    /// A new aggregate created together with its first, unused copy,
    /// which gets the stable id `first_id`. No genres are assigned.
    pub fn new(new_title: String, new_author: String, new_pages: u16, first_id: u64) -> (r:
        TheBook)
        ensures
            r@.title == new_title@,
            r@.author == new_author@,
            r@.pages == new_pages,
            r@.genres is None,
            r@.books.len() == 1,
            r@.books[0] == (BookV {
                title: new_title@,
                author: new_author@,
                pages: new_pages,
                id: first_id,
                is_using: false,
                readers: Seq::<crate::book::BorrowEntry>::empty(),
            }),
            r@.wf(),
    {
        let first = Book::new(new_title.clone(), new_author.clone(), new_pages, first_id);
        let mut books: Vec<Book> = Vec::new();
        books.push(first);
        let r = TheBook { title: new_title, author: new_author, pages: new_pages, books, genres: None };
        proof {
            assert(r@.books =~= seq![r.books@[0]@]);
        }
        r
    }

    /// Index of the first unused copy, or `None` when every copy is
    /// lent out.
    pub fn get_unused(&self) -> (r: Option<usize>)
        ensures
            r matches Some(i) ==> i < self@.books.len() && !self@.books[i as int].is_using
                && (forall|j: int| 0 <= j < i ==> self@.books[j].is_using),
            r is None ==> forall|j: int| 0 <= j < self@.books.len() ==> self@.books[j].is_using,
    {
        let n = self.books.len();
        let mut i: usize = 0;
        while i < n
            invariant
                i <= n,
                n == self@.books.len(),
                forall|j: int| 0 <= j < i ==> self@.books[j].is_using,
            decreases n - i,
        {
            if !self.books[i].is_using {
                return Some(i);
            }
            proof {
                assert(self@.books[i as int].is_using);
            }
            i += 1;
        }
        None
    }

    /// Index of the first copy currently held by the given reader, or
    /// `None` when this reader holds none of them.
    pub fn find_by_reader(&self, reader: u64) -> (r: Option<usize>)
        requires
            self@.wf(),
        ensures
            r matches Some(i) ==> i < self@.books.len() && self@.books[i as int].is_using
                && self@.books[i as int].holder() == reader && (forall|j: int|
                0 <= j < i ==> !((#[trigger] self@.books[j]).is_using && self@.books[j].holder()
                    == reader)),
            r is None ==> forall|j: int|
                0 <= j < self@.books.len() ==> !((#[trigger] self@.books[j]).is_using
                    && self@.books[j].holder() == reader),
    {
        let n = self.books.len();
        let mut i: usize = 0;
        while i < n
            invariant
                i <= n,
                n == self@.books.len(),
                self@.wf(),
                forall|j: int|
                    0 <= j < i ==> !((#[trigger] self@.books[j]).is_using
                        && self@.books[j].holder() == reader),
            decreases n - i,
        {
            proof {
                assert(self@.books[i as int] == self.books@[i as int]@);
            }
            if self.books[i].is_using {
                let m = self.books[i].readers.len();
                if self.books[i].readers[m - 1].reader == reader {
                    return Some(i);
                }
            }
            i += 1;
        }
        None
    }

    /// Append one new unused copy carrying this aggregate's identity,
    /// under the stable id `id`.
    pub fn add_book(&mut self, id: u64)
        ensures
            final(self)@ == (TheBookV {
                books: old(self)@.books.push(
                    BookV {
                        title: old(self)@.title,
                        author: old(self)@.author,
                        pages: old(self)@.pages,
                        id: id,
                        is_using: false,
                        readers: Seq::<crate::book::BorrowEntry>::empty(),
                    },
                ),
                ..old(self)@
            }),
            old(self)@.wf() ==> final(self)@.wf(),
    {
        let b = Book::new(self.title.clone(), self.author.clone(), self.pages, id);
        self.books.push(b);
        proof {
            assert(final(self)@.books =~= old(self)@.books.push(
                BookV {
                    title: old(self)@.title,
                    author: old(self)@.author,
                    pages: old(self)@.pages,
                    id: id,
                    is_using: false,
                    readers: Seq::<crate::book::BorrowEntry>::empty(),
                },
            ));
        }
    }

    /// Remove the copy at `ind` from this aggregate alone. An index at
    /// or past the copy count reports `IndexOutOfRange` and changes
    /// nothing. This raw step does not touch readers: whole-system
    /// callers must purge reader references first, as
    /// `crate::system::remove_copy` does; going through that function
    /// keeps the cross-entity link invariant.
    pub fn remove_book(&mut self, ind: usize) -> (r: Result<(), ErrorKind>)
        ensures
            ind >= old(self)@.books.len() ==> r == Err::<(), ErrorKind>(
                ErrorKind::IndexOutOfRange,
            ) && final(self)@ == old(self)@,
            ind < old(self)@.books.len() ==> r == Ok::<(), ErrorKind>(()) && final(self)@
                == (TheBookV { books: old(self)@.books.remove(ind as int), ..old(self)@ }),
            old(self)@.wf() ==> final(self)@.wf(),
    {
        if ind >= self.books.len() {
            Err(ErrorKind::IndexOutOfRange)
        } else {
            self.books.remove(ind);
            proof {
                assert(final(self)@.books =~= old(self)@.books.remove(ind as int));
            }
            Ok(())
        }
    }

    /// Remove every copy from this aggregate alone. This raw step
    /// does not touch readers: whole-system callers must purge reader
    /// references first, as `crate::system::remove_all_copies` does;
    /// going through that function keeps the cross-entity link
    /// invariant.
    pub fn remove_all_books(&mut self)
        ensures
            final(self)@ == (TheBookV { books: Seq::<BookV>::empty(), ..old(self)@ }),
            old(self)@.wf() ==> final(self)@.wf(),
    {
        self.books = Vec::new();
        proof {
            assert(final(self)@.books =~= Seq::<BookV>::empty());
        }
    }

    /// Give every owned copy and the aggregate itself the new title,
    /// in one step.
    pub fn change_title(&mut self, new_title: String)
        requires
            old(self)@.wf(),
        ensures
            final(self)@ == old(self)@.with_identity(new_title@, old(self)@.author, old(self)@.pages),
            final(self)@.wf(),
    {
        let n = self.books.len();
        let mut i: usize = 0;
        while i < n
            invariant
                i <= n,
                n == self.books@.len(),
                old(self)@.wf(),
                self.title@ == old(self).title@,
                self.author@ == old(self).author@,
                self.pages == old(self).pages,
                self.genres == old(self).genres,
                forall|j: int|
                    i <= j < n ==> self.books@[j]@ == old(self).books@[j]@,
                forall|j: int|
                    0 <= j < i ==> self.books@[j]@ == (BookV {
                        title: new_title@,
                        ..old(self).books@[j]@
                    }),
            decreases n - i,
        {
            let mut tmp = Book::new(String::new(), String::new(), 0, 0);
            self.books.set_and_swap(i, &mut tmp);
            tmp.title = new_title.clone();
            self.books.set_and_swap(i, &mut tmp);
            i += 1;
        }
        self.title = new_title;
        proof {
            let m = old(self)@.books.map_values(
                |b: BookV| (BookV { title: new_title@, author: old(self)@.author, pages: old(self)@.pages, ..b }),
            );
            assert forall|j: int| 0 <= j < old(self)@.books.len() implies final(self)@.books[j]
                == m[j] by {
                assert(old(self)@.books[j].has_identity(
                    old(self)@.title,
                    old(self)@.author,
                    old(self)@.pages,
                ));
                assert(final(self)@.books[j] == self.books@[j]@);
            }
            assert(final(self)@.books =~= m);
        }
    }

    /// Give every owned copy and the aggregate itself the new author,
    /// in one step.
    pub fn change_author(&mut self, new_author: String)
        requires
            old(self)@.wf(),
        ensures
            final(self)@ == old(self)@.with_identity(old(self)@.title, new_author@, old(self)@.pages),
            final(self)@.wf(),
    {
        let n = self.books.len();
        let mut i: usize = 0;
        while i < n
            invariant
                i <= n,
                n == self.books@.len(),
                old(self)@.wf(),
                self.title@ == old(self).title@,
                self.author@ == old(self).author@,
                self.pages == old(self).pages,
                self.genres == old(self).genres,
                forall|j: int|
                    i <= j < n ==> self.books@[j]@ == old(self).books@[j]@,
                forall|j: int|
                    0 <= j < i ==> self.books@[j]@ == (BookV {
                        author: new_author@,
                        ..old(self).books@[j]@
                    }),
            decreases n - i,
        {
            let mut tmp = Book::new(String::new(), String::new(), 0, 0);
            self.books.set_and_swap(i, &mut tmp);
            tmp.author = new_author.clone();
            self.books.set_and_swap(i, &mut tmp);
            i += 1;
        }
        self.author = new_author;
        proof {
            let m = old(self)@.books.map_values(
                |b: BookV| (BookV { title: old(self)@.title, author: new_author@, pages: old(self)@.pages, ..b }),
            );
            assert forall|j: int| 0 <= j < old(self)@.books.len() implies final(self)@.books[j]
                == m[j] by {
                assert(old(self)@.books[j].has_identity(
                    old(self)@.title,
                    old(self)@.author,
                    old(self)@.pages,
                ));
                assert(final(self)@.books[j] == self.books@[j]@);
            }
            assert(final(self)@.books =~= m);
        }
    }

    /// Give every owned copy and the aggregate itself the new page
    /// count, in one step.
    pub fn change_pages(&mut self, new_pages: u16)
        requires
            old(self)@.wf(),
        ensures
            final(self)@ == old(self)@.with_identity(old(self)@.title, old(self)@.author, new_pages),
            final(self)@.wf(),
    {
        let n = self.books.len();
        let mut i: usize = 0;
        while i < n
            invariant
                i <= n,
                n == self.books@.len(),
                old(self)@.wf(),
                self.title@ == old(self).title@,
                self.author@ == old(self).author@,
                self.pages == old(self).pages,
                self.genres == old(self).genres,
                forall|j: int|
                    i <= j < n ==> self.books@[j]@ == old(self).books@[j]@,
                forall|j: int|
                    0 <= j < i ==> self.books@[j]@ == (BookV {
                        pages: new_pages,
                        ..old(self).books@[j]@
                    }),
            decreases n - i,
        {
            let mut tmp = Book::new(String::new(), String::new(), 0, 0);
            self.books.set_and_swap(i, &mut tmp);
            tmp.pages = new_pages;
            self.books.set_and_swap(i, &mut tmp);
            i += 1;
        }
        self.pages = new_pages;
        proof {
            let m = old(self)@.books.map_values(
                |b: BookV| (BookV { title: old(self)@.title, author: old(self)@.author, pages: new_pages, ..b }),
            );
            assert forall|j: int| 0 <= j < old(self)@.books.len() implies final(self)@.books[j]
                == m[j] by {
                assert(old(self)@.books[j].has_identity(
                    old(self)@.title,
                    old(self)@.author,
                    old(self)@.pages,
                ));
                assert(final(self)@.books[j] == self.books@[j]@);
            }
            assert(final(self)@.books =~= m);
        }
    }

    /// Assign the genre `genre` to this aggregate; reports whether it
    /// was newly inserted. The genre set is created lazily when
    /// absent.
    pub fn add_genre(&mut self, genre: String) -> (r: bool)
        requires
            old(self)@.genres_wf(),
        ensures
            final(self)@.genres_wf(),
            r == !old(self)@.has_genre(genre@),
            !r ==> final(self)@ == old(self)@,
            final(self)@.has_genre(genre@),
            forall|x: Seq<char>| final(self)@.has_genre(x) <==> old(self)@.has_genre(x) || x == genre@,
            final(self)@.title == old(self)@.title,
            final(self)@.author == old(self)@.author,
            final(self)@.pages == old(self)@.pages,
            final(self)@.books == old(self)@.books,
            old(self)@.wf() ==> final(self)@.wf(),
    {
        let gs = self.genres.take();
        let mut v: Vec<String> = match gs {
            Some(v) => v,
            None => Vec::new(),
        };
        let ghost vv = views_of(v@);
        let ghost gv = genre@;
        proof {
            assert(old(self)@.genres is Some ==> old(self)@.genres == Some(vv));
            assert(old(self)@.genres is None ==> vv =~= Seq::<Seq<char>>::empty());
        }
        let i = find_str(&v, &genre);
        let newly = i == v.len();
        if newly {
            v.push(genre);
            proof {
                assert(views_of(v@) =~= vv.push(gv));
            }
        } else {
            proof {
                assert(vv[i as int] == v@[i as int]@);
                assert(old(self)@.has_genre(gv)) by {
                    assert(vv[i as int] == gv);
                }
            }
        }
        self.genres = Some(v);
        proof {
            let gs2 = views_of(v@);
            assert(final(self)@.genres == Some(gs2));
            assert forall|x: Seq<char>|
                final(self)@.has_genre(x) <==> old(self)@.has_genre(x) || x == gv by {
                if old(self)@.has_genre(x) {
                    let k = choose|k: int| 0 <= k < vv.len() && vv[k] == x;
                    assert(gs2[k] == x);
                }
                if x == gv {
                    if newly {
                        assert(gs2[vv.len() as int] == gv);
                    } else {
                        assert(gs2[i as int] == gv);
                    }
                }
                if final(self)@.has_genre(x) {
                    let k = choose|k: int| 0 <= k < gs2.len() && gs2[k] == x;
                    if k < vv.len() {
                        assert(vv[k] == x);
                        assert(old(self)@.genres is Some);
                    } else {
                        assert(x == gv);
                    }
                }
            }
            assert(final(self)@.genres_wf()) by {
                assert forall|a: int, b: int| 0 <= a < b < gs2.len() implies gs2[a] != gs2[b] by {
                    if b < vv.len() {
                        assert(vv[a] == gs2[a] && vv[b] == gs2[b]);
                        assert(old(self)@.genres == Some(vv));
                    } else if a < vv.len() {
                        assert(vv[a] == gs2[a]);
                        assert(!spec_contains_str(vv, gv));
                        if gs2[a] == gs2[b] {
                            assert(vv[a] == gv);
                        }
                    }
                }
            }
            assert(final(self)@.has_genre(gv));
            assert(final(self)@.books == old(self)@.books);
        }
        newly
    }

    /// Drop the genre `genre` from this aggregate; reports whether it
    /// was found. When the removal empties the set, the set becomes
    /// absent, never present but empty.
    pub fn remove_genre(&mut self, genre: &String) -> (r: bool)
        requires
            old(self)@.genres_wf(),
        ensures
            final(self)@.genres_wf(),
            r == old(self)@.has_genre(genre@),
            !r ==> final(self)@ == old(self)@,
            forall|x: Seq<char>| final(self)@.has_genre(x) <==> old(self)@.has_genre(x) && x != genre@,
            final(self)@.title == old(self)@.title,
            final(self)@.author == old(self)@.author,
            final(self)@.pages == old(self)@.pages,
            final(self)@.books == old(self)@.books,
            old(self)@.wf() ==> final(self)@.wf(),
    {
        let gs = self.genres.take();
        match gs {
            None => {
                proof {
                    assert(final(self)@.books == old(self)@.books);
                }
                false
            },
            Some(mut v) => {
                let ghost vv = views_of(v@);
                let i = find_str(&v, genre);
                if i == v.len() {
                    self.genres = Some(v);
                    proof {
                        assert(!old(self)@.has_genre(genre@));
                        assert(views_of(v@) == vv);
                        assert forall|x: Seq<char>|
                            final(self)@.has_genre(x) <==> old(self)@.has_genre(x) && x
                                != genre@ by {
                            assert(final(self)@.genres == old(self)@.genres);
                        }
                        assert(final(self)@.books == old(self)@.books);
                    }
                    false
                } else {
                    proof {
                        assert(vv[i as int] == v@[i as int]@);
                        assert(old(self)@.has_genre(genre@)) by {
                            assert(vv[i as int] == genre@);
                        }
                    }
                    v.remove(i);
                    proof {
                        assert(views_of(v@) =~= vv.remove(i as int));
                    }
                    if v.len() > 0 {
                        self.genres = Some(v);
                    }
                    proof {
                        let ghost rem = vv.remove(i as int);
                        assert forall|x: Seq<char>|
                            final(self)@.has_genre(x) <==> old(self)@.has_genre(x) && x
                                != genre@ by {
                            if final(self)@.has_genre(x) {
                                assert(rem.len() > 0);
                                let k = choose|k: int| 0 <= k < rem.len() && rem[k] == x;
                                if k < i {
                                    assert(vv[k] == x);
                                    if x == genre@ {
                                        assert(vv[k] == vv[i as int]);
                                    }
                                } else {
                                    assert(vv[k + 1] == x);
                                    if x == genre@ {
                                        assert(vv[k + 1] == vv[i as int]);
                                    }
                                }
                            }
                            if old(self)@.has_genre(x) && x != genre@ {
                                let k = choose|k: int| 0 <= k < vv.len() && vv[k] == x;
                                assert(k != i);
                                assert(rem.len() > 0) by {
                                    if k < i {
                                        assert(rem[k] == vv[k]);
                                    } else {
                                        assert(rem[k - 1] == vv[k]);
                                    }
                                }
                                assert(final(self)@.genres matches Some(gs2) && gs2 == rem);
                                if k < i {
                                    assert(rem[k] == x);
                                } else {
                                    assert(rem[k - 1] == x);
                                }
                            }
                        }
                        assert(final(self)@.genres_wf()) by {
                            if final(self)@.genres is Some {
                                let gs2 = final(self)@.genres.unwrap();
                                assert(gs2 == rem);
                                assert forall|a: int, b: int|
                                    0 <= a < b < rem.len() implies rem[a] != rem[b] by {
                                    let a0: int = if a < i { a } else { a + 1 };
                                    let b0: int = if b < i { b } else { b + 1 };
                                    assert(rem[a] == vv[a0] && rem[b] == vv[b0]);
                                }
                            }
                        }
                        assert(final(self)@.books == old(self)@.books);
                    }
                    true
                }
            },
        }
    }
}


impl TheBook {
    /// A structurally equal copy of this aggregate: every copy's
    /// history and the genre set are reproduced.
    pub fn duplicate(&self) -> (r: TheBook)
        ensures
            r@ == self@,
    {
        let mut copies: Vec<Book> = Vec::new();
        let n = self.books.len();
        let mut i: usize = 0;
        while i < n
            invariant
                i <= n,
                n == self.books@.len(),
                copies@.len() == i,
                forall|j: int| 0 <= j < i ==> copies@[j]@ == #[trigger] self.books@[j]@,
            decreases n - i,
        {
            let c = self.books[i].duplicate();
            copies.push(c);
            i += 1;
        }
        let genres: Option<Vec<String>> = match &self.genres {
            None => None,
            Some(v) => Some(crate::text::clone_strings(v)),
        };
        let r = TheBook {
            title: self.title.clone(),
            author: self.author.clone(),
            pages: self.pages,
            books: copies,
            genres,
        };
        proof {
            assert(r@.books =~= self@.books);
            assert(r@.genres == self@.genres);
            assert(r@ == self@);
        }
        r
    }
}

} // verus!
